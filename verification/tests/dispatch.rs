use std::any::Any;

use registry_io::dispatch::{panicked_handlers, Dispatch, Outcome, Step};
use registry_io::panic::PanicCallbackHolder;
use registry_io::sync::registry_description;
use registry_io::{Handler, HandlerId, PanicInfo, PanicPayload, SyncRegistry};

/// Feeds `outcomes` to a dispatch over as many handlers and records the
/// steps it asks for.
fn trace(outcomes: &[Outcome]) -> Vec<Step> {
    let mut dispatch = Dispatch::new(outcomes.len());
    let mut steps = Vec::new();
    let mut outcome = None;
    loop {
        let step = dispatch.step(outcome.take());
        steps.push(step);
        match step {
            Step::Run(i) => outcome = Some(outcomes[i]),
            Step::ReportPanic(_) => {}
            Step::Finished => break,
        }
    }
    steps
}

#[test]
fn dispatch_over_no_handlers_finishes_at_once() {
    assert_eq!(trace(&[]), vec![Step::Finished]);
}

#[test]
fn dispatch_runs_each_handler_once_in_order() {
    assert_eq!(
        trace(&[Outcome::Completed, Outcome::Completed, Outcome::Completed]),
        vec![Step::Run(0), Step::Run(1), Step::Run(2), Step::Finished]
    );
}

#[test]
fn dispatch_reports_a_panic_before_the_next_handler_runs() {
    assert_eq!(
        trace(&[
            Outcome::Completed,
            Outcome::Panicked,
            Outcome::Completed,
            Outcome::Panicked,
        ]),
        vec![
            Step::Run(0),
            Step::Run(1),
            Step::ReportPanic(1),
            Step::Run(2),
            Step::Run(3),
            Step::ReportPanic(3),
            Step::Finished,
        ]
    );
}

#[test]
fn dispatch_tracks_whether_a_handler_is_running() {
    let mut dispatch = Dispatch::new(1);
    assert!(!dispatch.is_running());
    assert_eq!(dispatch.step(None), Step::Run(0));
    assert!(dispatch.is_running());
    assert_eq!(dispatch.step(Some(Outcome::Completed)), Step::Finished);
    assert!(!dispatch.is_running());
    assert_eq!(dispatch.step(None), Step::Finished);
}

#[test]
fn registry_description_names_count_and_callback() {
    assert_eq!(
        registry_description(0, false),
        "SyncRegistry { handler_count: 0, has_panic_callback: false, .. }"
    );
    assert_eq!(
        registry_description(12, true),
        "SyncRegistry { handler_count: 12, has_panic_callback: true, .. }"
    );
}

#[test]
fn registry_debug_string_follows_the_registry() {
    let registry: SyncRegistry<u8> = SyncRegistry::new();
    assert_eq!(
        registry.debug_string(),
        "SyncRegistry { handler_count: 0, has_panic_callback: false, .. }"
    );
    let _ = registry.register(Handler(Box::new(|_| {})));
    let _ = registry.register_with_priority(3, Handler(Box::new(|_| {})));
    registry.on_panic(PanicCallbackHolder(Box::new(|_| {})));
    assert_eq!(
        registry.debug_string(),
        "SyncRegistry { handler_count: 2, has_panic_callback: true, .. }"
    );
}

#[test]
fn panic_info_debug_string_shows_id_and_message() {
    let payload: Box<dyn Any + Send> = Box::new("it \"broke\"");
    let info = PanicInfo::new(HandlerId::from_raw(7), PanicPayload(&*payload));
    assert_eq!(
        info.debug_string(),
        "PanicInfo { handler_id: HandlerId(7), message: Some(\"it \\\"broke\\\"\") }"
    );
    let opaque: Box<dyn Any + Send> = Box::new(5_i32);
    let info = PanicInfo::new(HandlerId::from_raw(12), PanicPayload(&*opaque));
    assert_eq!(info.debug_string(), "PanicInfo { handler_id: HandlerId(12), message: None }");
}

#[test]
fn panicked_handlers_are_the_ids_whose_run_panicked_in_order() {
    let ids: Vec<HandlerId> = (1..=5).map(HandlerId::from_raw).collect();
    let outcomes = vec![
        Outcome::Panicked,
        Outcome::Completed,
        Outcome::Panicked,
        Outcome::Completed,
        Outcome::Panicked,
    ];
    assert_eq!(
        panicked_handlers(&ids, &outcomes),
        vec![HandlerId::from_raw(1), HandlerId::from_raw(3), HandlerId::from_raw(5)]
    );
    assert_eq!(panicked_handlers(&ids, &vec![Outcome::Completed; 5]), Vec::<HandlerId>::new());
    assert_eq!(panicked_handlers(&Vec::new(), &Vec::new()), Vec::<HandlerId>::new());
}
