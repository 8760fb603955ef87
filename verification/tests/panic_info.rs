use std::any::Any;
use std::sync::{Arc, Mutex};

use registry_io::panic::PanicCallbackHolder;
use registry_io::{HandlerId, PanicInfo, PanicPayload};

#[derive(Debug, PartialEq, Eq)]
struct MyErr(i32);

#[test]
fn message_reads_static_str_payloads() {
    let payload: Box<dyn Any + Send> = Box::new("boom");
    let info = PanicInfo::new(HandlerId::from_raw(3), PanicPayload(&*payload));
    assert_eq!(info.message(), Some("boom"));
    assert_eq!(info.handler_id(), HandlerId::from_raw(3));
}

#[test]
fn message_reads_string_payloads() {
    let payload: Box<dyn Any + Send> = Box::new(format!("formatted {}", 42));
    let info = PanicInfo::new(HandlerId::from_raw(1), PanicPayload(&*payload));
    assert_eq!(info.message(), Some("formatted 42"));
}

#[test]
fn message_is_none_for_custom_payloads_which_payload_downcasts() {
    let payload: Box<dyn Any + Send> = Box::new(MyErr(99));
    let info = PanicInfo::new(HandlerId::from_raw(1), PanicPayload(&*payload));
    assert_eq!(info.message(), None);
    assert_eq!(info.payload().0.downcast_ref::<MyErr>(), Some(&MyErr(99)));
    assert_eq!(info.payload().0.downcast_ref::<String>(), None);
}

#[test]
fn callback_holder_calls_the_callback() {
    let seen: Arc<Mutex<Vec<(u64, String)>>> = Arc::new(Mutex::new(Vec::new()));
    let sink = Arc::clone(&seen);
    let holder = PanicCallbackHolder(Box::new(move |info: &PanicInfo<'_>| {
        sink.lock()
            .unwrap()
            .push((info.handler_id().as_u64(), info.message().unwrap_or("<opaque>").to_owned()));
    }));
    let payload: Box<dyn Any + Send> = Box::new("first failure");
    (holder.0)(&PanicInfo::new(HandlerId::from_raw(5), PanicPayload(&*payload)));
    let other: Box<dyn Any + Send> = Box::new(7_u8);
    (holder.0)(&PanicInfo::new(HandlerId::from_raw(6), PanicPayload(&*other)));
    assert_eq!(
        seen.lock().unwrap().as_slice(),
        &[(5, "first failure".to_owned()), (6, "<opaque>".to_owned())]
    );
}

#[test]
fn select_message_prefers_the_literal_then_the_owned_text() {
    let literal: &'static str = "lit";
    let owned = String::from("owned");
    assert_eq!(PanicInfo::select_message(Some(&literal), Some(&owned)), Some("lit"));
    assert_eq!(PanicInfo::select_message(None, Some(&owned)), Some("owned"));
    assert_eq!(PanicInfo::select_message(None, None), None);
}
