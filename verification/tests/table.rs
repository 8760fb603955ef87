use std::sync::Arc;

use registry_io::table::{HandlerTable, TableUpdate};
use registry_io::HandlerId;

fn keys(t: &HandlerTable<&'static str>) -> Vec<(u64, i32, &'static str)> {
    (0..t.len())
        .map(|i| {
            let e = t.entry(i);
            (e.id().as_u64(), e.priority(), **e.handler())
        })
        .collect()
}

#[test]
fn new_table_is_empty_and_starts_at_one() {
    let t: HandlerTable<&'static str> = HandlerTable::new();
    assert!(t.is_empty());
    assert_eq!(t.len(), 0);
    assert_eq!(t.upcoming_id().as_u64(), 1);
    assert!(!t.is_exhausted());
    let c: HandlerTable<&'static str> = HandlerTable::with_capacity(16);
    assert!(c.is_empty());
    assert_eq!(c.upcoming_id().as_u64(), 1);
}

#[test]
fn register_places_by_priority_then_age() {
    let mut t = HandlerTable::new();
    assert_eq!(t.register(0, Arc::new("a")).as_u64(), 1);
    assert_eq!(t.register(10, Arc::new("b")).as_u64(), 2);
    assert_eq!(t.register(0, Arc::new("c")).as_u64(), 3);
    assert_eq!(t.register(-5, Arc::new("d")).as_u64(), 4);
    assert_eq!(t.register(10, Arc::new("e")).as_u64(), 5);
    assert_eq!(
        keys(&t),
        vec![(2, 10, "b"), (5, 10, "e"), (1, 0, "a"), (3, 0, "c"), (4, -5, "d")]
    );
    assert_eq!(t.upcoming_id().as_u64(), 6);
}

#[test]
fn slot_for_counts_entries_of_at_least_that_priority() {
    let mut t = HandlerTable::new();
    for p in [5, 5, 0, -3] {
        let _ = t.register(p, Arc::new("x"));
    }
    assert_eq!(t.slot_for(6), 0);
    assert_eq!(t.slot_for(5), 2);
    assert_eq!(t.slot_for(1), 2);
    assert_eq!(t.slot_for(0), 3);
    assert_eq!(t.slot_for(-3), 4);
    assert_eq!(t.slot_for(i32::MIN), 4);
}

#[test]
fn unregister_removes_only_that_id_and_keeps_order() {
    let mut t = HandlerTable::new();
    let a = t.register(10, Arc::new("a"));
    let _b = t.register(0, Arc::new("b"));
    let _c = t.register(-10, Arc::new("c"));
    assert!(t.contains(a));
    assert!(t.unregister(a));
    assert!(!t.contains(a));
    assert_eq!(keys(&t), vec![(2, 0, "b"), (3, -10, "c")]);
    assert!(!t.unregister(a));
    assert_eq!(keys(&t), vec![(2, 0, "b"), (3, -10, "c")]);
    assert!(!t.unregister(HandlerId::from_raw(99)));
}

#[test]
fn unregister_after_register_restores_the_table() {
    let mut t = HandlerTable::new();
    let _ = t.register(3, Arc::new("a"));
    let _ = t.register(-1, Arc::new("b"));
    let before = keys(&t);
    let id = t.register(1, Arc::new("new"));
    assert!(t.unregister(id));
    assert_eq!(keys(&t), before);
}

#[test]
fn clear_keeps_the_id_counter() {
    let mut t = HandlerTable::new();
    let _ = t.register(0, Arc::new("a"));
    let _ = t.register(0, Arc::new("b"));
    t.clear();
    assert!(t.is_empty());
    assert_eq!(t.register(0, Arc::new("c")).as_u64(), 3);
}

#[test]
fn duplicate_shares_handlers_and_counter() {
    let mut t = HandlerTable::new();
    let _ = t.register(1, Arc::new("a"));
    let _ = t.register(2, Arc::new("b"));
    let d = t.duplicate();
    assert_eq!(keys(&d), keys(&t));
    assert_eq!(d.upcoming_id(), t.upcoming_id());
    assert!(Arc::ptr_eq(d.entry(0).handler(), t.entry(0).handler()));
}

#[test]
fn updated_applies_each_kind_of_change() {
    let mut t = HandlerTable::new();
    let a = t.register(0, Arc::new("a"));
    let current = Arc::new(t);

    let reg = HandlerTable::updated(&current, &TableUpdate::Register { priority: 7, handler: Arc::new("z") });
    assert_eq!(keys(&reg), vec![(2, 7, "z"), (1, 0, "a")]);
    assert_eq!(keys(&current), vec![(1, 0, "a")]);

    let unreg = HandlerTable::updated(&reg, &TableUpdate::Unregister(a));
    assert_eq!(keys(&unreg), vec![(2, 7, "z")]);
    assert_eq!(unreg.upcoming_id().as_u64(), 3);

    let cleared = HandlerTable::updated(&unreg, &TableUpdate::Clear);
    assert!(cleared.is_empty());
    assert_eq!(cleared.upcoming_id().as_u64(), 3);
}
