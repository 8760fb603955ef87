use registry_io::{HandlerId, HandlerIdGenerator};

#[test]
fn debug_format_includes_value() {
    let id = HandlerId::from_raw(42);
    assert_eq!(format!("{id:?}"), "HandlerId(42)");
}

#[test]
fn display_format_is_bare_number() {
    let id = HandlerId::from_raw(42);
    assert_eq!(id.to_string(), "42");
}

#[test]
fn ids_are_copy_eq_hash() {
    let a = HandlerId::from_raw(7);
    let b = a;
    assert_eq!(a, b);
    let mut set = std::collections::HashSet::new();
    let _ = set.insert(a);
    assert!(set.contains(&b));
}

#[test]
fn generator_produces_unique_ascending_ids() {
    let mut generator = HandlerIdGenerator::new();
    let a = generator.next();
    let b = generator.next();
    let c = generator.next();
    assert_eq!(a.as_u64(), 1);
    assert_eq!(b.as_u64(), 2);
    assert_eq!(c.as_u64(), 3);
    assert_ne!(a, b);
    assert_ne!(b, c);
}

#[test]
fn to_string_writes_zero_and_extremes_in_decimal() {
    assert_eq!(HandlerId::from_raw(0).to_string(), "0");
    assert_eq!(HandlerId::from_raw(9).to_string(), "9");
    assert_eq!(HandlerId::from_raw(10).to_string(), "10");
    assert_eq!(HandlerId::from_raw(1_000_007).to_string(), "1000007");
    assert_eq!(HandlerId::from_raw(u64::MAX).to_string(), "18446744073709551615");
}

#[test]
fn as_u64_returns_the_raw_value() {
    assert_eq!(HandlerId::from_raw(123).as_u64(), 123);
    assert_eq!(HandlerId::from_raw(u64::MAX).as_u64(), u64::MAX);
}

#[test]
fn generator_peek_does_not_advance() {
    let mut generator = HandlerIdGenerator::new();
    assert_eq!(generator.peek().as_u64(), 1);
    assert_eq!(generator.peek().as_u64(), 1);
    assert!(!generator.is_exhausted());
    let first = generator.next();
    assert_eq!(first.as_u64(), 1);
    assert_eq!(generator.peek().as_u64(), 2);
}
