use registry_io::join::JoinState;

#[test]
fn join_state_starts_with_everything_pending() {
    let state = JoinState::new(3);
    assert_eq!(state.pending(), vec![0, 1, 2]);
    assert_eq!(state.remaining_count(), 3);
    assert!(!state.is_complete());
}

#[test]
fn join_state_records_finished_futures_in_any_order() {
    let mut state = JoinState::new(4);
    state.record_ready(2);
    assert_eq!(state.pending(), vec![0, 1, 3]);
    assert_eq!(state.remaining_count(), 3);
    state.record_ready(0);
    state.record_ready(3);
    assert_eq!(state.pending(), vec![1]);
    assert!(!state.is_complete());
    state.record_ready(1);
    assert_eq!(state.pending(), Vec::<usize>::new());
    assert_eq!(state.remaining_count(), 0);
    assert!(state.is_complete());
}

#[test]
fn join_state_over_nothing_is_complete() {
    let state = JoinState::new(0);
    assert!(state.pending().is_empty());
    assert!(state.is_complete());
}
