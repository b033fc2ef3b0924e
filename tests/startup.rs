use many_ledger_core::startup::uses_initial_state;

#[test]
fn initial_state_only_seeds_an_empty_store() {
    assert!(uses_initial_state(true, true, true));
    assert!(uses_initial_state(true, false, false));
    assert!(!uses_initial_state(true, false, true));
    assert!(!uses_initial_state(false, true, false));
    assert!(!uses_initial_state(false, false, false));
}
