use many_ledger_core::address::Address;
use many_ledger_core::admission::{Access, AdmissionError, AllowList};

fn list() -> AllowList {
    AllowList::new(vec![Address::from_bytes(vec![1, 1]), Address::from_bytes(vec![1, 2])])
}

fn put(v: u32) -> u32 {
    v * 3
}

#[test]
fn unlisted_mutating_call_is_denied() {
    let r = list().guarded_call(Access::Mutating, &Address::from_bytes(vec![1, 3]), || put(4));
    assert_eq!(r, Err(AdmissionError::PermissionDenied));
}

#[test]
fn listed_mutating_call_matches_unwrapped() {
    let r = list().guarded_call(Access::Mutating, &Address::from_bytes(vec![1, 2]), || put(4));
    assert_eq!(r, Ok(put(4)));
}

#[test]
fn read_only_call_passes_for_anyone() {
    let r = list().guarded_call(Access::ReadOnly, &Address::anonymous(), || put(5));
    assert_eq!(r, Ok(15));
    assert_eq!(list().check(Access::ReadOnly, &Address::from_bytes(vec![9])), Ok(()));
}

#[test]
fn denied_call_is_not_run() {
    let mut ran = false;
    let r = list().guarded_call(Access::Mutating, &Address::anonymous(), || {
        ran = true;
    });
    assert!(r.is_err());
    assert!(!ran);
}
