use many_ledger_core::address::Address;
use many_ledger_core::multisig::{Coordinator, MultisigError};

fn a(b: u8) -> Address {
    Address::from_bytes(vec![1, b])
}

fn open(c: &mut Coordinator, threshold: u64) -> u64 {
    c.submit(a(1), "ledger.send".to_string(), vec![0xa0], threshold, 1_000).unwrap()
}

#[test]
fn threshold_below_one_is_refused() {
    let mut c = Coordinator::new();
    let r = c.submit(a(1), "ledger.send".to_string(), vec![], 0, 1_000);
    assert_eq!(r, Err(MultisigError::InvalidThreshold));
}

#[test]
fn second_approval_by_same_address_counts_once() {
    let mut c = Coordinator::new();
    let id = open(&mut c, 2);
    assert_eq!(c.approve(id, a(2), vec![1], 10), Ok(()));
    assert_eq!(c.approval_count(id), Some(1));
    assert_eq!(c.approve(id, a(2), vec![2], 11), Err(MultisigError::DuplicateApproval));
    assert_eq!(c.approval_count(id), Some(1));
}

#[test]
fn proposer_approval_is_not_implied() {
    let mut c = Coordinator::new();
    let id = open(&mut c, 1);
    assert_eq!(c.approval_count(id), Some(0));
    assert!(matches!(c.execute(id, 5), Err(MultisigError::InsufficientApprovals)));
}

#[test]
fn many_executors_one_success() {
    let mut c = Coordinator::new();
    let id = open(&mut c, 2);
    c.approve(id, a(2), vec![], 1).unwrap();
    c.approve(id, a(3), vec![], 2).unwrap();
    let mut ok = 0;
    let mut already = 0;
    for _ in 0..5 {
        match c.execute(id, 3) {
            Ok(x) => {
                ok += 1;
                assert_eq!(x.proposer.bytes, vec![1, 1]);
                assert_eq!(x.method, "ledger.send");
                assert_eq!(x.args, vec![0xa0]);
            }
            Err(MultisigError::AlreadyExecuted) => already += 1,
            Err(e) => panic!("unexpected {:?}", e),
        }
    }
    assert_eq!(ok, 1);
    assert_eq!(already, 4);
}

#[test]
fn expiry_refuses_approval_and_execution() {
    let mut c = Coordinator::new();
    let id = open(&mut c, 1);
    assert_eq!(c.approve(id, a(2), vec![], 1_000), Err(MultisigError::AlreadyExpired));
    c.approve(id, a(2), vec![], 999).unwrap();
    assert!(matches!(c.execute(id, 1_000), Err(MultisigError::AlreadyExpired)));
}

#[test]
fn unknown_transaction() {
    let mut c = Coordinator::new();
    assert_eq!(c.approve(7, a(2), vec![], 1), Err(MultisigError::UnknownTransaction));
    assert!(matches!(c.execute(7, 1), Err(MultisigError::UnknownTransaction)));
    assert_eq!(c.withdraw(7, &a(1)), Err(MultisigError::UnknownTransaction));
}

#[test]
fn approval_after_execution_is_refused() {
    let mut c = Coordinator::new();
    let id = open(&mut c, 1);
    c.approve(id, a(2), vec![], 1).unwrap();
    assert!(c.execute(id, 2).is_ok());
    assert_eq!(c.approve(id, a(3), vec![], 3), Err(MultisigError::AlreadyExecuted));
    assert_eq!(c.withdraw(id, &a(1)), Err(MultisigError::AlreadyExecuted));
}

#[test]
fn only_proposer_withdraws() {
    let mut c = Coordinator::new();
    let id = open(&mut c, 1);
    assert_eq!(c.withdraw(id, &a(2)), Err(MultisigError::NotProposer));
    assert_eq!(c.withdraw(id, &a(1)), Ok(()));
    assert_eq!(c.approval_count(id), None);
}

#[test]
fn sweep_reclaims_expired() {
    let mut c = Coordinator::new();
    let first = open(&mut c, 1);
    let second = c.submit(a(1), "ledger.send".to_string(), vec![], 1, 5_000).unwrap();
    assert_ne!(first, second);
    c.sweep(2_000);
    assert_eq!(c.approval_count(first), None);
    assert_eq!(c.approval_count(second), Some(0));
}
