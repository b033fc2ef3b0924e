use many_ledger_core::async_ops::{AsyncError, AsyncStatus, AsyncTable};

#[test]
fn done_status_is_stable() {
    let mut t = AsyncTable::new(100);
    assert_eq!(t.defer(vec![1], 10), Ok(()));
    assert!(matches!(t.status(&vec![1]), AsyncStatus::Pending));
    assert_eq!(t.complete(&vec![1], vec![42]), Ok(()));
    assert!(matches!(t.status(&vec![1]), AsyncStatus::Done(p) if p == vec![42]));
    assert!(matches!(t.status(&vec![1]), AsyncStatus::Done(p) if p == vec![42]));
    assert_eq!(t.complete(&vec![1], vec![43]), Err(AsyncError::AlreadySettled));
    assert!(matches!(t.status(&vec![1]), AsyncStatus::Done(p) if p == vec![42]));
}

#[test]
fn expired_never_becomes_done() {
    let mut t = AsyncTable::new(100);
    t.defer(vec![2], 0).unwrap();
    t.sweep(99);
    assert!(matches!(t.status(&vec![2]), AsyncStatus::Pending));
    t.sweep(100);
    assert!(matches!(t.status(&vec![2]), AsyncStatus::Expired));
    assert_eq!(t.complete(&vec![2], vec![1]), Err(AsyncError::AlreadySettled));
    assert!(matches!(t.status(&vec![2]), AsyncStatus::Expired));
}

#[test]
fn done_operation_expires_after_retention() {
    let mut t = AsyncTable::new(5);
    t.defer(vec![3], 1).unwrap();
    t.defer(vec![4], 4).unwrap();
    t.complete(&vec![3], vec![7]).unwrap();
    t.sweep(6);
    assert!(matches!(t.status(&vec![3]), AsyncStatus::Expired));
    assert!(matches!(t.status(&vec![4]), AsyncStatus::Pending));
}

#[test]
fn unknown_and_duplicate_tokens() {
    let mut t = AsyncTable::new(5);
    assert!(matches!(t.status(&vec![9]), AsyncStatus::Unknown));
    assert_eq!(t.complete(&vec![9], vec![]), Err(AsyncError::UnknownToken));
    t.defer(vec![9], 0).unwrap();
    assert_eq!(t.defer(vec![9], 1), Err(AsyncError::DuplicateToken));
}
