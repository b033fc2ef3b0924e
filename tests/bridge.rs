use many_ledger_core::bridge::{Bridge, BridgeError, Delivery, Phase};

fn ready() -> Bridge {
    let mut b = Bridge::new();
    b.init(4, vec![0xaa]).unwrap();
    b
}

#[test]
fn full_block_lifecycle() {
    let mut b = ready();
    assert_eq!(b.check_tx(), Ok(()));
    assert_eq!(b.begin_block(5), Ok(()));
    assert_eq!(b.current_phase(), Phase::InBlock(5));
    assert_eq!(b.deliver_tx(Delivery::Executed), Ok(()));
    assert_eq!(b.deliver_tx(Delivery::Rejected), Ok(()));
    assert_eq!(b.end_block(), Ok(()));
    assert_eq!(b.commit(vec![0xbb], true), Ok(vec![0xbb]));
    assert_eq!(b.info(), (5, vec![0xbb]));
    assert_eq!(b.current_phase(), Phase::Ready);
}

#[test]
fn block_must_follow_last_height() {
    let mut b = ready();
    assert_eq!(b.begin_block(6), Err(BridgeError::WrongHeight));
    assert_eq!(b.begin_block(4), Err(BridgeError::WrongHeight));
    assert_eq!(b.current_phase(), Phase::Ready);
}

#[test]
fn calls_out_of_order_are_refused() {
    let mut b = Bridge::new();
    assert_eq!(b.check_tx(), Err(BridgeError::OutOfOrder));
    assert_eq!(b.begin_block(1), Err(BridgeError::OutOfOrder));
    b.init(0, vec![]).unwrap();
    assert_eq!(b.init(0, vec![]), Err(BridgeError::OutOfOrder));
    assert_eq!(b.deliver_tx(Delivery::Executed), Err(BridgeError::OutOfOrder));
    assert_eq!(b.end_block(), Err(BridgeError::OutOfOrder));
    assert_eq!(b.commit(vec![], true), Err(BridgeError::OutOfOrder));
}

#[test]
fn unreachable_backend_is_fatal() {
    let mut b = ready();
    b.begin_block(5).unwrap();
    let e = b.deliver_tx(Delivery::Unreachable).unwrap_err();
    assert_eq!(e, BridgeError::BackendUnreachable);
    assert!(e.is_fatal());
}

#[test]
fn commit_without_flush_is_not_acknowledged() {
    let mut b = ready();
    b.begin_block(5).unwrap();
    b.end_block().unwrap();
    let e = b.commit(vec![0xcc], false).unwrap_err();
    assert_eq!(e, BridgeError::FlushFailed);
    assert!(e.is_fatal());
    assert!(!BridgeError::WrongHeight.is_fatal());
    assert_eq!(b.current_phase(), Phase::Ended(5));
    assert_eq!(b.info(), (4, vec![0xaa]));
}
