use many_ledger_core::admission::AdmissionError;
use many_ledger_core::async_ops::AsyncError;
use many_ledger_core::bridge::BridgeError;
use many_ledger_core::error::{
    admission_error_kind, async_error_kind, bridge_error_kind, ledger_error_kind, multisig_error_kind, ErrorKind,
};
use many_ledger_core::ledger::LedgerError;
use many_ledger_core::multisig::MultisigError;

#[test]
fn errors_are_classified() {
    assert_eq!(ledger_error_kind(&LedgerError::InsufficientFunds), ErrorKind::Validation);
    assert_eq!(admission_error_kind(&AdmissionError::PermissionDenied), ErrorKind::PermissionDenied);
    assert_eq!(async_error_kind(&AsyncError::AlreadySettled), ErrorKind::StateConflict);
    assert_eq!(async_error_kind(&AsyncError::UnknownToken), ErrorKind::Validation);
    assert_eq!(multisig_error_kind(&MultisigError::DuplicateApproval), ErrorKind::StateConflict);
    assert_eq!(multisig_error_kind(&MultisigError::InvalidThreshold), ErrorKind::Validation);
    assert_eq!(multisig_error_kind(&MultisigError::NotProposer), ErrorKind::PermissionDenied);
    assert_eq!(bridge_error_kind(&BridgeError::FlushFailed), ErrorKind::Fatal);
    assert_eq!(bridge_error_kind(&BridgeError::WrongHeight), ErrorKind::Protocol);
}

#[test]
fn only_timeouts_retry_and_only_fatal_stops() {
    assert!(ErrorKind::Timeout.retryable());
    assert!(!ErrorKind::Fatal.retryable());
    assert!(ErrorKind::Fatal.terminates());
    assert!(!ErrorKind::Validation.terminates());
}
