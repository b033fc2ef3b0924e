use vstd::prelude::*;
use crate::admission::AdmissionError;
use crate::async_ops::AsyncError;
use crate::bridge::BridgeError;
use crate::client::SendError;
use crate::ledger::LedgerError;
use crate::multisig::MultisigError;
use crate::symbols::SymbolError;

verus! {

/// The classes of failure, which decide how a failure travels: typed
/// failures go back to the caller, a timeout may be retried by the client,
/// and a fatal failure stops the process.
#[derive(Clone, Copy, Debug, PartialEq, Eq, Structural)]
pub enum ErrorKind {
    /// A malformed envelope or a call out of protocol order.
    Protocol,
    PermissionDenied,
    /// Bad arguments: an unknown symbol, too small a balance, a bad threshold.
    Validation,
    /// A change that conflicts with what already happened.
    StateConflict,
    /// The client's own deadline passed.
    Timeout,
    /// The process cannot go on without risking divergence between replicas.
    Fatal,
}

impl ErrorKind {
    /// Only a client-side timeout may be retried.
    pub fn retryable(&self) -> (r: bool)
        ensures
            r == (*self == ErrorKind::Timeout),
    {
        match self {
            ErrorKind::Timeout => true,
            _ => false,
        }
    }

    /// Only a fatal failure stops the process.
    pub fn terminates(&self) -> (r: bool)
        ensures
            r == (*self == ErrorKind::Fatal),
    {
        match self {
            ErrorKind::Fatal => true,
            _ => false,
        }
    }
}

pub fn ledger_error_kind(e: &LedgerError) -> (r: ErrorKind)
    ensures
        r == ErrorKind::Validation,
{
    match e {
        LedgerError::InsufficientFunds => ErrorKind::Validation,
    }
}

pub fn symbol_error_kind(e: &SymbolError) -> (r: ErrorKind)
    ensures
        r == ErrorKind::Validation,
{
    match e {
        SymbolError::Unresolved(_) => ErrorKind::Validation,
    }
}

pub fn send_error_kind(e: &SendError) -> (r: ErrorKind)
    ensures
        r == ErrorKind::Validation,
{
    match e {
        SendError::Symbol(_) => ErrorKind::Validation,
        SendError::InvalidIdentity => ErrorKind::Validation,
    }
}

pub fn admission_error_kind(e: &AdmissionError) -> (r: ErrorKind)
    ensures
        r == ErrorKind::PermissionDenied,
{
    match e {
        AdmissionError::PermissionDenied => ErrorKind::PermissionDenied,
    }
}

pub fn async_error_kind(e: &AsyncError) -> (r: ErrorKind)
    ensures
        *e == AsyncError::UnknownToken ==> r == ErrorKind::Validation,
        *e != AsyncError::UnknownToken ==> r == ErrorKind::StateConflict,
{
    match e {
        AsyncError::UnknownToken => ErrorKind::Validation,
        _ => ErrorKind::StateConflict,
    }
}

pub open spec fn multisig_kind(e: MultisigError) -> ErrorKind {
    match e {
        MultisigError::AlreadyExpired => ErrorKind::StateConflict,
        MultisigError::AlreadyExecuted => ErrorKind::StateConflict,
        MultisigError::DuplicateApproval => ErrorKind::StateConflict,
        MultisigError::NotProposer => ErrorKind::PermissionDenied,
        _ => ErrorKind::Validation,
    }
}

pub fn multisig_error_kind(e: &MultisigError) -> (r: ErrorKind)
    ensures
        r == multisig_kind(*e),
{
    match e {
        MultisigError::AlreadyExpired => ErrorKind::StateConflict,
        MultisigError::AlreadyExecuted => ErrorKind::StateConflict,
        MultisigError::DuplicateApproval => ErrorKind::StateConflict,
        MultisigError::NotProposer => ErrorKind::PermissionDenied,
        _ => ErrorKind::Validation,
    }
}

pub fn bridge_error_kind(e: &BridgeError) -> (r: ErrorKind)
    ensures
        e.fatal() ==> r == ErrorKind::Fatal,
        !e.fatal() ==> r == ErrorKind::Protocol,
{
    if e.is_fatal() {
        ErrorKind::Fatal
    } else {
        ErrorKind::Protocol
    }
}

} // verus!
