//! Consensus-aware RPC core of a signed-RPC ledger: token accounts, async
//! result polling, multi-party transactions, write admission and the
//! lifecycle of a block-execution bridge.

pub mod address;
pub mod amount;
pub mod poll;
pub mod symbols;
pub mod ledger;
pub mod client;
pub mod async_ops;
pub mod multisig;
pub mod admission;
pub mod error;
pub mod retry;
pub mod bridge;
pub mod registry;
pub mod startup;
