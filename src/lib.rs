//! A small hash-chained ledger: blocks sealed by proof of work and a chain
//! persisted in a key-value store, walked backwards from its tip.

pub mod block;
pub mod blockchain;
pub mod digest;
pub mod encoding;
pub mod error;
