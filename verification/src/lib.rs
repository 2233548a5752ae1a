//! A minimal peer-to-peer cryptocurrency node: an append-only chain of
//! linked blocks, a fee-ordered mempool with signature-checked admission,
//! per-address balances, a difficulty-controlled proof-of-work miner, a
//! peer directory, and the JSON wire codec that carries all of it.
//!
//! Money is counted in integral hundredths of a coin, and all text is
//! carried as bytes.

pub mod balances;
pub mod block;
pub mod blockchain;
pub mod bytes;
pub mod clock;
pub mod codec;
pub mod crypto;
pub mod digest;
pub mod ledger;
pub mod lits;
pub mod message;
pub mod numfmt;
pub mod peers;
pub mod server;
pub mod transaction;
pub mod wallet;
