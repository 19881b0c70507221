//! A single-node ledger: blocks linked by hash, sealed by proof of work, and
//! holding signed transfer records.
//!
//! Every function here carries a contract that Verus proves. The contracts
//! speak of the views of the data types ([`transaction::TransactionView`],
//! [`block::BlockView`], [`chain::ChainView`]) and of bytes: the canonical
//! encoding that is hashed ([`codec`]), hexadecimal text ([`hexcode`]), the
//! lines of the log ([`journal`]), and the results of SHA-256 and Ed25519
//! ([`hashing`], [`signing`]), which are called, not proved.
//!
//! The library reads no clock but through [`clock`], and touches no file:
//! what is to be stored is handed to the caller, and what was read is taken
//! from the caller.

pub mod block;
pub mod chain;
pub mod clock;
pub mod codec;
pub mod hashing;
pub mod hexcode;
pub mod journal;
pub mod signing;
pub mod transaction;
