//! Commitment/nullifier core of a shielded-transaction ledger prototype.
//!
//! The crate derives spend addresses and serial numbers (nullifiers) from
//! secret field elements, commits a transaction's fields into a single
//! binding digest through a binary Merkle accumulator, and keeps a ledger
//! that rejects any transaction whose nullifier has been seen before.
//! Hashing is delegated to an outside crate behind a small trusted
//! boundary; everything built on top of it — field arithmetic, the
//! accumulator, the transaction model, the ledger — is verified.

pub mod circuits;
pub mod coin;
pub mod errors;
pub mod field;
pub mod keys;
pub mod ledger;
pub mod merkle;
pub mod oracle;
pub mod spend_key;
pub mod transaction;
pub mod validate;
