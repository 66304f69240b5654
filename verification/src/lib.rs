//! A single-node ledger: pending transfers are batched into blocks, each block
//! commits to its transactions through a Merkle root, and is sealed by a
//! proof-of-work search over the SHA-256 hash of its header.

pub mod block;
pub mod chain;
pub mod digest;
pub mod hex;
pub mod merkle;
pub mod pow;
pub mod text;

pub use block::{Block, Blockheader, Transaction};
pub use chain::{Chain, ChainError};
pub use digest::Canonical;
