//! Ledger and wallet core of a proof-of-stake payment chain: coin arithmetic,
//! address and transaction records and their binary encoding, Merkle
//! inclusion proofs, the versioned account store, the node's query
//! dispatcher, and the wallet: its passphrase-checked store, M-of-N transfer
//! addresses, input selection and multi-signature sessions.
use vstd::prelude::*;

pub mod coin;
pub mod error;
pub mod types;
pub mod balance;
pub mod hash;
pub mod merkle;
pub mod codec;
pub mod encoding;
pub mod keys;
pub mod or_tree;
pub mod wallet;
pub mod index;
pub mod transaction;
pub mod client;
pub mod storage;
pub mod query;
pub mod handler;
pub mod command;
pub mod schnorr;
pub mod multisig;
pub mod witness;
pub mod trie;
