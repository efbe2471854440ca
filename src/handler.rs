//! Observers of the chain: what the index calls for each block header and
//! for each transaction it learns of.
use vstd::prelude::*;
use crate::balance::BlockTime;
use crate::error::Error;
use crate::transaction::Transaction;
use crate::types::{PrivateKey, PublicKey, TxId, H256};

verus! {

/// A block header, as far as the wallet reads it.
#[derive(Debug)]
pub struct BlockHeader {
    pub app_hash: H256,
    pub block_height: u64,
    pub block_time: BlockTime,
    pub transaction_ids: Vec<TxId>,
}

/// Handles the stream of transactions of the chain.
pub trait TransactionHandler {
    /// Handles one transaction, of the block at `block_height`.
    fn on_next(&self, transaction: Transaction, block_height: u64, block_time: BlockTime) -> Result<(), Error>;
}

/// Handles the stream of block headers of the chain.
pub trait BlockHandler {
    /// Handles one block header, with the wallet's view key pair.
    fn on_next(&self, block_header: BlockHeader, view_key: &PublicKey, private_key: &PrivateKey) -> Result<(), Error>;
}

} // verus!
