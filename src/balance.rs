//! Balance changes caused by transactions, as the index reports them.
use vstd::prelude::*;
use crate::coin::{Coin, CoinError};
use crate::error::{Error, ErrorKind};
use crate::types::{ExtendedAddr, TxId};

verus! {

/// The time of a block: seconds since the Unix epoch and the nanoseconds
/// within that second.
#[derive(Clone, Copy, Debug, PartialEq, Eq)]
pub struct BlockTime {
    pub seconds: i64,
    pub nanos: u32,
}

/// A change in the balance of an address.
#[derive(Clone, Copy, Debug, PartialEq, Eq)]
pub enum BalanceChange {
    Incoming(Coin),
    Outgoing(Coin),
}

/// A balance change, with the transaction and the block that caused it.
#[derive(Clone, Copy, Debug, PartialEq, Eq)]
pub struct TransactionChange {
    pub transaction_id: TxId,
    pub address: ExtendedAddr,
    pub balance_change: BalanceChange,
    pub block_height: u64,
    pub block_time: BlockTime,
}

/// The balance after applying `change` to `balance`, or the error kind
/// when it leaves `[0, MAX_COIN]`.
pub open spec fn applied(balance: nat, change: BalanceChange) -> Result<nat, ErrorKind> {
    match change {
        BalanceChange::Incoming(c) => if balance + c@ <= crate::coin::MAX_COIN {
            Ok(balance + c@)
        } else {
            Err(ErrorKind::BalanceAdditionError)
        },
        BalanceChange::Outgoing(c) => if c@ <= balance {
            Ok((balance - c@) as nat)
        } else {
            Err(ErrorKind::InsufficientBalance)
        },
    }
}

impl Coin {
    /// Applies a balance change: an incoming amount is added, an outgoing one
    /// subtracted. A sum above `MAX_COIN` fails with `BalanceAdditionError`,
    /// a difference below zero with `InsufficientBalance`.
    pub fn apply_balance_change(self, change: &BalanceChange) -> (r: Result<Coin, Error>)
        ensures
            match applied(self@, *change) {
                Ok(v) => r matches Ok(c) && c@ == v,
                Err(k) => r matches Err(e) && e.kind == k,
            },
    {
        match change {
            BalanceChange::Incoming(c) => match self.checked_add(*c) {
                Ok(s) => Ok(s),
                Err(_) => Err(Error::new(ErrorKind::BalanceAdditionError)),
            },
            BalanceChange::Outgoing(c) => match self.checked_sub(*c) {
                Ok(s) => Ok(s),
                Err(_) => Err(Error::new(ErrorKind::InsufficientBalance)),
            },
        }
    }

    /// Applies the balance change that a transaction caused.
    pub fn add_change(self, change: &TransactionChange) -> (r: Result<Coin, Error>)
        ensures
            match applied(self@, change.balance_change) {
                Ok(v) => r matches Ok(c) && c@ == v,
                Err(k) => r matches Err(e) && e.kind == k,
            },
    {
        self.apply_balance_change(&change.balance_change)
    }
}

} // verus!
