//! What the transaction index reports of an address, and the aggregates
//! that a wallet draws from those reports.
use vstd::prelude::*;
use crate::balance::TransactionChange;
use crate::coin::{sum_coins, total, Coin};
use crate::error::{Error, ErrorKind};
use crate::types::{ExtendedAddr, TxOut, TxoPointer};

verus! {

/// What the index knows of one address.
#[derive(Debug)]
pub struct AddressDetails {
    pub balance: Coin,
    pub transaction_history: Vec<TransactionChange>,
    pub unspent_transactions: Vec<(TxoPointer, TxOut)>,
}

impl AddressDetails {
    /// No balance, no history, nothing unspent.
    pub fn empty() -> (r: AddressDetails)
        ensures
            r.balance@ == 0,
            r.transaction_history@.len() == 0,
            r.unspent_transactions@.len() == 0,
    {
        AddressDetails {
            balance: Coin::zero(),
            transaction_history: Vec::new(),
            unspent_transactions: Vec::new(),
        }
    }
}

/// The transaction index: balances, histories and outputs by address, and
/// the channel through which transactions are broadcast.
pub trait Index {
    /// What the index knows of `address`.
    fn address_details(&self, address: &ExtendedAddr) -> Result<AddressDetails, Error>;

    /// The output that `input` points to.
    fn output(&self, input: &TxoPointer) -> Result<TxOut, Error>;

    /// Hands an encoded transaction over for broadcast.
    fn broadcast_transaction(&self, transaction: &[u8]) -> Result<(), Error>;
}

/// The index of a wallet client that was given none: every call is refused.
#[derive(Debug, Clone, Copy, Default)]
pub struct UnauthorizedIndex;

impl Index for UnauthorizedIndex {
    fn address_details(&self, address: &ExtendedAddr) -> Result<AddressDetails, Error> {
        Err(Error::new(ErrorKind::PermissionDenied))
    }

    fn output(&self, input: &TxoPointer) -> Result<TxOut, Error> {
        Err(Error::new(ErrorKind::PermissionDenied))
    }

    fn broadcast_transaction(&self, transaction: &[u8]) -> Result<(), Error> {
        Err(Error::new(ErrorKind::PermissionDenied))
    }
}

/// The balances of the reports.
pub open spec fn balances_of(details: Seq<AddressDetails>) -> Seq<Coin> {
    details.map_values(|d: AddressDetails| d.balance)
}

/// The histories of the reports, one after the other.
pub open spec fn history_of(details: Seq<AddressDetails>) -> Seq<TransactionChange>
    decreases details.len(),
{
    if details.len() == 0 {
        Seq::empty()
    } else {
        history_of(details.drop_last()) + details.last().transaction_history@
    }
}

/// The unspent outputs of the reports, one after the other.
pub open spec fn unspent_of(details: Seq<AddressDetails>) -> Seq<(TxoPointer, TxOut)>
    decreases details.len(),
{
    if details.len() == 0 {
        Seq::empty()
    } else {
        unspent_of(details.drop_last()) + details.last().unspent_transactions@
    }
}

/// The sum of the balances: `BalanceAdditionError` when it exceeds `MAX_COIN`.
pub fn total_balance(details: &Vec<AddressDetails>) -> (r: Result<Coin, Error>)
    ensures
        total(balances_of(details@)) <= crate::coin::MAX_COIN ==> (r matches Ok(c) && c@ == total(
            balances_of(details@),
        )),
        total(balances_of(details@)) > crate::coin::MAX_COIN ==> (r matches Err(e) && e.kind
            == ErrorKind::BalanceAdditionError),
{
    let mut balances: Vec<Coin> = Vec::new();
    let mut i: usize = 0;
    while i < details.len()
        invariant
            i <= details.len(),
            balances@ == balances_of(details@.take(i as int)),
        decreases details.len() - i,
    {
        balances.push(details[i].balance);
        i = i + 1;
        proof {
            assert(balances@ =~= balances_of(details@.take(i as int)));
        }
    }
    proof {
        assert(details@.take(i as int) =~= details@);
    }
    match sum_coins(&balances) {
        Ok(c) => Ok(c),
        Err(_) => Err(Error::new(ErrorKind::BalanceAdditionError)),
    }
}

/// The histories of the reports, one after the other.
pub fn joined_history(details: &Vec<AddressDetails>) -> (r: Vec<TransactionChange>)
    ensures
        r@ == history_of(details@),
{
    let mut r: Vec<TransactionChange> = Vec::new();
    let mut i: usize = 0;
    while i < details.len()
        invariant
            i <= details.len(),
            r@ == history_of(details@.take(i as int)),
        decreases details.len() - i,
    {
        let h = &details[i].transaction_history;
        let ghost start = r@;
        let mut j: usize = 0;
        while j < h.len()
            invariant
                j <= h.len(),
                r@ == start + h@.take(j as int),
            decreases h.len() - j,
        {
            r.push(h[j]);
            j = j + 1;
            proof {
                assert(r@ =~= start + h@.take(j as int));
            }
        }
        proof {
            assert(details@.take(i as int + 1).drop_last() =~= details@.take(i as int));
            assert(h@.take(j as int) =~= h@);
        }
        i = i + 1;
    }
    proof {
        assert(details@.take(i as int) =~= details@);
    }
    r
}

/// The unspent outputs of the reports, one after the other.
pub fn joined_unspent(details: &Vec<AddressDetails>) -> (r: Vec<(TxoPointer, TxOut)>)
    ensures
        r@ == unspent_of(details@),
{
    let mut r: Vec<(TxoPointer, TxOut)> = Vec::new();
    let mut i: usize = 0;
    while i < details.len()
        invariant
            i <= details.len(),
            r@ == unspent_of(details@.take(i as int)),
        decreases details.len() - i,
    {
        let u = &details[i].unspent_transactions;
        let ghost start = r@;
        let mut j: usize = 0;
        while j < u.len()
            invariant
                j <= u.len(),
                r@ == start + u@.take(j as int),
            decreases u.len() - j,
        {
            r.push(u[j]);
            j = j + 1;
            proof {
                assert(r@ =~= start + u@.take(j as int));
            }
        }
        proof {
            assert(details@.take(i as int + 1).drop_last() =~= details@.take(i as int));
            assert(u@.take(j as int) =~= u@);
        }
        i = i + 1;
    }
    proof {
        assert(details@.take(i as int) =~= details@);
    }
    r
}

} // verus!
