//! Addresses, transaction outputs and the pointers that spend them.
use vstd::prelude::*;
use crate::coin::Coin;

verus! {

/// A 32-byte hash.
pub type H256 = [u8; 32];

/// A transaction identifier: the hash of the transaction's encoding.
pub type TxId = [u8; 32];

/// A compressed secp256k1 public key.
pub type PublicKey = [u8; 33];

/// A secp256k1 secret key.
pub type PrivateKey = [u8; 32];

/// A transfer destination: the root of the Merkle tree of the signer
/// subsets that may spend from it.
#[derive(Clone, Copy, Debug, PartialEq, Eq)]
pub enum ExtendedAddr {
    OrTree(H256),
}

impl ExtendedAddr {
    /// The root hash behind the address.
    pub open spec fn root_spec(self) -> Seq<u8> {
        match self {
            ExtendedAddr::OrTree(h) => h@,
        }
    }

    /// The root hash behind the address.
    pub fn root(&self) -> (r: H256)
        ensures
            r@ == self.root_spec(),
    {
        match self {
            ExtendedAddr::OrTree(h) => *h,
        }
    }
}

/// A 20-byte hash of a single public key, used as a staking identity.
#[derive(Clone, Copy, Debug, PartialEq, Eq)]
pub struct RedeemAddress(pub [u8; 20]);

/// The address of a staked-state record.
#[derive(Clone, Copy, Debug, PartialEq, Eq)]
pub enum StakedStateAddress {
    BasicRedeem(RedeemAddress),
}

/// A reference to an output of an earlier transaction.
#[derive(Clone, Copy, Debug, PartialEq, Eq)]
pub struct TxoPointer {
    pub id: TxId,
    pub index: u16,
}

impl TxoPointer {
    pub fn new(id: TxId, index: u16) -> (r: TxoPointer)
        ensures
            r.id == id,
            r.index == index,
    {
        TxoPointer { id, index }
    }
}

/// A transaction output: where the value goes, and from when it may be spent.
#[derive(Clone, Copy, Debug, PartialEq, Eq)]
pub struct TxOut {
    pub address: ExtendedAddr,
    pub value: Coin,
    pub valid_from: Option<i64>,
}

/// Whether two byte arrays hold the same bytes.
pub fn same_bytes<const N: usize>(a: &[u8; N], b: &[u8; N]) -> (r: bool)
    ensures
        r == (a@ == b@),
{
    let mut i: usize = 0;
    while i < N
        invariant
            i <= N,
            a@.len() == N,
            b@.len() == N,
            forall|j: int| 0 <= j < i ==> a@[j] == b@[j],
        decreases N - i,
    {
        if a[i] != b[i] {
            return false;
        }
        i = i + 1;
    }
    proof {
        assert(a@ =~= b@);
    }
    true
}

/// Whether two addresses are the same.
pub fn same_address(a: &ExtendedAddr, b: &ExtendedAddr) -> (r: bool)
    ensures
        r == (a.root_spec() == b.root_spec()),
{
    match (a, b) {
        (ExtendedAddr::OrTree(x), ExtendedAddr::OrTree(y)) => same_bytes(x, y),
    }
}

} // verus!
