//! The node's key/value store: byte blobs under a column and a key. A batch
//! of writes is applied as a whole, and a later write to a key shadows the
//! earlier ones.
use vstd::prelude::*;
use crate::merkle::bytes_eq;

verus! {

/// Transaction bodies, by transaction id.
pub const COL_BODIES: u32 = 0;
/// Transaction witnesses, by transaction id.
pub const COL_WITNESS: u32 = 1;
/// Per-transaction metadata (the spent bitmap), by transaction id.
pub const COL_TX_META: u32 = 2;
/// The app hash of each height, by the varint of the height.
pub const COL_APP_STATES: u32 = 3;
/// The encoded Merkle tree of each block's transactions, by app hash.
pub const COL_MERKLE_PROOFS: u32 = 4;
/// Anything else.
pub const COL_EXTRA: u32 = 5;

/// One write: column, key, value.
pub type Write = (u32, Vec<u8>, Vec<u8>);

/// The value under `col` and `key` among `entries`, newest first.
pub open spec fn kv_get(entries: Seq<Write>, col: u32, key: Seq<u8>) -> Option<Seq<u8>>
    decreases entries.len(),
{
    if entries.len() == 0 {
        None
    } else if entries[0].0 == col && entries[0].1@ == key {
        Some(entries[0].2@)
    } else {
        kv_get(entries.drop_first(), col, key)
    }
}

/// The entries after writing `batch`, in order, on top of `entries`.
pub open spec fn after_batch(entries: Seq<Write>, batch: Seq<Write>) -> Seq<Write>
    decreases batch.len(),
{
    if batch.len() == 0 {
        entries
    } else {
        after_batch(seq![batch[0]] + entries, batch.drop_first())
    }
}

/// A column-partitioned store of byte blobs.
#[derive(Debug)]
pub struct KvStore {
    entries: Vec<Write>,
}

impl KvStore {
    /// The writes so far, newest first.
    pub closed spec fn entries_spec(&self) -> Seq<Write> {
        self.entries@
    }

    /// The value under `col` and `key`.
    pub open spec fn get_spec(&self, col: u32, key: Seq<u8>) -> Option<Seq<u8>> {
        kv_get(self.entries_spec(), col, key)
    }

    /// An empty store.
    pub fn new() -> (r: KvStore)
        ensures
            forall|col: u32, key: Seq<u8>| r.get_spec(col, key) is None,
    {
        KvStore { entries: Vec::new() }
    }

    /// The value under `col` and `key`.
    pub fn get(&self, col: u32, key: &[u8]) -> (r: Option<Vec<u8>>)
        ensures
            match self.get_spec(col, key@) {
                Some(v) => r matches Some(x) && x@ == v,
                None => r is None,
            },
    {
        let mut i: usize = 0;
        proof {
            assert(self.entries@.skip(0) =~= self.entries@);
        }
        while i < self.entries.len()
            invariant
                i <= self.entries@.len(),
                kv_get(self.entries@, col, key@) == kv_get(self.entries@.skip(i as int), col, key@),
            decreases self.entries.len() - i,
        {
            let ghost rest = self.entries@.skip(i as int);
            proof {
                assert(rest.drop_first() =~= self.entries@.skip(i as int + 1));
                assert(rest[0] == self.entries@[i as int]);
            }
            if self.entries[i].0 == col && bytes_eq(self.entries[i].1.as_slice(), key) {
                let mut v: Vec<u8> = Vec::new();
                v.extend_from_slice(self.entries[i].2.as_slice());
                return Some(v);
            }
            i = i + 1;
        }
        None
    }

    /// Writes `value` under `col` and `key`.
    pub fn put(&mut self, col: u32, key: Vec<u8>, value: Vec<u8>)
        ensures
            final(self).entries_spec() == seq![(col, key, value)] + old(self).entries_spec(),
            final(self).get_spec(col, key@) == Some(value@),
            forall|c: u32, k: Seq<u8>|
                !(c == col && k == key@) ==> final(self).get_spec(c, k) == old(self).get_spec(c, k),
    {
        let ghost entry = (col, key, value);
        self.entries.insert(0, (col, key, value));
        proof {
            assert(self.entries@ =~= seq![entry] + old(self).entries@);
            assert(self.entries@.drop_first() =~= old(self).entries@);
        }
    }

    /// Applies the writes of `batch`, in order, as one step.
    pub fn write_batch(&mut self, batch: Vec<Write>)
        ensures
            final(self).entries_spec() == after_batch(old(self).entries_spec(), batch@),
    {
        let mut b = batch;
        while b.len() > 0
            invariant
                after_batch(old(self).entries@, batch@) == after_batch(self.entries@, b@),
            decreases b.len(),
        {
            let ghost before = self.entries@;
            let ghost rest = b@;
            let w = b.remove(0);
            self.entries.insert(0, w);
            proof {
                assert(self.entries@ =~= seq![rest[0]] + before);
                assert(b@ =~= rest.drop_first());
            }
        }
    }
}

} // verus!
