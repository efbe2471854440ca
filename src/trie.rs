//! The account store: versioned maps from 32-byte keys to values, each
//! version named by the Merkle root of its entries in key order. Inserting
//! a batch leaves the older versions readable.
use vstd::prelude::*;
use crate::error::{Error, ErrorKind};
use crate::merkle::{root_of, MerkleTree};
use crate::types::{same_bytes, H256};

verus! {

/// Byte strings in strict lexicographic order.
pub open spec fn key_lt(a: Seq<u8>, b: Seq<u8>) -> bool
    decreases a.len(),
{
    if a.len() == 0 || b.len() == 0 {
        false
    } else if a[0] != b[0] {
        a[0] < b[0]
    } else {
        key_lt(a.drop_first(), b.drop_first())
    }
}

proof fn lemma_key_lt_irreflexive(a: Seq<u8>)
    ensures
        !key_lt(a, a),
    decreases a.len(),
{
    if a.len() > 0 {
        lemma_key_lt_irreflexive(a.drop_first());
    }
}

proof fn lemma_key_lt_asymmetric(a: Seq<u8>, b: Seq<u8>)
    ensures
        key_lt(a, b) ==> !key_lt(b, a),
    decreases a.len(),
{
    if a.len() > 0 && b.len() > 0 && a[0] == b[0] {
        lemma_key_lt_asymmetric(a.drop_first(), b.drop_first());
    }
}

proof fn lemma_key_lt_transitive(a: Seq<u8>, b: Seq<u8>, c: Seq<u8>)
    ensures
        key_lt(a, b) && key_lt(b, c) ==> key_lt(a, c),
    decreases a.len(),
{
    if a.len() > 0 && b.len() > 0 && c.len() > 0 {
        lemma_key_lt_transitive(a.drop_first(), b.drop_first(), c.drop_first());
    }
}

proof fn lemma_key_lt_total(a: Seq<u8>, b: Seq<u8>)
    requires
        a.len() == b.len(),
    ensures
        a == b || key_lt(a, b) || key_lt(b, a),
    decreases a.len(),
{
    if a.len() == 0 {
        assert(a =~= b);
    } else if a[0] == b[0] {
        lemma_key_lt_total(a.drop_first(), b.drop_first());
        if a.drop_first() == b.drop_first() {
            assert(a =~= b) by {
                assert forall|i: int| 0 <= i < a.len() implies a[i] == b[i] by {
                    if i > 0 {
                        assert(a[i] == a.drop_first()[i - 1]);
                        assert(b[i] == b.drop_first()[i - 1]);
                    }
                }
            }
        }
    }
}

/// An entry as values: key and value.
pub type EntryV = (Seq<u8>, Seq<u8>);

/// An entry: a 32-byte key and its value.
pub type Entry = (H256, Vec<u8>);

/// The entries as values.
pub open spec fn entries_view(s: Seq<Entry>) -> Seq<EntryV> {
    s.map_values(|e: Entry| (e.0@, e.1@))
}

/// `s` with `key` set to `value`, keeping key order: the entry goes before
/// the first larger key, or replaces the entry of the same key.
pub open spec fn upsert(s: Seq<EntryV>, key: Seq<u8>, value: Seq<u8>) -> Seq<EntryV>
    decreases s.len(),
{
    if s.len() == 0 {
        seq![(key, value)]
    } else if s[0].0 == key {
        seq![(key, value)] + s.drop_first()
    } else if key_lt(key, s[0].0) {
        seq![(key, value)] + s
    } else {
        seq![s[0]] + upsert(s.drop_first(), key, value)
    }
}

/// `s` after the writes of the batch, in order.
pub open spec fn apply_batch(s: Seq<EntryV>, batch: Seq<EntryV>) -> Seq<EntryV>
    decreases batch.len(),
{
    if batch.len() == 0 {
        s
    } else {
        apply_batch(upsert(s, batch[0].0, batch[0].1), batch.drop_first())
    }
}

/// Every key of the entries is 32 bytes long.
pub open spec fn keys_32(s: Seq<EntryV>) -> bool {
    forall|i: int| 0 <= i < s.len() ==> (#[trigger] s[i]).0.len() == 32
}

/// The root of a version: the Merkle root of its entries, each its key
/// followed by its value, in key order.
pub open spec fn entries_root(s: Seq<EntryV>) -> Seq<u8> {
    root_of(s.map_values(|e: EntryV| e.0 + e.1))
}

proof fn lemma_upsert_keys_32(s: Seq<EntryV>, key: Seq<u8>, value: Seq<u8>)
    requires
        keys_32(s),
        key.len() == 32,
    ensures
        keys_32(upsert(s, key, value)),
    decreases s.len(),
{
    if s.len() > 0 && s[0].0 != key && !key_lt(key, s[0].0) {
        assert(keys_32(s.drop_first())) by {
            assert forall|i: int| 0 <= i < s.drop_first().len() implies (#[trigger] s.drop_first()[i]).0.len() == 32 by {
                assert(s.drop_first()[i] == s[i + 1]);
            }
        }
        lemma_upsert_keys_32(s.drop_first(), key, value);
        let u = seq![s[0]] + upsert(s.drop_first(), key, value);
        assert forall|i: int| 0 <= i < u.len() implies (#[trigger] u[i]).0.len() == 32 by {
            if i > 0 {
                assert(u[i] == upsert(s.drop_first(), key, value)[i - 1]);
            }
        }
    } else {
        let u = upsert(s, key, value);
        assert forall|i: int| 0 <= i < u.len() implies (#[trigger] u[i]).0.len() == 32 by {
            if i > 0 && s.len() > 0 {
                if s[0].0 == key {
                    assert(u[i] == s[i]);
                } else {
                    assert(u[i] == s[i - 1]);
                }
            }
        }
    }
}

/// Writes of two different keys commute.
pub proof fn lemma_upsert_commutes(s: Seq<EntryV>, k1: Seq<u8>, v1: Seq<u8>, k2: Seq<u8>, v2: Seq<u8>)
    requires
        keys_32(s),
        k1.len() == 32,
        k2.len() == 32,
        k1 != k2,
    ensures
        upsert(upsert(s, k1, v1), k2, v2) == upsert(upsert(s, k2, v2), k1, v1),
    decreases s.len(),
{
    lemma_key_lt_total(k1, k2);
    lemma_key_lt_asymmetric(k1, k2);
    lemma_key_lt_irreflexive(k1);
    lemma_key_lt_irreflexive(k2);
    if s.len() == 0 {
        let a = upsert(upsert(s, k1, v1), k2, v2);
        let b = upsert(upsert(s, k2, v2), k1, v1);
        assert(upsert(s, k1, v1) =~= seq![(k1, v1)]);
        assert(upsert(s, k2, v2) =~= seq![(k2, v2)]);
        let e = Seq::<EntryV>::empty();
        assert(seq![(k1, v1)].drop_first() =~= e);
        assert(seq![(k2, v2)].drop_first() =~= e);
        assert(upsert(e, k1, v1) =~= seq![(k1, v1)]);
        assert(upsert(e, k2, v2) =~= seq![(k2, v2)]);
        if key_lt(k2, k1) {
            assert(a =~= seq![(k2, v2)] + seq![(k1, v1)]);
            assert(b =~= seq![(k2, v2)] + upsert(e, k1, v1));
        } else {
            assert(a =~= seq![(k1, v1)] + upsert(e, k2, v2));
            assert(b =~= seq![(k1, v1)] + seq![(k2, v2)]);
        }
        assert(a =~= b);
    } else {
        let h = s[0].0;
        let t = s.drop_first();
        assert(h.len() == 32);
        lemma_key_lt_total(k1, h);
        lemma_key_lt_total(k2, h);
        lemma_key_lt_asymmetric(k1, h);
        lemma_key_lt_asymmetric(k2, h);
        lemma_key_lt_transitive(k1, k2, h);
        lemma_key_lt_transitive(k2, k1, h);
        lemma_key_lt_transitive(k1, h, k2);
        lemma_key_lt_transitive(k2, h, k1);
        lemma_key_lt_transitive(h, k1, k2);
        lemma_key_lt_transitive(h, k2, k1);
        assert(keys_32(t)) by {
            assert forall|i: int| 0 <= i < t.len() implies (#[trigger] t[i]).0.len() == 32 by {
                assert(t[i] == s[i + 1]);
            }
        }
        if key_lt(h, k1) && key_lt(h, k2) && h != k1 && h != k2 {
            lemma_upsert_commutes(t, k1, v1, k2, v2);
            let u1 = seq![s[0]] + upsert(t, k1, v1);
            let u2 = seq![s[0]] + upsert(t, k2, v2);
            assert(u1[0] == s[0]);
            assert(u2[0] == s[0]);
            assert(u1.drop_first() =~= upsert(t, k1, v1));
            assert(u2.drop_first() =~= upsert(t, k2, v2));
        } else {
            lemma_upsert_small_cases(s, k1, v1, k2, v2);
        }
    }
}

proof fn lemma_upsert_small_cases(s: Seq<EntryV>, k1: Seq<u8>, v1: Seq<u8>, k2: Seq<u8>, v2: Seq<u8>)
    requires
        s.len() > 0,
        k1.len() == 32,
        k2.len() == 32,
        s[0].0.len() == 32,
        k1 != k2,
        !(key_lt(s[0].0, k1) && key_lt(s[0].0, k2) && s[0].0 != k1 && s[0].0 != k2),
    ensures
        upsert(upsert(s, k1, v1), k2, v2) == upsert(upsert(s, k2, v2), k1, v1),
{
    let h = s[0].0;
    let t = s.drop_first();
    lemma_key_lt_total(k1, k2);
    lemma_key_lt_asymmetric(k1, k2);
    lemma_key_lt_total(k1, h);
    lemma_key_lt_total(k2, h);
    lemma_key_lt_asymmetric(k1, h);
    lemma_key_lt_asymmetric(k2, h);
    lemma_key_lt_transitive(k1, k2, h);
    lemma_key_lt_transitive(k2, k1, h);
    lemma_key_lt_transitive(k1, h, k2);
    lemma_key_lt_transitive(k2, h, k1);
    lemma_key_lt_irreflexive(h);
    lemma_key_lt_irreflexive(k1);
    lemma_key_lt_irreflexive(k2);
    let a1 = upsert(s, k1, v1);
    let a2 = upsert(s, k2, v2);
    let a = upsert(a1, k2, v2);
    let b = upsert(a2, k1, v1);
    assert(seq![(k1, v1)] + t =~= seq![(k1, v1)] + t);
    if h == k1 {
        assert(a1 =~= seq![(k1, v1)] + t);
        if key_lt(k2, h) {
            assert(a2 =~= seq![(k2, v2)] + s);
            assert(a =~= seq![(k2, v2)] + a1);
            assert(a2.drop_first() =~= s);
            assert(b =~= seq![(k2, v2)] + upsert(s, k1, v1));
        } else {
            assert(a2 =~= seq![s[0]] + upsert(t, k2, v2));
            assert(a1.drop_first() =~= t);
            assert(a =~= seq![(k1, v1)] + upsert(t, k2, v2));
            assert(b =~= seq![(k1, v1)] + a2.drop_first());
        }
        assert(a =~= b);
    } else if h == k2 {
        assert(a2 =~= seq![(k2, v2)] + t);
        if key_lt(k1, h) {
            assert(a1 =~= seq![(k1, v1)] + s);
            assert(b =~= seq![(k1, v1)] + a2);
            assert(a1.drop_first() =~= s);
            assert(a =~= seq![(k1, v1)] + upsert(s, k2, v2));
        } else {
            assert(a1 =~= seq![s[0]] + upsert(t, k1, v1));
            assert(a2.drop_first() =~= t);
            assert(b =~= seq![(k2, v2)] + upsert(t, k1, v1));
            assert(a =~= seq![(k2, v2)] + a1.drop_first());
        }
        assert(a =~= b);
    } else if key_lt(k1, h) && key_lt(k2, h) {
        assert(a1 =~= seq![(k1, v1)] + s);
        assert(a2 =~= seq![(k2, v2)] + s);
        if key_lt(k1, k2) {
            assert(a1.drop_first() =~= s);
            assert(a =~= seq![(k1, v1)] + upsert(s, k2, v2));
            assert(b =~= seq![(k1, v1)] + a2);
        } else {
            assert(a2.drop_first() =~= s);
            assert(b =~= seq![(k2, v2)] + upsert(s, k1, v1));
            assert(a =~= seq![(k2, v2)] + a1);
        }
        assert(a =~= b);
    } else if key_lt(k1, h) {
        assert(a1 =~= seq![(k1, v1)] + s);
        assert(a2 =~= seq![s[0]] + upsert(t, k2, v2));
        assert(a1.drop_first() =~= s);
        assert(a =~= seq![(k1, v1)] + upsert(s, k2, v2));
        assert(b =~= seq![(k1, v1)] + a2);
        assert(a =~= b);
    } else {
        assert(key_lt(k2, h));
        assert(a2 =~= seq![(k2, v2)] + s);
        assert(a1 =~= seq![s[0]] + upsert(t, k1, v1));
        assert(a2.drop_first() =~= s);
        assert(b =~= seq![(k2, v2)] + upsert(s, k1, v1));
        assert(a =~= seq![(k2, v2)] + a1);
        assert(a =~= b);
    }
}

/// Every key of the batch is 32 bytes long.
pub open spec fn batch_keys_32(batch: Seq<EntryV>) -> bool {
    forall|i: int| 0 <= i < batch.len() ==> (#[trigger] batch[i]).0.len() == 32
}

/// No key of one batch is a key of the other.
pub open spec fn disjoint_keys(a: Seq<EntryV>, b: Seq<EntryV>) -> bool {
    forall|i: int, j: int| 0 <= i < a.len() && 0 <= j < b.len() ==> (#[trigger] a[i]).0 != (#[trigger] b[j]).0
}

proof fn lemma_batch_keys_32(s: Seq<EntryV>, batch: Seq<EntryV>)
    requires
        keys_32(s),
        batch_keys_32(batch),
    ensures
        keys_32(apply_batch(s, batch)),
    decreases batch.len(),
{
    if batch.len() > 0 {
        lemma_upsert_keys_32(s, batch[0].0, batch[0].1);
        assert(batch_keys_32(batch.drop_first())) by {
            assert forall|i: int| 0 <= i < batch.drop_first().len() implies (#[trigger] batch.drop_first()[i]).0.len() == 32 by {
                assert(batch.drop_first()[i] == batch[i + 1]);
            }
        }
        lemma_batch_keys_32(upsert(s, batch[0].0, batch[0].1), batch.drop_first());
    }
}

proof fn lemma_upsert_past_batch(s: Seq<EntryV>, key: Seq<u8>, value: Seq<u8>, batch: Seq<EntryV>)
    requires
        keys_32(s),
        key.len() == 32,
        batch_keys_32(batch),
        forall|j: int| 0 <= j < batch.len() ==> (#[trigger] batch[j]).0 != key,
    ensures
        upsert(apply_batch(s, batch), key, value) == apply_batch(upsert(s, key, value), batch),
    decreases batch.len(),
{
    if batch.len() > 0 {
        let (k0, v0) = batch[0];
        let rest = batch.drop_first();
        assert(batch_keys_32(rest)) by {
            assert forall|i: int| 0 <= i < rest.len() implies (#[trigger] rest[i]).0.len() == 32 by {
                assert(rest[i] == batch[i + 1]);
            }
        }
        assert forall|j: int| 0 <= j < rest.len() implies (#[trigger] rest[j]).0 != key by {
            assert(rest[j] == batch[j + 1]);
        }
        assert(batch[0].0 != key);
        lemma_upsert_keys_32(s, k0, v0);
        lemma_upsert_past_batch(upsert(s, k0, v0), key, value, rest);
        lemma_upsert_commutes(s, k0, v0, key, value);
    }
}

/// Two batches that write disjoint sets of keys give the same entries, and
/// so the same root, in either order.
pub proof fn lemma_disjoint_batches_commute(s: Seq<EntryV>, a: Seq<EntryV>, b: Seq<EntryV>)
    requires
        keys_32(s),
        batch_keys_32(a),
        batch_keys_32(b),
        disjoint_keys(a, b),
    ensures
        apply_batch(apply_batch(s, a), b) == apply_batch(apply_batch(s, b), a),
        entries_root(apply_batch(apply_batch(s, a), b)) == entries_root(apply_batch(apply_batch(s, b), a)),
    decreases a.len(),
{
    if a.len() > 0 {
        let (k0, v0) = a[0];
        let rest = a.drop_first();
        assert(batch_keys_32(rest)) by {
            assert forall|i: int| 0 <= i < rest.len() implies (#[trigger] rest[i]).0.len() == 32 by {
                assert(rest[i] == a[i + 1]);
            }
        }
        assert(disjoint_keys(rest, b)) by {
            assert forall|i: int, j: int| 0 <= i < rest.len() && 0 <= j < b.len() implies (#[trigger] rest[i]).0 != (#[trigger] b[j]).0 by {
                assert(rest[i] == a[i + 1]);
            }
        }
        assert forall|j: int| 0 <= j < b.len() implies (#[trigger] b[j]).0 != k0 by {
            assert(a[0].0 != b[j].0);
        }
        lemma_upsert_keys_32(s, k0, v0);
        lemma_disjoint_batches_commute(upsert(s, k0, v0), rest, b);
        lemma_upsert_past_batch(s, k0, v0, b);
        lemma_batch_keys_32(s, b);
    }
}

/// The value of `key` among the entries.
pub open spec fn lookup(s: Seq<EntryV>, key: Seq<u8>) -> Option<Seq<u8>>
    decreases s.len(),
{
    if s.len() == 0 {
        None
    } else if s[0].0 == key {
        Some(s[0].1)
    } else {
        lookup(s.drop_first(), key)
    }
}

/// The writes of a batch: the `i`-th key with the `i`-th value.
pub open spec fn batch_of(keys: Seq<H256>, values: Seq<Vec<u8>>) -> Seq<EntryV> {
    Seq::new(keys.len(), |i: int| (keys[i]@, values[i]@))
}

/// Setting a key skips the entries before it that are neither it nor after it.
proof fn lemma_upsert_prefix(s: Seq<EntryV>, key: Seq<u8>, value: Seq<u8>, i: int)
    requires
        0 <= i <= s.len(),
        forall|j: int| 0 <= j < i ==> (#[trigger] s[j]).0 != key && !key_lt(key, s[j].0),
    ensures
        upsert(s, key, value) == s.take(i) + upsert(s.skip(i), key, value),
    decreases i,
{
    if i == 0 {
        assert(s.take(0) + upsert(s.skip(0), key, value) =~= upsert(s, key, value)) by {
            assert(s.skip(0) =~= s);
        }
    } else {
        let t = s.drop_first();
        assert forall|j: int| 0 <= j < i - 1 implies (#[trigger] t[j]).0 != key && !key_lt(key, t[j].0) by {
            assert(t[j] == s[j + 1]);
        }
        lemma_upsert_prefix(t, key, value, i - 1);
        assert(t.skip(i - 1) =~= s.skip(i));
        assert(s.take(i) =~= seq![s[0]] + t.take(i - 1));
        assert(upsert(s, key, value) == seq![s[0]] + upsert(t, key, value));
        assert(seq![s[0]] + (t.take(i - 1) + upsert(s.skip(i), key, value)) =~= s.take(i) + upsert(s.skip(i), key, value));
    }
}

/// Whether `a` comes before `b`.
fn key_less(a: &H256, b: &H256) -> (r: bool)
    ensures
        r == key_lt(a@, b@),
{
    let mut i: usize = 0;
    proof {
        assert(a@.skip(0) =~= a@);
        assert(b@.skip(0) =~= b@);
    }
    while i < 32
        invariant
            i <= 32,
            a@.len() == 32,
            b@.len() == 32,
            key_lt(a@, b@) == key_lt(a@.skip(i as int), b@.skip(i as int)),
        decreases 32 - i,
    {
        proof {
            assert(a@.skip(i as int).drop_first() =~= a@.skip(i as int + 1));
            assert(b@.skip(i as int).drop_first() =~= b@.skip(i as int + 1));
        }
        if a[i] != b[i] {
            return a[i] < b[i];
        }
        i = i + 1;
    }
    false
}

/// A copy of an entry's value.
fn copy_bytes(v: &Vec<u8>) -> (r: Vec<u8>)
    ensures
        r@ == v@,
{
    let mut r: Vec<u8> = Vec::new();
    r.extend_from_slice(v.as_slice());
    r
}

/// The entries with `key` set to `value`.
fn upsert_entries(s: &Vec<Entry>, key: &H256, value: &Vec<u8>) -> (r: Vec<Entry>)
    ensures
        entries_view(r@) == upsert(entries_view(s@), key@, value@),
{
    let ghost sv = entries_view(s@);
    let mut r: Vec<Entry> = Vec::new();
    let mut i: usize = 0;
    while i < s.len() && !same_bytes(&s[i].0, key) && !key_less(key, &s[i].0)
        invariant
            i <= s@.len(),
            sv == entries_view(s@),
            entries_view(r@) == sv.take(i as int),
            forall|j: int| 0 <= j < i ==> (#[trigger] sv[j]).0 != key@ && !key_lt(key@, sv[j].0),
        decreases s.len() - i,
    {
        let ghost before = r@;
        let e = (s[i].0, copy_bytes(&s[i].1));
        r.push(e);
        proof {
            assert(r@ == before.push(e));
            assert(entries_view(r@) =~= entries_view(before).push((e.0@, e.1@)));
            assert(sv[i as int] == (e.0@, e.1@));
            assert(sv.take(i as int + 1) =~= sv.take(i as int).push(sv[i as int]));
        }
        i = i + 1;
        proof {
            assert(entries_view(r@) =~= sv.take(i as int));
        }
    }
    proof {
        lemma_upsert_prefix(sv, key@, value@, i as int);
    }
    let ghost rest = sv.skip(i as int);
    let ghost before = r@;
    let e = (*key, copy_bytes(value));
    r.push(e);
    proof {
        assert(r@ == before.push(e));
        assert(entries_view(r@) =~= entries_view(before).push((e.0@, e.1@)));
    }
    let mut k: usize = if i < s.len() && same_bytes(&s[i].0, key) { i + 1 } else { i };
    proof {
        if i < s@.len() {
            assert(rest[0] == sv[i as int]);
            assert(rest.drop_first() =~= sv.skip(i as int + 1));
        } else {
            assert(rest =~= Seq::<EntryV>::empty());
        }
        assert(entries_view(r@) =~= sv.take(i as int) + seq![(key@, value@)]);
    }
    let ghost mid = entries_view(r@);
    while k < s.len()
        invariant
            i <= k <= s@.len(),
            sv == entries_view(s@),
            entries_view(r@) == mid + sv.subrange(start_of(sv, key@, i as int), k as int),
            start_of(sv, key@, i as int) <= k,
        decreases s.len() - k,
    {
        let ghost before = r@;
        let e = (s[k].0, copy_bytes(&s[k].1));
        r.push(e);
        proof {
            assert(r@ == before.push(e));
            assert(entries_view(r@) =~= entries_view(before).push((e.0@, e.1@)));
            assert(sv[k as int] == (e.0@, e.1@));
        }
        k = k + 1;
        proof {
            assert(entries_view(r@) =~= mid + sv.subrange(start_of(sv, key@, i as int), k as int));
        }
    }
    proof {
        assert(sv.subrange(start_of(sv, key@, i as int), k as int) =~= sv.skip(start_of(sv, key@, i as int)));
    }
    r
}

/// Where the entries after a written key resume: past the entry of the same
/// key, if there is one at `i`.
spec fn start_of(sv: Seq<EntryV>, key: Seq<u8>, i: int) -> int {
    if 0 <= i < sv.len() && sv[i].0 == key {
        i + 1
    } else {
        i
    }
}

/// One version: its root and its entries in key order.
#[derive(Debug)]
pub struct TrieVersion {
    pub root: H256,
    pub entries: Vec<Entry>,
}

/// The versions of the account store, oldest first.
#[derive(Debug)]
pub struct AccountTrie {
    versions: Vec<TrieVersion>,
}

/// The position of the first version with root `root`.
pub open spec fn version_pos(vs: Seq<TrieVersion>, root: Seq<u8>, i: int) -> Option<int>
    decreases vs.len() - i,
{
    if i < 0 || i >= vs.len() {
        None
    } else if vs[i].root@ == root {
        Some(i)
    } else {
        version_pos(vs, root, i + 1)
    }
}

/// The entries of the version `root`, if there is one.
pub open spec fn version_entries(vs: Seq<TrieVersion>, root: Seq<u8>) -> Option<Seq<EntryV>> {
    match version_pos(vs, root, 0) {
        Some(i) => Some(entries_view(vs[i].entries@)),
        None => None,
    }
}

impl AccountTrie {
    /// The versions, oldest first.
    pub closed spec fn versions_spec(&self) -> Seq<TrieVersion> {
        self.versions@
    }

    /// Each version's root is the root of its entries.
    pub closed spec fn wf(&self) -> bool {
        forall|i: int|
            0 <= i < self.versions@.len() ==> (#[trigger] self.versions@[i]).root@ == entries_root(
                entries_view(self.versions@[i].entries@),
            )
    }

    /// A store with no version.
    pub fn new() -> (r: AccountTrie)
        ensures
            r.wf(),
            r.versions_spec().len() == 0,
    {
        AccountTrie { versions: Vec::new() }
    }

    fn find_version(&self, root: &H256) -> (r: Option<usize>)
        ensures
            r matches Some(i) ==> version_pos(self.versions@, root@, 0) == Some(i as int) && i
                < self.versions@.len(),
            r is None ==> version_pos(self.versions@, root@, 0) is None,
    {
        let mut i: usize = 0;
        while i < self.versions.len()
            invariant
                i <= self.versions@.len(),
                version_pos(self.versions@, root@, 0) == version_pos(self.versions@, root@, i as int),
            decreases self.versions.len() - i,
        {
            if same_bytes(&self.versions[i].root, root) {
                return Some(i);
            }
            i = i + 1;
        }
        None
    }

    /// Writes `values[i]` under `keys[i]`, in order, on top of the version
    /// `old_root` (on no entry for `None`), and keeps the result as a new
    /// version; returns its root. `InvalidInput` when the lists differ in
    /// length, `StorageError` when there is no version `old_root`.
    pub fn insert(&mut self, old_root: Option<H256>, keys: &Vec<H256>, values: &Vec<Vec<u8>>) -> (r: Result<H256, Error>)
        requires
            old(self).wf(),
        ensures
            final(self).wf(),
            keys@.len() != values@.len() ==> (r matches Err(e) && e.kind == ErrorKind::InvalidInput)
                && final(self).versions_spec() == old(self).versions_spec(),
            keys@.len() == values@.len() ==> match old_root {
                Some(root) => match version_entries(old(self).versions_spec(), root@) {
                    None => (r matches Err(e) && e.kind == ErrorKind::StorageError)
                        && final(self).versions_spec() == old(self).versions_spec(),
                    Some(base) => inserted(old(self).versions_spec(), final(self).versions_spec(), base, batch_of(keys@, values@), r),
                },
                None => inserted(
                    old(self).versions_spec(),
                    final(self).versions_spec(),
                    Seq::empty(),
                    batch_of(keys@, values@),
                    r,
                ),
            },
    {
        if keys.len() != values.len() {
            return Err(Error::new(ErrorKind::InvalidInput));
        }
        let index: Option<usize> = match old_root {
            Some(root) => match self.find_version(&root) {
                Some(i) => Some(i),
                None => return Err(Error::new(ErrorKind::StorageError)),
            },
            None => None,
        };
        let mut entries: Vec<Entry> = Vec::new();
        match index {
            Some(i) => {
                let base = &self.versions[i].entries;
                let mut j: usize = 0;
                while j < base.len()
                    invariant
                        j <= base@.len(),
                        entries_view(entries@) == entries_view(base@).take(j as int),
                    decreases base.len() - j,
                {
                    let ghost before = entries@;
                    let e = (base[j].0, copy_bytes(&base[j].1));
                    entries.push(e);
                    proof {
                        assert(entries@ == before.push(e));
                        assert(entries_view(entries@) =~= entries_view(before).push((e.0@, e.1@)));
                        assert(entries_view(base@)[j as int] == (e.0@, e.1@));
                        assert(entries_view(base@).take(j as int + 1) =~= entries_view(base@).take(
                            j as int,
                        ).push(entries_view(base@)[j as int]));
                    }
                    j = j + 1;
                }
                proof {
                    assert(entries_view(base@).take(j as int) =~= entries_view(base@));
                }
            },
            None => {
                proof {
                    assert(entries_view(entries@) =~= Seq::<EntryV>::empty());
                }
            },
        }
        proof {
            match old_root {
                Some(root) => {
                    assert(version_entries(self.versions@, root@) == Some(entries_view(entries@)));
                },
                None => {},
            }
        }
        let ghost base = entries_view(entries@);
        let ghost batch = batch_of(keys@, values@);
        let mut k: usize = 0;
        proof {
            assert(batch.skip(0) =~= batch);
        }
        while k < keys.len()
            invariant
                k <= keys@.len(),
                keys@.len() == values@.len(),
                batch == batch_of(keys@, values@),
                apply_batch(base, batch) == apply_batch(entries_view(entries@), batch.skip(k as int)),
            decreases keys.len() - k,
        {
            proof {
                assert(batch.skip(k as int)[0] == (keys@[k as int]@, values@[k as int]@));
                assert(batch.skip(k as int).drop_first() =~= batch.skip(k as int + 1));
            }
            entries = upsert_entries(&entries, &keys[k], &values[k]);
            k = k + 1;
        }
        proof {
            assert(batch.skip(k as int) =~= Seq::<EntryV>::empty());
        }
        let mut leaves: Vec<Vec<u8>> = Vec::new();
        let mut j: usize = 0;
        while j < entries.len()
            invariant
                j <= entries@.len(),
                leaves.deep_view() =~~= entries_view(entries@).take(j as int).map_values(|e: EntryV| e.0 + e.1),
            decreases entries.len() - j,
        {
            let mut leaf: Vec<u8> = Vec::new();
            leaf.extend_from_slice(entries[j].0.as_slice());
            leaf.extend_from_slice(entries[j].1.as_slice());
            let ghost before = leaves.deep_view();
            leaves.push(leaf);
            proof {
                assert(leaves.deep_view() =~~= before.push(leaf@));
                assert(leaf@ =~= entries[j as int].0@ + entries[j as int].1@);
                assert(entries_view(entries@).take(j as int + 1) =~= entries_view(entries@).take(j as int).push(entries_view(entries@)[j as int]));
            }
            j = j + 1;
        }
        proof {
            assert(entries_view(entries@).take(j as int) =~= entries_view(entries@));
        }
        let tree = MerkleTree::new(leaves);
        let root = tree.root_hash();
        let ghost old_versions = self.versions@;
        let ghost final_entries = entries_view(entries@);
        self.versions.push(TrieVersion { root, entries });
        proof {
            assert(forall|i: int| 0 <= i < old_versions.len() ==> #[trigger] self.versions@[i] == old_versions[i]);
            assert(self.versions@.drop_last() =~= old_versions);
            assert(entries_view(self.versions@.last().entries@) == final_entries);
        }
        Ok(root)
    }

    /// The value of `key` in the version `root`.
    pub fn get(&self, root: &H256, key: &H256) -> (r: Option<Vec<u8>>)
        ensures
            match version_entries(self.versions_spec(), root@) {
                Some(es) => match lookup(es, key@) {
                    Some(v) => r matches Some(x) && x@ == v,
                    None => r is None,
                },
                None => r is None,
            },
    {
        let i = match self.find_version(root) {
            Some(i) => i,
            None => return None,
        };
        let es = &self.versions[i].entries;
        let ghost sv = entries_view(es@);
        let mut j: usize = 0;
        proof {
            assert(sv.skip(0) =~= sv);
        }
        while j < es.len()
            invariant
                j <= es@.len(),
                sv == entries_view(es@),
                version_entries(self.versions@, root@) == Some(sv),
                lookup(sv, key@) == lookup(sv.skip(j as int), key@),
            decreases es.len() - j,
        {
            proof {
                assert(sv.skip(j as int).drop_first() =~= sv.skip(j as int + 1));
                assert(sv.skip(j as int)[0] == sv[j as int]);
            }
            if same_bytes(&es[j].0, key) {
                proof {
                    assert(sv[j as int].0 == key@);
                }
                return Some(copy_bytes(&es[j].1));
            }
            j = j + 1;
        }
        proof {
            assert(sv.skip(j as int) =~= Seq::<EntryV>::empty());
        }
        None
    }
}

/// `after` is `before` with one more version, whose entries are `base`
/// after `batch`, and `r` is that version's root.
pub open spec fn inserted(
    before: Seq<TrieVersion>,
    after: Seq<TrieVersion>,
    base: Seq<EntryV>,
    batch: Seq<EntryV>,
    r: Result<H256, Error>,
) -> bool {
    r matches Ok(root) && after.len() == before.len() + 1 && after.drop_last() == before
        && entries_view(after.last().entries@) == apply_batch(base, batch) && after.last().root == root
        && root@ == entries_root(apply_batch(base, batch))
}

} // verus!
