//! M-of-N transfer addresses: the Merkle tree whose leaves are the
//! M-subsets of the signers' keys.
use vstd::prelude::*;
use crate::merkle::{MerkleTree, root_of};
use crate::types::PublicKey;

verus! {

/// Byte strings in lexicographic order: `a` comes no later than `b`.
pub open spec fn lex_le(a: Seq<u8>, b: Seq<u8>) -> bool
    decreases a.len(),
{
    if a.len() == 0 {
        true
    } else if b.len() == 0 {
        false
    } else if a[0] != b[0] {
        a[0] < b[0]
    } else {
        lex_le(a.drop_first(), b.drop_first())
    }
}

/// The keys stand in lexicographic order.
pub open spec fn sorted_keys(keys: Seq<PublicKey>) -> bool {
    forall|i: int, j: int| 0 <= i < j < keys.len() ==> lex_le(#[trigger] keys[i]@, #[trigger] keys[j]@)
}

/// The keys in ascending order, as std's stable sort leaves them.
pub uninterp spec fn sorted_keys_of(keys: Seq<PublicKey>) -> Seq<PublicKey>;

/// Relies on std's `slice::sort`: the same keys, in ascending order, where
/// arrays compare lexicographically; the outcome depends on the keys alone.
#[verifier::external_body]
fn sort_keys(keys: &mut Vec<PublicKey>)
    ensures
        final(keys)@ == sorted_keys_of(old(keys)@),
        final(keys)@.to_multiset() == old(keys)@.to_multiset(),
        sorted_keys(final(keys)@),
{
    keys.sort();
}

/// The byte strings of the keys.
pub open spec fn key_bytes(keys: Seq<PublicKey>) -> Seq<Seq<u8>> {
    keys.map_values(|k: PublicKey| k@)
}

/// The leaves for the `m`-subsets of `keys`: each subset's keys concatenated,
/// in the order in which they stand; subsets holding the first key come first.
pub open spec fn subset_leaves(keys: Seq<Seq<u8>>, m: nat) -> Seq<Seq<u8>>
    decreases keys.len(), m,
{
    if m == 0 {
        seq![Seq::<u8>::empty()]
    } else if keys.len() < m {
        Seq::empty()
    } else {
        let first = keys[0];
        subset_leaves(keys.drop_first(), (m - 1) as nat).map_values(|l: Seq<u8>| first + l)
            + subset_leaves(keys.drop_first(), m)
    }
}

/// The leaves for the `m`-subsets of `keys[start..]`.
fn subset_leaves_from(keys: &Vec<PublicKey>, start: usize, m: usize) -> (r: Vec<Vec<u8>>)
    requires
        start <= keys.len(),
    ensures
        r.deep_view() == subset_leaves(key_bytes(keys@).skip(start as int), m as nat),
    decreases keys.len() - start, m,
{
    let ghost s = key_bytes(keys@).skip(start as int);
    if m == 0 {
        let mut r: Vec<Vec<u8>> = Vec::new();
        r.push(Vec::new());
        proof {
            assert(r.deep_view() =~~= seq![Seq::<u8>::empty()]);
        }
        return r;
    }
    if keys.len() - start < m {
        let r: Vec<Vec<u8>> = Vec::new();
        proof {
            assert(r.deep_view() =~= Seq::<Seq<u8>>::empty());
        }
        return r;
    }
    proof {
        assert(s.drop_first() =~= key_bytes(keys@).skip(start + 1));
        assert(s[0] == keys@[start as int]@);
    }
    let with_first = subset_leaves_from(keys, start + 1, m - 1);
    let without_first = subset_leaves_from(keys, start + 1, m);
    let ghost first = s[0];
    let mut r: Vec<Vec<u8>> = Vec::new();
    let mut i: usize = 0;
    while i < with_first.len()
        invariant
            i <= with_first.len(),
            start < keys.len(),
            first == keys@[start as int]@,
            r.deep_view() =~= with_first.deep_view().take(i as int).map_values(
                |l: Seq<u8>| first + l,
            ),
        decreases with_first.len() - i,
    {
        let mut leaf: Vec<u8> = Vec::new();
        leaf.extend_from_slice(keys[start].as_slice());
        leaf.extend_from_slice(with_first[i].as_slice());
        proof {
            assert(leaf@ =~= first + with_first.deep_view()[i as int]);
        }
        let ghost before = r.deep_view();
        r.push(leaf);
        proof {
            assert(r.deep_view() =~~= before.push(leaf@));
            assert(with_first.deep_view().take(i as int + 1) =~~= with_first.deep_view().take(
                i as int,
            ).push(with_first.deep_view()[i as int]));
        }
        i = i + 1;
        proof {
            assert(r.deep_view() =~~= with_first.deep_view().take(i as int).map_values(
                |l: Seq<u8>| first + l,
            ));
        }
    }
    let ghost mapped = r.deep_view();
    let mut k: usize = 0;
    while k < without_first.len()
        invariant
            k <= without_first.len(),
            r.deep_view() =~= mapped + without_first.deep_view().take(k as int),
        decreases without_first.len() - k,
    {
        let mut leaf: Vec<u8> = Vec::new();
        leaf.extend_from_slice(without_first[k].as_slice());
        let ghost before = r.deep_view();
        r.push(leaf);
        proof {
            assert(r.deep_view() =~~= before.push(leaf@));
            assert(leaf@ =~= without_first.deep_view()[k as int]);
            assert(without_first.deep_view().take(k as int + 1) =~~= without_first.deep_view().take(
                k as int,
            ).push(without_first.deep_view()[k as int]));
        }
        k = k + 1;
        proof {
            assert(r.deep_view() =~~= mapped + without_first.deep_view().take(k as int));
        }
    }
    proof {
        assert(with_first.deep_view().take(with_first.len() as int) =~= with_first.deep_view());
        assert(without_first.deep_view().take(without_first.len() as int)
            =~= without_first.deep_view());
    }
    r
}

} // verus!
verus! {

/// The leaf of a signer subset: the subset's keys, sorted, concatenated.
pub open spec fn subset_leaf(sorted: Seq<PublicKey>) -> Seq<u8>
    decreases sorted.len(),
{
    if sorted.len() == 0 {
        Seq::empty()
    } else {
        sorted[0]@ + subset_leaf(sorted.drop_first())
    }
}

/// `sorted` holds the keys of `keys` in ascending order.
pub open spec fn sorting_of(sorted: Seq<PublicKey>, keys: Seq<PublicKey>) -> bool {
    sorted.to_multiset() == keys.to_multiset() && sorted_keys(sorted)
}

/// The keys in ascending order.
pub fn sorted_copy(keys: &Vec<PublicKey>) -> (r: Vec<PublicKey>)
    ensures
        r@ == sorted_keys_of(keys@),
        sorting_of(r@, keys@),
{
    let mut r = copy_vec(keys);
    sort_keys(&mut r);
    r
}

/// A copy of a vector of plain values.
pub fn copy_vec<T: Copy>(v: &Vec<T>) -> (r: Vec<T>)
    ensures
        r@ == v@,
{
    let mut r: Vec<T> = Vec::new();
    let mut i: usize = 0;
    while i < v.len()
        invariant
            i <= v.len(),
            r@ == v@.take(i as int),
        decreases v.len() - i,
    {
        r.push(v[i]);
        i = i + 1;
        proof {
            assert(r@ =~= v@.take(i as int));
        }
    }
    proof {
        assert(v@.take(i as int) =~= v@);
    }
    r
}

/// The leaf of the subset whose keys are `signers`, in any order.
pub fn leaf_of_signers(signers: &Vec<PublicKey>) -> (r: Vec<u8>)
    ensures
        r@ == subset_leaf(sorted_keys_of(signers@)),
{
    let sorted = sorted_copy(signers);
    let mut r: Vec<u8> = Vec::new();
    let mut i: usize = sorted.len();
    while i > 0
        invariant
            i <= sorted.len(),
            r@ == subset_leaf(sorted@.skip(i as int)),
        decreases i,
    {
        let ghost tail = sorted@.skip(i as int);
        let mut leaf: Vec<u8> = Vec::new();
        leaf.extend_from_slice(sorted[i - 1].as_slice());
        leaf.append(&mut r);
        r = leaf;
        i = i - 1;
        proof {
            assert(sorted@.skip(i as int).drop_first() =~= tail);
        }
    }
    proof {
        assert(sorted@.skip(0) =~= sorted@);
    }
    r
}

/// The tree of an `m`-of-`n` address over keys in ascending order: one leaf
/// per `m`-subset.
pub fn or_tree(sorted: &Vec<PublicKey>, m: usize) -> (r: MerkleTree)
    ensures
        r.wf(),
        r.leaves_spec() == subset_leaves(key_bytes(sorted@), m as nat),
{
    let leaves = subset_leaves_from(sorted, 0, m);
    proof {
        assert(key_bytes(sorted@).skip(0) =~= key_bytes(sorted@));
    }
    MerkleTree::new(leaves)
}

/// The root of the `m`-of-`n` address over `keys`.
pub open spec fn or_tree_root(sorted: Seq<PublicKey>, m: nat) -> Seq<u8> {
    root_of(subset_leaves(key_bytes(sorted), m))
}

} // verus!
