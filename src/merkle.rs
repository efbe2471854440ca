//! Merkle trees over byte-string leaves, with inclusion proofs that recompute
//! the root from a leaf and the sibling hashes along its path.
use vstd::prelude::*;
use crate::hash::{blake2s, blake2s_of};
use crate::types::{same_bytes, H256};

verus! {

/// Domain separator of a leaf hash.
pub const LEAF_PREFIX: u8 = 0;

/// Domain separator of an inner-node hash.
pub const NODE_PREFIX: u8 = 1;

/// The hash of a leaf.
pub open spec fn leaf_hash(leaf: Seq<u8>) -> Seq<u8> {
    blake2s_of(seq![LEAF_PREFIX] + leaf)
}

/// The hash of an inner node from those of its two children.
pub open spec fn node_hash(left: Seq<u8>, right: Seq<u8>) -> Seq<u8> {
    blake2s_of(seq![NODE_PREFIX] + left + right)
}

/// The root of the tree over no leaf.
pub open spec fn empty_root() -> Seq<u8> {
    Seq::new(32, |i: int| 0u8)
}

/// Where a sequence of `n >= 2` leaves is split between the two subtrees.
pub open spec fn split_point(n: int) -> int {
    (n + 1) / 2
}

/// The root of the tree over `leaves`: the leaf hash for one leaf; for more,
/// the node hash of the roots over the first `split_point` leaves and over
/// the rest.
pub open spec fn root_of(leaves: Seq<Seq<u8>>) -> Seq<u8>
    decreases leaves.len(),
{
    if leaves.len() == 0 {
        empty_root()
    } else if leaves.len() == 1 {
        leaf_hash(leaves[0])
    } else {
        let mid = split_point(leaves.len() as int);
        node_hash(root_of(leaves.take(mid)), root_of(leaves.skip(mid)))
    }
}

/// One step of an inclusion proof: the sibling's hash and on which side of
/// the path it stands.
#[derive(Clone, Copy, Debug, PartialEq, Eq)]
pub struct ProofStep {
    pub sibling: H256,
    pub sibling_is_left: bool,
}

/// A proof step as values: the sibling's hash, and whether it is on the left.
pub type Step = (Seq<u8>, bool);

/// The steps of a proof as values.
pub open spec fn steps(path: Seq<ProofStep>) -> Seq<Step> {
    path.map_values(|s: ProofStep| (s.sibling@, s.sibling_is_left))
}

/// The hash one level up from `h`, given the sibling step.
pub open spec fn step_up(h: Seq<u8>, step: Step) -> Seq<u8> {
    if step.1 {
        node_hash(step.0, h)
    } else {
        node_hash(h, step.0)
    }
}

/// The root reached from hash `h` by the steps of `path`, lowest first.
pub open spec fn path_root(h: Seq<u8>, path: Seq<Step>) -> Seq<u8>
    decreases path.len(),
{
    if path.len() == 0 {
        h
    } else {
        path_root(step_up(h, path[0]), path.drop_first())
    }
}

/// The steps from the leaf at `idx` up to the root of the tree over `leaves`.
pub open spec fn path_of(leaves: Seq<Seq<u8>>, idx: int) -> Seq<Step>
    decreases leaves.len(),
{
    if leaves.len() <= 1 {
        seq![]
    } else {
        let mid = split_point(leaves.len() as int);
        if idx < mid {
            path_of(leaves.take(mid), idx).push((root_of(leaves.skip(mid)), false))
        } else {
            path_of(leaves.skip(mid), idx - mid).push((root_of(leaves.take(mid)), true))
        }
    }
}

/// Whether `proof` shows that `leaf` is in the tree whose root is `root`.
pub open spec fn proves(root: Seq<u8>, leaf: Seq<u8>, path: Seq<Step>) -> bool {
    path_root(leaf_hash(leaf), path) == root
}

/// An inclusion proof: the leaf and the steps up to the root.
#[derive(Clone, Debug)]
pub struct MerkleProof {
    pub leaf: Vec<u8>,
    pub path: Vec<ProofStep>,
}

/// A Merkle tree: its leaves, in order, and its root.
#[derive(Clone, Debug)]
pub struct MerkleTree {
    leaves: Vec<Vec<u8>>,
    root: H256,
}

impl MerkleTree {
    /// The tree's leaves, in order.
    pub closed spec fn leaves_spec(&self) -> Seq<Seq<u8>> {
        self.leaves.deep_view()
    }

    /// The tree's leaves and root agree.
    pub closed spec fn wf(&self) -> bool {
        self.root@ == root_of(self.leaves.deep_view())
    }

    /// Builds the tree over `leaves`, in order.
    pub fn new(leaves: Vec<Vec<u8>>) -> (r: MerkleTree)
        ensures
            r.wf(),
            r.leaves_spec() == leaves.deep_view(),
    {
        let root = if leaves.len() == 0 {
            [0u8; 32]
        } else {
            subtree_root(&leaves, 0, leaves.len())
        };
        proof {
            if leaves.len() == 0 {
                assert(root@ =~= empty_root());
            } else {
                assert(leaves.deep_view().subrange(0, leaves.len() as int) =~= leaves.deep_view());
            }
        }
        MerkleTree { leaves, root }
    }

    /// The root hash.
    pub fn root_hash(&self) -> (r: H256)
        requires
            self.wf(),
        ensures
            r@ == root_of(self.leaves_spec()),
    {
        self.root
    }

    /// The leaves, in order.
    pub fn leaves(&self) -> (r: &Vec<Vec<u8>>)
        ensures
            r.deep_view() == self.leaves_spec(),
    {
        &self.leaves
    }

    /// The proof of inclusion of `leaf`, or `None` when it is not a leaf.
    /// A proof that is returned leads from the leaf to the root.
    pub fn generate_proof(&self, leaf: &[u8]) -> (r: Option<MerkleProof>)
        requires
            self.wf(),
        ensures
            r is Some <==> self.leaves_spec().contains(leaf@),
            r matches Some(p) ==> p.leaf@ == leaf@ && proves(
                root_of(self.leaves_spec()),
                leaf@,
                steps(p.path@),
            ) && p.path@.len() <= self.leaves_spec().len() && exists|i: int|
                first_at(self.leaves_spec(), leaf@, i) && steps(p.path@) == #[trigger] path_of(
                    self.leaves_spec(),
                    i,
                ),
    {
        let mut i: usize = 0;
        while i < self.leaves.len()
            invariant
                i <= self.leaves.len(),
                forall|j: int| 0 <= j < i ==> self.leaves.deep_view()[j] != leaf@,
            decreases self.leaves.len() - i,
        {
            proof {
                assert(self.leaves.deep_view()[i as int] == self.leaves[i as int]@);
            }
            if bytes_eq(self.leaves[i].as_slice(), leaf) {
                let mut found: Vec<u8> = Vec::new();
                found.extend_from_slice(leaf);
                let path = subtree_path(&self.leaves, 0, self.leaves.len(), i);
                proof {
                    let l = self.leaves.deep_view();
                    assert(l.subrange(0, l.len() as int) =~= l);
                    lemma_path_of_reaches_root(l, i as int);
                    lemma_path_of_len(l, i as int);
                    assert(l[i as int] == leaf@);
                    assert(found@ =~= leaf@);
                    assert(first_at(l, leaf@, i as int));
                }
                return Some(MerkleProof { leaf: found, path });
            }
            i = i + 1;
        }
        proof {
            let l = self.leaves.deep_view();
            if l.contains(leaf@) {
                let j = choose|j: int| 0 <= j < l.len() && l[j] == leaf@;
                assert(l[j] != leaf@);
            }
        }
        None
    }
}

/// `i` is the first position of `leaf` among `leaves`.
pub open spec fn first_at(leaves: Seq<Seq<u8>>, leaf: Seq<u8>, i: int) -> bool {
    0 <= i < leaves.len() && leaves[i] == leaf && forall|j: int| 0 <= j < i ==> leaves[j] != leaf
}

/// Whether `proof` leads from its leaf to `root`.
pub fn verify_proof(root: &H256, proof: &MerkleProof) -> (r: bool)
    ensures
        r == proves(root@, proof.leaf@, steps(proof.path@)),
{
    let mut h = hash_leaf(proof.leaf.as_slice());
    let ghost all = steps(proof.path@);
    let mut i: usize = 0;
    proof {
        assert(all.skip(0) =~= all);
    }
    while i < proof.path.len()
        invariant
            i <= proof.path.len(),
            all == steps(proof.path@),
            path_root(h@, all.skip(i as int)) == path_root(leaf_hash(proof.leaf@), all),
        decreases proof.path.len() - i,
    {
        let step = proof.path[i];
        proof {
            assert(all.skip(i as int).drop_first() =~= all.skip(i as int + 1));
            assert(all.skip(i as int)[0] == (step.sibling@, step.sibling_is_left));
        }
        h = if step.sibling_is_left {
            hash_node(&step.sibling, &h)
        } else {
            hash_node(&h, &step.sibling)
        };
        i = i + 1;
    }
    proof {
        assert(all.skip(i as int) =~= Seq::<Step>::empty());
    }
    same_bytes(&h, root)
}

/// Whether two byte strings are equal.
pub fn bytes_eq(a: &[u8], b: &[u8]) -> (r: bool)
    ensures
        r == (a@ == b@),
{
    if a.len() != b.len() {
        return false;
    }
    let mut i: usize = 0;
    while i < a.len()
        invariant
            i <= a.len(),
            a@.len() == b@.len(),
            forall|j: int| 0 <= j < i ==> a@[j] == b@[j],
        decreases a.len() - i,
    {
        if a[i] != b[i] {
            return false;
        }
        i = i + 1;
    }
    proof {
        assert(a@ =~= b@);
    }
    true
}

/// The hash of a leaf.
pub fn hash_leaf(leaf: &[u8]) -> (r: H256)
    ensures
        r@ == leaf_hash(leaf@),
{
    let mut buf: Vec<u8> = Vec::new();
    buf.push(LEAF_PREFIX);
    buf.extend_from_slice(leaf);
    proof {
        assert(buf@ =~= seq![LEAF_PREFIX] + leaf@);
    }
    blake2s(buf.as_slice())
}

/// The hash of an inner node.
pub fn hash_node(left: &H256, right: &H256) -> (r: H256)
    ensures
        r@ == node_hash(left@, right@),
{
    let mut buf: Vec<u8> = Vec::new();
    buf.push(NODE_PREFIX);
    buf.extend_from_slice(left.as_slice());
    buf.extend_from_slice(right.as_slice());
    proof {
        assert(buf@ =~= seq![NODE_PREFIX] + left@ + right@);
    }
    blake2s(buf.as_slice())
}

/// The root of the subtree over `leaves[lo..hi]`.
fn subtree_root(leaves: &Vec<Vec<u8>>, lo: usize, hi: usize) -> (r: H256)
    requires
        lo < hi <= leaves.len(),
    ensures
        r@ == root_of(leaves.deep_view().subrange(lo as int, hi as int)),
    decreases hi - lo,
{
    let ghost s = leaves.deep_view().subrange(lo as int, hi as int);
    if hi - lo == 1 {
        proof {
            assert(s[0] == leaves[lo as int]@);
        }
        hash_leaf(leaves[lo].as_slice())
    } else {
        let n: usize = hi - lo;
        let mid: usize = lo + n / 2 + n % 2;
        let left = subtree_root(leaves, lo, mid);
        let right = subtree_root(leaves, mid, hi);
        proof {
            let m = split_point(s.len() as int);
            assert(s.take(m) =~= leaves.deep_view().subrange(lo as int, mid as int));
            assert(s.skip(m) =~= leaves.deep_view().subrange(mid as int, hi as int));
        }
        hash_node(&left, &right)
    }
}

/// The steps from the leaf at `idx` up to the root of the subtree over
/// `leaves[lo..hi]`.
fn subtree_path(leaves: &Vec<Vec<u8>>, lo: usize, hi: usize, idx: usize) -> (r: Vec<ProofStep>)
    requires
        lo <= idx < hi <= leaves.len(),
    ensures
        steps(r@) == path_of(leaves.deep_view().subrange(lo as int, hi as int), idx - lo),
    decreases hi - lo,
{
    let ghost s = leaves.deep_view().subrange(lo as int, hi as int);
    if hi - lo == 1 {
        let r: Vec<ProofStep> = Vec::new();
        proof {
            assert(steps(r@) =~= seq![]);
        }
        r
    } else {
        let n: usize = hi - lo;
        let mid: usize = lo + n / 2 + n % 2;
        let ghost m = split_point(s.len() as int);
        proof {
            assert(s.take(m) =~= leaves.deep_view().subrange(lo as int, mid as int));
            assert(s.skip(m) =~= leaves.deep_view().subrange(mid as int, hi as int));
        }
        if idx < mid {
            let mut path = subtree_path(leaves, lo, mid, idx);
            let sibling = subtree_root(leaves, mid, hi);
            let ghost before = path@;
            path.push(ProofStep { sibling, sibling_is_left: false });
            proof {
                assert(steps(path@) =~= steps(before).push((sibling@, false)));
            }
            path
        } else {
            let mut path = subtree_path(leaves, mid, hi, idx);
            let sibling = subtree_root(leaves, lo, mid);
            let ghost before = path@;
            path.push(ProofStep { sibling, sibling_is_left: true });
            proof {
                assert(steps(path@) =~= steps(before).push((sibling@, true)));
            }
            path
        }
    }
}

/// A path has at most as many steps as the tree has leaves.
pub proof fn lemma_path_of_len(leaves: Seq<Seq<u8>>, idx: int)
    ensures
        path_of(leaves, idx).len() <= leaves.len(),
    decreases leaves.len(),
{
    if leaves.len() > 1 {
        let mid = split_point(leaves.len() as int);
        if idx < mid {
            lemma_path_of_len(leaves.take(mid), idx);
        } else {
            lemma_path_of_len(leaves.skip(mid), idx - mid);
        }
    }
}

/// Following one more step extends the path's root by that step.
pub proof fn lemma_path_root_push(h: Seq<u8>, path: Seq<Step>, step: Step)
    ensures
        path_root(h, path.push(step)) == step_up(path_root(h, path), step),
    decreases path.len(),
{
    if path.len() > 0 {
        assert(path.push(step).drop_first() =~= path.drop_first().push(step));
        assert(path.push(step)[0] == path[0]);
        lemma_path_root_push(step_up(h, path[0]), path.drop_first(), step);
        assert(path_root(h, path) == path_root(step_up(h, path[0]), path.drop_first()));
        assert(path_root(h, path.push(step)) == path_root(
            step_up(h, path[0]),
            path.drop_first().push(step),
        ));
    } else {
        let one = path.push(step);
        assert(one.drop_first() =~= Seq::<Step>::empty());
        assert(one[0] == step);
        assert(path_root(step_up(h, step), one.drop_first()) == step_up(h, step));
        assert(path_root(h, one) == path_root(step_up(h, step), one.drop_first()));
    }
}

/// The path of every leaf of a tree leads from that leaf to the tree's root.
pub proof fn lemma_path_of_reaches_root(leaves: Seq<Seq<u8>>, idx: int)
    requires
        0 <= idx < leaves.len(),
    ensures
        proves(root_of(leaves), leaves[idx], path_of(leaves, idx)),
    decreases leaves.len(),
{
    if leaves.len() > 1 {
        let mid = split_point(leaves.len() as int);
        if idx < mid {
            let step = (root_of(leaves.skip(mid)), false);
            lemma_path_of_reaches_root(leaves.take(mid), idx);
            assert(leaves.take(mid)[idx] == leaves[idx]);
            lemma_path_root_push(leaf_hash(leaves[idx]), path_of(leaves.take(mid), idx), step);
        } else {
            let step = (root_of(leaves.take(mid)), true);
            lemma_path_of_reaches_root(leaves.skip(mid), idx - mid);
            assert(leaves.skip(mid)[idx - mid] == leaves[idx]);
            lemma_path_root_push(
                leaf_hash(leaves[idx]),
                path_of(leaves.skip(mid), idx - mid),
                step,
            );
        }
    }
}

} // verus!
