//! Checking a transfer witness: a signature by a subset of an address's
//! signers, with the proof that the subset is a leaf of the address.
use vstd::prelude::*;
use crate::merkle::{proves, steps, verify_proof, MerkleProof};
use crate::multisig::{aggregate_keys, points_sum};
use crate::schnorr::{verifies, verify_signature, SchnorrSignature};
use crate::types::{ExtendedAddr, PublicKey, H256};

verus! {

/// The 33-byte keys that a leaf concatenates, if its length is a multiple of 33.
pub open spec fn leaf_keys(leaf: Seq<u8>) -> Seq<Seq<u8>> {
    Seq::new(leaf.len() / 33, |i: int| leaf.subrange(33 * i, 33 * i + 33))
}

/// `signature` on `message` is by the subset that `proof` shows to be a
/// leaf of `address`: the proof leads to the address's root, and the
/// signature checks against the sum of the leaf's keys.
pub open spec fn witness_holds(
    address: ExtendedAddr,
    message: Seq<u8>,
    signature: SchnorrSignature,
    proof_leaf: Seq<u8>,
    proof_path: Seq<crate::merkle::ProofStep>,
) -> bool {
    &&& proves(address.root_spec(), proof_leaf, steps(proof_path))
    &&& proof_leaf.len() % 33 == 0
    &&& points_sum(leaf_keys(proof_leaf)) matches Some(x)
    &&& verifies(x, message, signature)
}

/// Whether the witness holds.
pub fn verify_tree_signature(
    address: &ExtendedAddr,
    message: &H256,
    signature: &SchnorrSignature,
    proof: &MerkleProof,
) -> (r: bool)
    ensures
        r == witness_holds(*address, message@, *signature, proof.leaf@, proof.path@),
{
    let root = address.root();
    if !verify_proof(&root, proof) {
        return false;
    }
    let leaf = &proof.leaf;
    if leaf.len() % 33 != 0 {
        return false;
    }
    let llen: usize = leaf.len();
    let n = leaf.len() / 33;
    let mut keys: Vec<PublicKey> = Vec::new();
    let mut i: usize = 0;
    while i < n
        invariant
            i <= n,
            n == leaf@.len() / 33,
            llen == leaf@.len(),
            leaf@.len() % 33 == 0,
            keys@.len() == i,
            forall|j: int| 0 <= j < i ==> (#[trigger] keys@[j])@ == leaf@.subrange(33 * j, 33 * j + 33),
        decreases n - i,
    {
        let mut k = [0u8; 33];
        let mut b: usize = 0;
        proof {
            let len = leaf@.len() as int;
            assert(33 * i + 33 <= len) by (nonlinear_arith)
                requires i < n, n == len / 33, len >= 0;
        }
        while b < 33
            invariant
                b <= 33,
                i < n,
                33 * i + 33 <= leaf@.len(),
                llen == leaf@.len(),
                n == leaf@.len() / 33,
                forall|c: int| 0 <= c < b ==> k@[c] == leaf@[33 * i + c],
            decreases 33 - b,
        {
            k[b] = leaf[33 * i + b];
            b = b + 1;
        }
        proof {
            assert(k@ =~= leaf@.subrange(33 * i as int, 33 * i as int + 33));
        }
        keys.push(k);
        i = i + 1;
    }
    proof {
        assert(keys@.map_values(|k: PublicKey| k@) =~= leaf_keys(leaf@));
    }
    let x = match aggregate_keys(&keys) {
        Some(x) => x,
        None => return false,
    };
    verify_signature(&x, message, signature)
}

} // verus!
