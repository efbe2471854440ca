//! The hash function of the ledger: BLAKE2s with a 32-byte digest.
use vstd::prelude::*;
use blake2::Digest;
use crate::types::H256;

verus! {

/// The BLAKE2s-256 digest of a byte string.
pub uninterp spec fn blake2s_of(data: Seq<u8>) -> Seq<u8>;

/// Relies on blake2's `Blake2s256::digest`: the 32-byte BLAKE2s digest of the
/// input, which depends on the input bytes alone.
#[verifier::external_body]
pub(crate) fn blake2s(data: &[u8]) -> (r: H256)
    ensures
        r@ == blake2s_of(data@),
{
    blake2::Blake2s256::digest(data).into()
}

} // verus!
