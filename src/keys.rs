//! Key material: fresh secp256k1 key pairs, and the staking address of a key.
use vstd::prelude::*;
use crate::hash::{blake2s, blake2s_of};
use crate::schnorr::base_mul;
use crate::types::{PrivateKey, PublicKey, RedeemAddress};

verus! {

/// Relies on secp256k1's `Secp256k1::generate_keypair`, fed by the thread's
/// random number generator: a random secret key and its public key
/// (`PublicKey::from_secret_key` of it), serialized in compressed form.
#[verifier::external_body]
pub(crate) fn generate_keypair() -> (r: (PrivateKey, PublicKey))
    ensures
        base_mul(r.0@) == Some(r.1@),
{
    let secp = secp256k1::Secp256k1::new();
    let (sk, pk) = secp.generate_keypair(&mut secp256k1::rand::thread_rng());
    let mut secret = [0u8; 32];
    secret.copy_from_slice(&sk[..]);
    (secret, pk.serialize())
}

/// The staking address of a public key: the last 20 bytes of its hash.
pub open spec fn redeem_address_of(key: Seq<u8>) -> Seq<u8> {
    blake2s_of(key).skip(12)
}

/// The staking address of a public key.
pub fn redeem_address(key: &PublicKey) -> (r: RedeemAddress)
    ensures
        r.0@ == redeem_address_of(key@),
{
    let h = blake2s(key.as_slice());
    let mut a = [0u8; 20];
    let mut i: usize = 0;
    while i < 20
        invariant
            i <= 20,
            h@.len() == 32,
            forall|j: int| 0 <= j < i ==> a@[j] == h@[j + 12],
        decreases 20 - i,
    {
        a[i] = h[i + 12];
        i = i + 1;
    }
    proof {
        assert(a@ =~= h@.skip(12));
    }
    RedeemAddress(a)
}

} // verus!
