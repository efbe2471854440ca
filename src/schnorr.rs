//! Schnorr signatures over secp256k1, in the form that the multi-signature
//! sessions aggregate: `s·G = R + e·X` with `e = H(X || R || m)`.
use vstd::prelude::*;
use crate::hash::{blake2s, blake2s_of};
use crate::types::{PrivateKey, PublicKey, H256};

verus! {

/// The sum of two points given in compressed form; `None` when either is
/// not a point or the sum is the point at infinity.
pub uninterp spec fn point_add(a: Seq<u8>, b: Seq<u8>) -> Option<Seq<u8>>;

/// A point times a scalar; `None` when the point or scalar is invalid.
pub uninterp spec fn point_mul(p: Seq<u8>, k: Seq<u8>) -> Option<Seq<u8>>;

/// The generator times a scalar; `None` when the scalar is invalid.
pub uninterp spec fn base_mul(k: Seq<u8>) -> Option<Seq<u8>>;

/// The sum of two scalars modulo the group order; `None` when either is
/// invalid or the sum is zero.
pub uninterp spec fn scalar_add(a: Seq<u8>, b: Seq<u8>) -> Option<Seq<u8>>;

/// The product of two scalars modulo the group order; `None` when either
/// is invalid.
pub uninterp spec fn scalar_mul(a: Seq<u8>, b: Seq<u8>) -> Option<Seq<u8>>;

/// Relies on secp256k1's `PublicKey::combine`, after `PublicKey::from_slice`
/// on both inputs.
#[verifier::external_body]
pub(crate) fn combine_points(a: &PublicKey, b: &PublicKey) -> (r: Option<PublicKey>)
    ensures
        match point_add(a@, b@) {
            Some(p) => r matches Some(x) && x@ == p,
            None => r is None,
        },
{
    let pa = secp256k1::PublicKey::from_slice(a).ok()?;
    let pb = secp256k1::PublicKey::from_slice(b).ok()?;
    match pa.combine(&pb) {
        Ok(p) => Some(p.serialize()),
        Err(_) => None,
    }
}

/// Relies on secp256k1's `PublicKey::mul_assign`, after
/// `PublicKey::from_slice` on the point.
#[verifier::external_body]
pub(crate) fn multiply_point(p: &PublicKey, k: &[u8; 32]) -> (r: Option<PublicKey>)
    ensures
        match point_mul(p@, k@) {
            Some(q) => r matches Some(x) && x@ == q,
            None => r is None,
        },
{
    let secp = secp256k1::Secp256k1::verification_only();
    let mut pk = secp256k1::PublicKey::from_slice(p).ok()?;
    pk.mul_assign(&secp, k).ok()?;
    Some(pk.serialize())
}

/// Relies on secp256k1's `PublicKey::from_secret_key`, after
/// `SecretKey::from_slice` on the scalar.
#[verifier::external_body]
pub(crate) fn multiply_base(k: &[u8; 32]) -> (r: Option<PublicKey>)
    ensures
        match base_mul(k@) {
            Some(q) => r matches Some(x) && x@ == q,
            None => r is None,
        },
{
    let secp = secp256k1::Secp256k1::signing_only();
    let sk = secp256k1::SecretKey::from_slice(k).ok()?;
    Some(secp256k1::PublicKey::from_secret_key(&secp, &sk).serialize())
}

/// Relies on secp256k1's `SecretKey::add_assign`, after
/// `SecretKey::from_slice` on the first scalar.
#[verifier::external_body]
pub(crate) fn add_scalars(a: &[u8; 32], b: &[u8; 32]) -> (r: Option<[u8; 32]>)
    ensures
        match scalar_add(a@, b@) {
            Some(q) => r matches Some(x) && x@ == q,
            None => r is None,
        },
{
    let mut sk = secp256k1::SecretKey::from_slice(a).ok()?;
    sk.add_assign(b).ok()?;
    let mut out = [0u8; 32];
    out.copy_from_slice(&sk[..]);
    Some(out)
}

/// Relies on secp256k1's `SecretKey::mul_assign`, after
/// `SecretKey::from_slice` on the first scalar.
#[verifier::external_body]
pub(crate) fn multiply_scalars(a: &[u8; 32], b: &[u8; 32]) -> (r: Option<[u8; 32]>)
    ensures
        match scalar_mul(a@, b@) {
            Some(q) => r matches Some(x) && x@ == q,
            None => r is None,
        },
{
    let mut sk = secp256k1::SecretKey::from_slice(a).ok()?;
    sk.mul_assign(b).ok()?;
    let mut out = [0u8; 32];
    out.copy_from_slice(&sk[..]);
    Some(out)
}

/// A Schnorr signature: the nonce point and the scalar.
#[derive(Clone, Copy, Debug, PartialEq, Eq)]
pub struct SchnorrSignature {
    pub r: PublicKey,
    pub s: [u8; 32],
}

/// The challenge of a signature by `x` with nonce point `r` on `message`.
pub open spec fn challenge(x: Seq<u8>, r: Seq<u8>, message: Seq<u8>) -> Seq<u8> {
    blake2s_of(x + r + message)
}

/// The challenge of a signature by `x` with nonce point `r` on `message`.
pub fn compute_challenge(x: &PublicKey, r: &PublicKey, message: &H256) -> (e: H256)
    ensures
        e@ == challenge(x@, r@, message@),
{
    let mut buf: Vec<u8> = Vec::new();
    buf.extend_from_slice(x.as_slice());
    buf.extend_from_slice(r.as_slice());
    buf.extend_from_slice(message.as_slice());
    proof {
        assert(buf@ =~= x@ + r@ + message@);
    }
    blake2s(buf.as_slice())
}

/// `sig` is a signature by the key `x` on `message`: `s·G = R + e·X`.
pub open spec fn verifies(x: Seq<u8>, message: Seq<u8>, sig: SchnorrSignature) -> bool {
    &&& base_mul(sig.s@) is Some
    &&& point_mul(x, challenge(x, sig.r@, message)) matches Some(ex)
    &&& point_add(sig.r@, ex) == base_mul(sig.s@)
}

/// Whether `sig` is a signature by the key `x` on `message`.
pub fn verify_signature(x: &PublicKey, message: &H256, sig: &SchnorrSignature) -> (r: bool)
    ensures
        r == verifies(x@, message@, *sig),
{
    let lhs = match multiply_base(&sig.s) {
        Some(p) => p,
        None => return false,
    };
    let e = compute_challenge(x, &sig.r, message);
    let ex = match multiply_point(x, &e) {
        Some(p) => p,
        None => return false,
    };
    match combine_points(&sig.r, &ex) {
        Some(rhs) => {
            let eq = crate::types::same_bytes(&rhs, &lhs);
            proof {
                if !eq {
                    assert(point_add(sig.r@, ex@) != base_mul(sig.s@));
                }
            }
            eq
        },
        None => false,
    }
}

/// The partial signature `r + e·x` of a signer with secret `x` and secret
/// nonce `r` under challenge `e`.
pub open spec fn partial_of(nonce: Seq<u8>, e: Seq<u8>, secret: Seq<u8>) -> Option<Seq<u8>> {
    match scalar_mul(secret, e) {
        Some(ex) => scalar_add(nonce, ex),
        None => None,
    }
}

/// The partial signature `r + e·x`.
pub fn partial_signature(nonce: &PrivateKey, e: &H256, secret: &PrivateKey) -> (r: Option<[u8; 32]>)
    ensures
        match partial_of(nonce@, e@, secret@) {
            Some(s) => r matches Some(x) && x@ == s,
            None => r is None,
        },
{
    match multiply_scalars(secret, e) {
        Some(ex) => add_scalars(nonce, &ex),
        None => None,
    }
}

} // verus!
