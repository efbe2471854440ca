//! The multi-signature session: three rounds among the signers of a
//! message (nonce commitments, nonces, partial signatures), each opened only
//! when every contribution of the round before is in, and each contribution
//! checked before it is taken.
use vstd::prelude::*;
use crate::error::{Error, ErrorKind};
use crate::hash::{blake2s, blake2s_of};
use crate::schnorr::{
    base_mul, challenge, combine_points, compute_challenge, multiply_base, multiply_point,
    partial_of, partial_signature, point_add, point_mul, scalar_add, add_scalars, verifies,
    verify_signature, SchnorrSignature,
};
use crate::types::{same_bytes, PrivateKey, PublicKey, H256};

verus! {

/// What a session holds of one signer.
#[derive(Clone, Copy, Debug, PartialEq, Eq)]
pub struct SignerState {
    pub public_key: PublicKey,
    pub nonce_commitment: Option<H256>,
    pub nonce: Option<PublicKey>,
    pub partial_signature: Option<[u8; 32]>,
}

/// What a session keeps to itself: this signer's private key and secret
/// nonce, and the passphrase the session is opened with. Nothing outside
/// the crate reads them.
pub struct SessionSecrets {
    self_private_key: PrivateKey,
    secret_nonce: PrivateKey,
    passphrase: String,
}

/// One signer's session: the message, every signer's contributions so far,
/// and this signer's own secrets.
pub struct MultiSigSession {
    pub id: H256,
    pub message: H256,
    pub signers: Vec<SignerState>,
    pub self_index: usize,
    pub secrets: SessionSecrets,
    /// Set once a contribution failed its check or conflicted with an
    /// earlier one; an aborted session takes nothing more.
    pub aborted: bool,
}

/// Every signer has committed to a nonce.
pub open spec fn all_committed(ss: Seq<SignerState>) -> bool {
    forall|i: int| 0 <= i < ss.len() ==> (#[trigger] ss[i]).nonce_commitment is Some
}

/// Every signer has revealed a nonce.
pub open spec fn all_nonces(ss: Seq<SignerState>) -> bool {
    forall|i: int| 0 <= i < ss.len() ==> (#[trigger] ss[i]).nonce is Some
}

/// Every signer has a partial signature in.
pub open spec fn all_partials(ss: Seq<SignerState>) -> bool {
    forall|i: int| 0 <= i < ss.len() ==> (#[trigger] ss[i]).partial_signature is Some
}

/// The position of the first signer with key `key` at or after `i`.
pub open spec fn signer_pos(ss: Seq<SignerState>, key: Seq<u8>, i: int) -> Option<int>
    decreases ss.len() - i,
{
    if i < 0 || i >= ss.len() {
        None
    } else if ss[i].public_key@ == key {
        Some(i)
    } else {
        signer_pos(ss, key, i + 1)
    }
}

/// The sum of the points, in order; `None` for no point or a failed addition.
pub open spec fn points_sum(ps: Seq<Seq<u8>>) -> Option<Seq<u8>>
    decreases ps.len(),
{
    if ps.len() == 0 {
        None
    } else if ps.len() == 1 {
        Some(ps[0])
    } else {
        match points_sum(ps.drop_last()) {
            Some(t) => point_add(t, ps.last()),
            None => None,
        }
    }
}

/// The sum of the scalars, in order; `None` for none or a failed addition.
pub open spec fn scalars_sum(ks: Seq<Seq<u8>>) -> Option<Seq<u8>>
    decreases ks.len(),
{
    if ks.len() == 0 {
        None
    } else if ks.len() == 1 {
        Some(ks[0])
    } else {
        match scalars_sum(ks.drop_last()) {
            Some(t) => scalar_add(t, ks.last()),
            None => None,
        }
    }
}

/// The signers' public keys.
pub open spec fn keys_of(ss: Seq<SignerState>) -> Seq<Seq<u8>> {
    ss.map_values(|s: SignerState| s.public_key@)
}

/// The signers' nonces (meaningful once all are in).
pub open spec fn nonces_of(ss: Seq<SignerState>) -> Seq<Seq<u8>> {
    ss.map_values(|s: SignerState| s.nonce->Some_0@)
}

/// The signers' partial signatures (meaningful once all are in).
pub open spec fn partials_of(ss: Seq<SignerState>) -> Seq<Seq<u8>> {
    ss.map_values(|s: SignerState| s.partial_signature->Some_0@)
}

/// The challenge of the session: of the aggregate key and aggregate nonce.
pub open spec fn session_challenge(ss: Seq<SignerState>, message: Seq<u8>) -> Option<Seq<u8>> {
    match (points_sum(keys_of(ss)), points_sum(nonces_of(ss))) {
        (Some(x), Some(r)) => Some(challenge(x, r, message)),
        _ => None,
    }
}

/// The aggregate key of the signers.
pub fn aggregate_keys(keys: &Vec<PublicKey>) -> (r: Option<PublicKey>)
    ensures
        match points_sum(keys@.map_values(|k: PublicKey| k@)) {
            Some(p) => r matches Some(x) && x@ == p,
            None => r is None,
        },
{
    let ghost ps = keys@.map_values(|k: PublicKey| k@);
    if keys.len() == 0 {
        return None;
    }
    let mut acc = keys[0];
    let mut i: usize = 1;
    proof {
        assert(ps.take(1) =~= seq![ps[0]]);
    }
    while i < keys.len()
        invariant
            1 <= i <= keys.len(),
            ps == keys@.map_values(|k: PublicKey| k@),
            points_sum(ps.take(i as int)) == Some(acc@),
        decreases keys.len() - i,
    {
        proof {
            assert(ps.take(i as int + 1).drop_last() =~= ps.take(i as int));
        }
        match combine_points(&acc, &keys[i]) {
            Some(p) => {
                acc = p;
            },
            None => {
                proof {
                    lemma_points_sum_prefix_none(ps, i as int + 1);
                }
                return None;
            },
        }
        i = i + 1;
    }
    proof {
        assert(ps.take(i as int) =~= ps);
    }
    Some(acc)
}

/// Once a prefix of the sum fails, the whole sum fails.
proof fn lemma_points_sum_prefix_none(ps: Seq<Seq<u8>>, k: int)
    requires
        1 <= k <= ps.len(),
        points_sum(ps.take(k)) is None,
    ensures
        points_sum(ps) is None,
    decreases ps.len() - k,
{
    if k < ps.len() {
        assert(ps.take(k + 1).drop_last() =~= ps.take(k));
        lemma_points_sum_prefix_none(ps, k + 1);
    } else {
        assert(ps.take(k) =~= ps);
    }
}

/// Once a prefix of the sum fails, the whole sum fails.
proof fn lemma_scalars_sum_prefix_none(ks: Seq<Seq<u8>>, k: int)
    requires
        1 <= k <= ks.len(),
        scalars_sum(ks.take(k)) is None,
    ensures
        scalars_sum(ks) is None,
    decreases ks.len() - k,
{
    if k < ks.len() {
        assert(ks.take(k + 1).drop_last() =~= ks.take(k));
        lemma_scalars_sum_prefix_none(ks, k + 1);
    } else {
        assert(ks.take(k) =~= ks);
    }
}

/// The signer with its nonce commitment set.
pub open spec fn with_commitment(s: SignerState, c: H256) -> SignerState {
    SignerState { nonce_commitment: Some(c), ..s }
}

/// The signer with its nonce set.
pub open spec fn with_nonce(s: SignerState, n: PublicKey) -> SignerState {
    SignerState { nonce: Some(n), ..s }
}

/// The signer with its partial signature set.
pub open spec fn with_partial(s: SignerState, p: [u8; 32]) -> SignerState {
    SignerState { partial_signature: Some(p), ..s }
}

/// A contribution that differs from one already taken.
pub open spec fn conflicts<T>(existing: Option<T>, offered: T) -> bool {
    existing matches Some(e) && e != offered
}

/// A partial signature `p` of the signer with key `key` and
/// nonce `nonce` checks under challenge `e`: `p·G = R_i + e·P_i`.
pub open spec fn partial_verifies(key: Seq<u8>, nonce: Seq<u8>, e: Seq<u8>, p: Seq<u8>) -> bool {
    &&& base_mul(p) is Some
    &&& point_mul(key, e) matches Some(ex)
    &&& point_add(nonce, ex) == base_mul(p)
}

/// The id of a session: the hash of its message and its nonce point.
pub open spec fn session_id_of(message: Seq<u8>, public_nonce: Seq<u8>) -> Seq<u8> {
    blake2s_of(message + public_nonce)
}

impl MultiSigSession {
    /// This signer's private key.
    pub closed spec fn private_key_spec(&self) -> PrivateKey {
        self.secrets.self_private_key
    }

    /// This signer's secret nonce.
    pub closed spec fn secret_nonce_spec(&self) -> PrivateKey {
        self.secrets.secret_nonce
    }

    /// The passphrase the session is kept under.
    pub closed spec fn passphrase_spec(&self) -> Seq<char> {
        self.secrets.passphrase@
    }

    /// Whether `passphrase` opens the session.
    pub(crate) fn opens_with(&self, passphrase: &String) -> (r: bool)
        ensures
            r == (self.passphrase_spec() == passphrase@),
    {
        self.secrets.passphrase == *passphrase
    }

    /// Own nonce and its commitment stand in this signer's entry, and the
    /// nonce is the point of the secret nonce.
    pub open spec fn wf(&self) -> bool {
        &&& self.self_index < self.signers@.len()
        &&& self.signers@[self.self_index as int].nonce matches Some(n)
        &&& base_mul(self.secret_nonce_spec()@) == Some(n@)
        &&& self.signers@[self.self_index as int].nonce_commitment matches Some(c)
        &&& c@ == blake2s_of(n@)
    }

    fn find_signer(&self, key: &PublicKey) -> (r: Option<usize>)
        ensures
            r matches Some(i) ==> signer_pos(self.signers@, key@, 0) == Some(i as int) && i
                < self.signers@.len(),
            r is None ==> signer_pos(self.signers@, key@, 0) is None,
    {
        let mut i: usize = 0;
        while i < self.signers.len()
            invariant
                i <= self.signers@.len(),
                signer_pos(self.signers@, key@, 0) == signer_pos(self.signers@, key@, i as int),
            decreases self.signers.len() - i,
        {
            if same_bytes(&self.signers[i].public_key, key) {
                return Some(i);
            }
            i = i + 1;
        }
        None
    }

    fn committed(&self) -> (r: bool)
        ensures
            r == all_committed(self.signers@),
    {
        let mut i: usize = 0;
        while i < self.signers.len()
            invariant
                i <= self.signers@.len(),
                forall|j: int| 0 <= j < i ==> (#[trigger] self.signers@[j]).nonce_commitment is Some,
            decreases self.signers.len() - i,
        {
            if self.signers[i].nonce_commitment.is_none() {
                return false;
            }
            i = i + 1;
        }
        true
    }

    fn nonces_in(&self) -> (r: bool)
        ensures
            r == all_nonces(self.signers@),
    {
        let mut i: usize = 0;
        while i < self.signers.len()
            invariant
                i <= self.signers@.len(),
                forall|j: int| 0 <= j < i ==> (#[trigger] self.signers@[j]).nonce is Some,
            decreases self.signers.len() - i,
        {
            if self.signers[i].nonce.is_none() {
                return false;
            }
            i = i + 1;
        }
        true
    }

    fn partials_in(&self) -> (r: bool)
        ensures
            r == all_partials(self.signers@),
    {
        let mut i: usize = 0;
        while i < self.signers.len()
            invariant
                i <= self.signers@.len(),
                forall|j: int| 0 <= j < i ==> (#[trigger] self.signers@[j]).partial_signature is Some,
            decreases self.signers.len() - i,
        {
            if self.signers[i].partial_signature.is_none() {
                return false;
            }
            i = i + 1;
        }
        true
    }

    /// The aggregate key of the signers.
    fn key_sum(&self) -> (r: Option<PublicKey>)
        ensures
            match points_sum(keys_of(self.signers@)) {
                Some(p) => r matches Some(x) && x@ == p,
                None => r is None,
            },
    {
        let mut keys: Vec<PublicKey> = Vec::new();
        let mut i: usize = 0;
        while i < self.signers.len()
            invariant
                i <= self.signers@.len(),
                keys@ == self.signers@.take(i as int).map_values(|s: SignerState| s.public_key),
            decreases self.signers.len() - i,
        {
            keys.push(self.signers[i].public_key);
            i = i + 1;
            proof {
                assert(keys@ =~= self.signers@.take(i as int).map_values(|s: SignerState| s.public_key));
            }
        }
        proof {
            assert(keys@.map_values(|k: PublicKey| k@) =~= keys_of(self.signers@));
        }
        aggregate_keys(&keys)
    }

    /// The aggregate nonce of the signers, once every nonce is in.
    fn nonce_sum(&self) -> (r: Option<PublicKey>)
        requires
            all_nonces(self.signers@),
        ensures
            match points_sum(nonces_of(self.signers@)) {
                Some(p) => r matches Some(x) && x@ == p,
                None => r is None,
            },
    {
        let mut nonces: Vec<PublicKey> = Vec::new();
        let mut i: usize = 0;
        while i < self.signers.len()
            invariant
                i <= self.signers@.len(),
                all_nonces(self.signers@),
                nonces@ == self.signers@.take(i as int).map_values(|s: SignerState| s.nonce->Some_0),
            decreases self.signers.len() - i,
        {
            let n = match self.signers[i].nonce {
                Some(n) => n,
                None => {
                    proof {
                        assert(self.signers@[i as int].nonce is Some);
                    }
                    return None;
                },
            };
            nonces.push(n);
            i = i + 1;
            proof {
                assert(nonces@ =~= self.signers@.take(i as int).map_values(
                    |s: SignerState| s.nonce->Some_0,
                ));
            }
        }
        proof {
            assert(nonces@.map_values(|k: PublicKey| k@) =~= nonces_of(self.signers@));
        }
        aggregate_keys(&nonces)
    }

    /// The challenge of the session, once every nonce is in.
    fn challenge(&self) -> (r: Option<H256>)
        requires
            all_nonces(self.signers@),
        ensures
            match session_challenge(self.signers@, self.message@) {
                Some(e) => r matches Some(x) && x@ == e,
                None => r is None,
            },
    {
        let x = match self.key_sum() {
            Some(x) => x,
            None => return None,
        };
        let r = match self.nonce_sum() {
            Some(r) => r,
            None => return None,
        };
        Some(compute_challenge(&x, &r, &self.message))
    }

    /// This signer's nonce commitment.
    pub fn nonce_commitment(&self) -> (r: H256)
        requires
            self.wf(),
        ensures
            self.signers@[self.self_index as int].nonce_commitment == Some(r),
    {
        self.signers[self.self_index].nonce_commitment.unwrap()
    }

    /// Takes the nonce commitment of the signer `key`, as
    /// `commitment_outcome` states.
    pub fn add_nonce_commitment(&mut self, commitment: H256, key: &PublicKey) -> (r: Result<(), Error>)
        requires
            old(self).wf(),
        ensures
            final(self).wf(),
            commitment_outcome(*old(self), *final(self), commitment, *key, r),
    {
        if self.aborted {
            return Err(Error::new(ErrorKind::InvalidInput));
        }
        let i = match self.find_signer(key) {
            Some(i) => i,
            None => return Err(Error::new(ErrorKind::InvalidInput)),
        };
        let mut st = self.signers[i];
        match st.nonce_commitment {
            Some(c) => {
                if !same_bytes(&c, &commitment) {
                    proof {
                        if c == commitment {
                            assert(c@ == commitment@);
                        }
                    }
                    self.aborted = true;
                    return Err(Error::new(ErrorKind::InvalidInput));
                }
                proof {
                    assert(c =~= commitment);
                }
            },
            None => {},
        }
        st.nonce_commitment = Some(commitment);
        self.signers.set(i, st);
        Ok(())
    }

    /// This signer's nonce, revealed once every signer has committed;
    /// `NonceNotReady` before, `InvalidInput` once aborted.
    pub fn nonce(&self) -> (r: Result<PublicKey, Error>)
        requires
            self.wf(),
        ensures
            nonce_outcome(*self, r),
    {
        if self.aborted {
            return Err(Error::new(ErrorKind::InvalidInput));
        }
        if !self.committed() {
            return Err(Error::new(ErrorKind::NonceNotReady));
        }
        Ok(self.signers[self.self_index].nonce.unwrap())
    }

    /// Takes the nonce of the signer `key`, as `nonce_taken_outcome` states.
    pub fn add_nonce(&mut self, nonce: &PublicKey, key: &PublicKey) -> (r: Result<(), Error>)
        requires
            old(self).wf(),
        ensures
            final(self).wf(),
            nonce_taken_outcome(*old(self), *final(self), *nonce, *key, r),
    {
        if self.aborted {
            return Err(Error::new(ErrorKind::InvalidInput));
        }
        if !self.committed() {
            return Err(Error::new(ErrorKind::NonceNotReady));
        }
        let i = match self.find_signer(key) {
            Some(i) => i,
            None => return Err(Error::new(ErrorKind::InvalidInput)),
        };
        let mut st = self.signers[i];
        proof {
            assert(self.signers@[i as int].nonce_commitment is Some);
        }
        let c = st.nonce_commitment.unwrap();
        let h = blake2s(nonce.as_slice());
        if !same_bytes(&c, &h) {
            self.aborted = true;
            return Err(Error::new(ErrorKind::InvalidNonce));
        }
        match st.nonce {
            Some(n) => {
                if !same_bytes(&n, nonce) {
                    proof {
                        if n == *nonce {
                            assert(n@ == nonce@);
                        }
                    }
                    self.aborted = true;
                    return Err(Error::new(ErrorKind::InvalidInput));
                }
                proof {
                    assert(n =~= *nonce);
                }
            },
            None => {},
        }
        st.nonce = Some(*nonce);
        self.signers.set(i, st);
        Ok(())
    }

    /// A session of the signer `self_public_key` among `signer_public_keys`
    /// on `message`, whose secret nonce is `secret_nonce` with nonce point
    /// `public_nonce`; its id is the hash of the message and the nonce
    /// point. `InvalidInput` when the signer is not among the signers.
    pub fn new(
        message: H256,
        signer_public_keys: &Vec<PublicKey>,
        self_public_key: &PublicKey,
        self_private_key: PrivateKey,
        secret_nonce: PrivateKey,
        public_nonce: PublicKey,
        passphrase: &str,
    ) -> (r: Result<MultiSigSession, Error>)
        requires
            base_mul(secret_nonce@) == Some(public_nonce@),
        ensures
            !signer_public_keys@.contains(*self_public_key) ==> (r matches Err(e) && e.kind
                == ErrorKind::InvalidInput),
            signer_public_keys@.contains(*self_public_key) ==> (r matches Ok(s) && s.wf() && !s.aborted
                && s.id@ == session_id_of(message@, public_nonce@)
                && s.signers@[s.self_index as int].nonce == Some(public_nonce)
                && s.secret_nonce_spec() == secret_nonce
                && s.message == message && s.private_key_spec() == self_private_key
                && s.passphrase_spec() == passphrase@ && s.signers@.len() == signer_public_keys@.len()
                && s.signers@[s.self_index as int].public_key == *self_public_key && forall|i: int|
                0 <= i < s.signers@.len() ==> (#[trigger] s.signers@[i]).public_key
                    == signer_public_keys@[i] && (i != s.self_index ==> s.signers@[i].nonce_commitment
                    is None && s.signers@[i].nonce is None) && s.signers@[i].partial_signature is None),
    {
        let mut signers: Vec<SignerState> = Vec::new();
        let mut self_index: Option<usize> = None;
        let mut i: usize = 0;
        while i < signer_public_keys.len()
            invariant
                i <= signer_public_keys@.len(),
                signers@.len() == i,
                self_index matches Some(k) ==> k < i && signer_public_keys@[k as int] == *self_public_key,
                self_index is None ==> forall|j: int| 0 <= j < i ==> signer_public_keys@[j] != *self_public_key,
                forall|j: int|
                    0 <= j < i ==> (#[trigger] signers@[j]).public_key == signer_public_keys@[j]
                        && signers@[j].nonce_commitment is None && signers@[j].nonce is None
                        && signers@[j].partial_signature is None,
            decreases signer_public_keys.len() - i,
        {
            let key = signer_public_keys[i];
            if self_index.is_none() && same_bytes(&key, self_public_key) {
                proof {
                    assert(key =~= *self_public_key);
                }
                self_index = Some(i);
            } else {
                proof {
                    if self_index is None && key == *self_public_key {
                        assert(key@ == self_public_key@);
                    }
                }
            }
            signers.push(SignerState { public_key: key, nonce_commitment: None, nonce: None, partial_signature: None });
            i = i + 1;
        }
        let k = match self_index {
            Some(k) => k,
            None => {
                proof {
                    if signer_public_keys@.contains(*self_public_key) {
                        let j = choose|j: int| 0 <= j < signer_public_keys@.len() && signer_public_keys@[j] == *self_public_key;
                        assert(signer_public_keys@[j] != *self_public_key);
                    }
                }
                return Err(Error::new(ErrorKind::InvalidInput));
            },
        };
        let commitment = blake2s(public_nonce.as_slice());
        let mut buf: Vec<u8> = Vec::new();
        buf.extend_from_slice(message.as_slice());
        buf.extend_from_slice(public_nonce.as_slice());
        proof {
            assert(buf@ =~= message@ + public_nonce@);
        }
        let id = blake2s(buf.as_slice());
        signers.set(k, SignerState {
            public_key: *self_public_key,
            nonce_commitment: Some(commitment),
            nonce: Some(public_nonce),
            partial_signature: None,
        });
        Ok(MultiSigSession {
            id,
            message,
            signers,
            self_index: k,
            secrets: SessionSecrets { self_private_key, secret_nonce, passphrase: passphrase.to_owned() },
            aborted: false,
        })
    }

    /// This signer's partial signature, as `partial_outcome` states; it is
    /// also taken into the session.
    pub fn partial_signature(&mut self) -> (r: Result<[u8; 32], Error>)
        requires
            old(self).wf(),
        ensures
            final(self).wf(),
            partial_outcome(*old(self), *final(self), r),
    {
        if self.aborted {
            return Err(Error::new(ErrorKind::InvalidInput));
        }
        if !self.nonces_in() {
            return Err(Error::new(ErrorKind::PartialNotReady));
        }
        let e = match self.challenge() {
            Some(e) => e,
            None => return Err(Error::new(ErrorKind::InvalidSignature)),
        };
        let p = match partial_signature(&self.secrets.secret_nonce, &e, &self.secrets.self_private_key) {
            Some(p) => p,
            None => return Err(Error::new(ErrorKind::InvalidSignature)),
        };
        let mut st = self.signers[self.self_index];
        st.partial_signature = Some(p);
        self.signers.set(self.self_index, st);
        Ok(p)
    }

    /// Takes the partial signature of the signer `key`, as
    /// `partial_taken_outcome` states.
    pub fn add_partial_signature(&mut self, partial: [u8; 32], key: &PublicKey) -> (r: Result<(), Error>)
        requires
            old(self).wf(),
        ensures
            final(self).wf(),
            partial_taken_outcome(*old(self), *final(self), partial, *key, r),
    {
        if self.aborted {
            return Err(Error::new(ErrorKind::InvalidInput));
        }
        if !self.nonces_in() {
            return Err(Error::new(ErrorKind::PartialNotReady));
        }
        let i = match self.find_signer(key) {
            Some(i) => i,
            None => return Err(Error::new(ErrorKind::InvalidInput)),
        };
        let e = match self.challenge() {
            Some(e) => e,
            None => return Err(Error::new(ErrorKind::InvalidSignature)),
        };
        let mut st = self.signers[i];
        proof {
            assert(self.signers@[i as int].nonce is Some);
            lemma_signer_pos_key(self.signers@, key@, 0);
        }
        let nonce = st.nonce.unwrap();
        let checks = match multiply_base(&partial) {
            Some(lhs) => match multiply_point(&st.public_key, &e) {
                Some(ex) => match combine_points(&nonce, &ex) {
                    Some(rhs) => {
                        let eq = same_bytes(&lhs, &rhs);
                        proof {
                            if base_mul(partial@) == point_add(nonce@, ex@) {
                                assert(lhs@ == rhs@);
                            }
                        }
                        eq
                    },
                    None => false,
                },
                None => false,
            },
            None => false,
        };
        if !checks {
            self.aborted = true;
            return Err(Error::new(ErrorKind::InvalidSignature));
        }
        match st.partial_signature {
            Some(p) => {
                if !same_bytes(&p, &partial) {
                    proof {
                        if p == partial {
                            assert(p@ == partial@);
                        }
                    }
                    self.aborted = true;
                    return Err(Error::new(ErrorKind::InvalidInput));
                }
                proof {
                    assert(p =~= partial);
                }
            },
            None => {},
        }
        st.partial_signature = Some(partial);
        self.signers.set(i, st);
        Ok(())
    }

    /// The aggregate signature `(R, s)`, as `signature_outcome` states: it
    /// is handed out only when it verifies under the aggregate key.
    pub fn signature(&self) -> (r: Result<SchnorrSignature, Error>)
        requires
            self.wf(),
        ensures
            signature_outcome(*self, r),
    {
        if self.aborted {
            return Err(Error::new(ErrorKind::InvalidInput));
        }
        if !self.nonces_in() || !self.partials_in() {
            return Err(Error::new(ErrorKind::PartialNotReady));
        }
        let big_r = match self.nonce_sum() {
            Some(p) => p,
            None => return Err(Error::new(ErrorKind::InvalidSignature)),
        };
        let ghost ks = partials_of(self.signers@);
        proof {
            assert(self.signers@[0].partial_signature is Some);
            assert(ks.take(1) =~= seq![ks[0]]);
        }
        let mut acc = self.signers[0].partial_signature.unwrap();
        let mut i: usize = 1;
        while i < self.signers.len()
            invariant
                1 <= i <= self.signers@.len(),
                all_nonces(self.signers@),
                all_partials(self.signers@),
                !self.aborted,
                points_sum(nonces_of(self.signers@)) == Some(big_r@),
                ks == partials_of(self.signers@),
                scalars_sum(ks.take(i as int)) == Some(acc@),
            decreases self.signers.len() - i,
        {
            proof {
                assert(ks.take(i as int + 1).drop_last() =~= ks.take(i as int));
                assert(self.signers@[i as int].partial_signature is Some);
            }
            let p = self.signers[i].partial_signature.unwrap();
            match add_scalars(&acc, &p) {
                Some(x) => {
                    acc = x;
                },
                None => {
                    proof {
                        lemma_scalars_sum_prefix_none(ks, i as int + 1);
                    }
                    return Err(Error::new(ErrorKind::InvalidSignature));
                },
            }
            i = i + 1;
        }
        proof {
            assert(ks.take(i as int) =~= ks);
        }
        let sig = SchnorrSignature { r: big_r, s: acc };
        let x = match self.key_sum() {
            Some(x) => x,
            None => return Err(Error::new(ErrorKind::InvalidSignature)),
        };
        proof {
            let a = arr33(big_r@);
            assert(a =~= big_r);
            let b = arr32(acc@);
            assert(b =~= acc);
        }
        if !verify_signature(&x, &self.message, &sig) {
            return Err(Error::new(ErrorKind::InvalidSignature));
        }
        Ok(sig)
    }
}

/// `t` is `s` with its signers and abort flag as given, all else kept.
pub open spec fn same_but(s: MultiSigSession, t: MultiSigSession) -> bool {
    &&& t.id == s.id
    &&& t.message == s.message
    &&& t.self_index == s.self_index
    &&& t.private_key_spec() == s.private_key_spec()
    &&& t.secret_nonce_spec() == s.secret_nonce_spec()
    &&& t.passphrase_spec() == s.passphrase_spec()
}

/// `t` is `s` unchanged.
pub open spec fn kept(s: MultiSigSession, t: MultiSigSession) -> bool {
    same_but(s, t) && t.signers@ == s.signers@ && t.aborted == s.aborted
}

/// `t` is `s` aborted, its contributions kept.
pub open spec fn aborts(s: MultiSigSession, t: MultiSigSession) -> bool {
    same_but(s, t) && t.signers@ == s.signers@ && t.aborted
}

/// `t` is `s` with the signer at `i` replaced by `st`, still running.
pub open spec fn takes(s: MultiSigSession, t: MultiSigSession, i: int, st: SignerState) -> bool {
    same_but(s, t) && t.signers@ == s.signers@.update(i, st) && !t.aborted
}

/// `r` is the error of kind `k`.
pub open spec fn fails_with<T>(r: Result<T, Error>, k: ErrorKind) -> bool {
    r matches Err(e) && e.kind == k
}

/// Taking a nonce commitment: refused (`InvalidInput`) on an aborted
/// session or for a key that is not a signer's; a commitment that differs
/// from the signer's earlier one aborts the session (`InvalidInput`); else
/// it is taken (again, for the same one).
pub open spec fn commitment_outcome(
    s: MultiSigSession,
    t: MultiSigSession,
    commitment: H256,
    key: PublicKey,
    r: Result<(), Error>,
) -> bool {
    if s.aborted {
        fails_with(r, ErrorKind::InvalidInput) && kept(s, t)
    } else {
        match signer_pos(s.signers@, key@, 0) {
            None => fails_with(r, ErrorKind::InvalidInput) && kept(s, t),
            Some(i) => if conflicts(s.signers@[i].nonce_commitment, commitment) {
                fails_with(r, ErrorKind::InvalidInput) && aborts(s, t)
            } else {
                r is Ok && takes(s, t, i, with_commitment(s.signers@[i], commitment))
            },
        }
    }
}

/// Revealing this signer's nonce: only once every signer has committed.
pub open spec fn nonce_outcome(s: MultiSigSession, r: Result<PublicKey, Error>) -> bool {
    if s.aborted {
        fails_with(r, ErrorKind::InvalidInput)
    } else if !all_committed(s.signers@) {
        fails_with(r, ErrorKind::NonceNotReady)
    } else {
        r matches Ok(n) && s.signers@[s.self_index as int].nonce == Some(n)
    }
}

/// Taking a nonce: refused before every signer has committed
/// (`NonceNotReady`, session kept) and for a key that is not a signer's
/// (`InvalidInput`); a nonce that does not hash to the signer's commitment
/// aborts the session (`InvalidNonce`), and so does one that differs from
/// the signer's earlier nonce (`InvalidInput`); else it is taken.
pub open spec fn nonce_taken_outcome(
    s: MultiSigSession,
    t: MultiSigSession,
    nonce: PublicKey,
    key: PublicKey,
    r: Result<(), Error>,
) -> bool {
    if s.aborted {
        fails_with(r, ErrorKind::InvalidInput) && kept(s, t)
    } else if !all_committed(s.signers@) {
        fails_with(r, ErrorKind::NonceNotReady) && kept(s, t)
    } else {
        match signer_pos(s.signers@, key@, 0) {
            None => fails_with(r, ErrorKind::InvalidInput) && kept(s, t),
            Some(i) => if s.signers@[i].nonce_commitment->Some_0@ != blake2s_of(nonce@) {
                fails_with(r, ErrorKind::InvalidNonce) && aborts(s, t)
            } else if conflicts(s.signers@[i].nonce, nonce) {
                fails_with(r, ErrorKind::InvalidInput) && aborts(s, t)
            } else {
                r is Ok && takes(s, t, i, with_nonce(s.signers@[i], nonce))
            },
        }
    }
}

/// This signer's partial signature `r + e·x`: refused before every nonce is
/// in (`PartialNotReady`); `InvalidSignature` when an aggregate or the
/// scalar arithmetic fails; else computed and taken.
pub open spec fn partial_outcome(s: MultiSigSession, t: MultiSigSession, r: Result<[u8; 32], Error>) -> bool {
    if s.aborted {
        fails_with(r, ErrorKind::InvalidInput) && kept(s, t)
    } else if !all_nonces(s.signers@) {
        fails_with(r, ErrorKind::PartialNotReady) && kept(s, t)
    } else {
        match session_challenge(s.signers@, s.message@) {
            None => fails_with(r, ErrorKind::InvalidSignature) && kept(s, t),
            Some(e) => match partial_of(s.secret_nonce_spec()@, e, s.private_key_spec()@) {
                None => fails_with(r, ErrorKind::InvalidSignature) && kept(s, t),
                Some(p) => r matches Ok(x) && x@ == p && takes(
                    s,
                    t,
                    s.self_index as int,
                    with_partial(s.signers@[s.self_index as int], x),
                ),
            },
        }
    }
}

/// Taking a partial signature: refused before every nonce is in
/// (`PartialNotReady`), for a key that is not a signer's (`InvalidInput`),
/// or when an aggregate fails (`InvalidSignature`); one that does not check
/// against the signer's key and nonce aborts the session
/// (`InvalidSignature`), and so does one that differs from the signer's
/// earlier one (`InvalidInput`); else it is taken.
pub open spec fn partial_taken_outcome(
    s: MultiSigSession,
    t: MultiSigSession,
    partial: [u8; 32],
    key: PublicKey,
    r: Result<(), Error>,
) -> bool {
    if s.aborted {
        fails_with(r, ErrorKind::InvalidInput) && kept(s, t)
    } else if !all_nonces(s.signers@) {
        fails_with(r, ErrorKind::PartialNotReady) && kept(s, t)
    } else {
        match signer_pos(s.signers@, key@, 0) {
            None => fails_with(r, ErrorKind::InvalidInput) && kept(s, t),
            Some(i) => match session_challenge(s.signers@, s.message@) {
                None => fails_with(r, ErrorKind::InvalidSignature) && kept(s, t),
                Some(e) => if !partial_verifies(key@, s.signers@[i].nonce->Some_0@, e, partial@) {
                    fails_with(r, ErrorKind::InvalidSignature) && aborts(s, t)
                } else if conflicts(s.signers@[i].partial_signature, partial) {
                    fails_with(r, ErrorKind::InvalidInput) && aborts(s, t)
                } else {
                    r is Ok && takes(s, t, i, with_partial(s.signers@[i], partial))
                },
            },
        }
    }
}

/// The aggregate signature: refused until every nonce and partial signature
/// is in (`PartialNotReady`); `(R, s)` with `R` the sum of the nonces and
/// `s` the sum of the partial signatures when it verifies on the message
/// under the sum of the signers' keys, else `InvalidSignature`.
pub open spec fn signature_outcome(s: MultiSigSession, r: Result<SchnorrSignature, Error>) -> bool {
    if s.aborted {
        fails_with(r, ErrorKind::InvalidInput)
    } else if !(all_nonces(s.signers@) && all_partials(s.signers@)) {
        fails_with(r, ErrorKind::PartialNotReady)
    } else {
        match (
            points_sum(nonces_of(s.signers@)),
            scalars_sum(partials_of(s.signers@)),
            points_sum(keys_of(s.signers@)),
        ) {
            (Some(big_r), Some(sum), Some(x)) => {
                let sig = SchnorrSignature { r: arr33(big_r), s: arr32(sum) };
                if verifies(x, s.message@, sig) {
                    r == Ok::<SchnorrSignature, Error>(sig)
                } else {
                    fails_with(r, ErrorKind::InvalidSignature)
                }
            },
            _ => fails_with(r, ErrorKind::InvalidSignature),
        }
    }
}

/// The 33-byte array that holds `b`.
pub open spec fn arr33(b: Seq<u8>) -> PublicKey {
    choose|a: PublicKey| a@ == b
}

/// The 32-byte array that holds `b`.
pub open spec fn arr32(b: Seq<u8>) -> [u8; 32] {
    choose|a: [u8; 32]| a@ == b
}

/// The first signer found with a key holds that key.
proof fn lemma_signer_pos_key(ss: Seq<SignerState>, key: Seq<u8>, i: int)
    ensures
        signer_pos(ss, key, i) matches Some(j) ==> 0 <= j < ss.len() && ss[j].public_key@ == key,
    decreases ss.len() - i,
{
    if 0 <= i < ss.len() {
        lemma_signer_pos_key(ss, key, i + 1);
    }
}

} // verus!
