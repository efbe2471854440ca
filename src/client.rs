//! The wallet client: the wallet store, the transaction index and the
//! transaction builder behind one interface. Each of the three is a
//! capability that the client may lack; a call that needs a missing one is
//! refused with `PermissionDenied`.
use vstd::prelude::*;
use crate::balance::TransactionChange;
use crate::coin::{total, Coin};
use crate::encoding::{enc_transaction, encode_transaction};
use crate::error::{Error, ErrorKind};
use crate::index::{
    balances_of, history_of, joined_history, joined_unspent, total_balance, unspent_of,
    AddressDetails, Index, UnauthorizedIndex,
};
use crate::keys::{redeem_address, redeem_address_of};
use crate::merkle::{proves, steps, MerkleProof};
use crate::or_tree::{key_bytes, or_tree_root, sorted_keys_of, subset_leaf, subset_leaves};
use crate::transaction::{
    build_outcome, build_transaction, needed_of, pays, unspent_total, InputSelectionStrategy,
    Transaction, TxAttributes,
};
use crate::types::{
    ExtendedAddr, PrivateKey, PublicKey, RedeemAddress, StakedStateAddress, TxOut, TxoPointer,
    H256,
};
use crate::wallet::{
    stored_pair, with_key, open_root, open_session, open_wallet, session_pos, transfer_addresses_of, valid_multisig,
    MemoryStorage, WalletRecord,
};
use crate::multisig::{
    commitment_outcome, fails_with, nonce_outcome, session_id_of, nonce_taken_outcome, partial_outcome,
    partial_taken_outcome, signature_outcome, MultiSigSession,
};
use crate::schnorr::{
    base_mul, challenge, compute_challenge, partial_of, partial_signature, verifies,
    verify_signature, SchnorrSignature,
};
use crate::keys::generate_keypair;

verus! {

/// What builds transactions for the client: the fee that each one pays.
#[derive(Clone, Copy, Debug, PartialEq, Eq)]
pub struct TransactionBuilder {
    pub fee: Coin,
}

impl TransactionBuilder {
    pub fn new(fee: Coin) -> (r: TransactionBuilder)
        ensures
            r.fee == fee,
    {
        TransactionBuilder { fee }
    }
}

/// A wallet client, with each of its capabilities present or not.
pub struct DefaultWalletClient<I: Index> {
    storage: Option<MemoryStorage>,
    index: I,
    index_set: bool,
    transaction_builder: Option<TransactionBuilder>,
}

/// Collects a client's capabilities. Building checks that writing comes
/// with reading, and reading with the wallet store.
pub struct DefaultWalletClientBuilder<I: Index> {
    storage: Option<MemoryStorage>,
    index: I,
    index_set: bool,
    transaction_builder: Option<TransactionBuilder>,
}

/// The combinations of capabilities that make a client: none of reading
/// and writing, or the store together with reading.
pub open spec fn valid_capabilities(storage_set: bool, index_set: bool, write_set: bool) -> bool {
    (!index_set && !write_set) || (storage_set && index_set)
}

/// The wallet `name` opened with `passphrase` through an optional store.
pub open spec fn read_wallet(storage: Option<MemoryStorage>, name: Seq<char>, passphrase: Seq<char>) -> Result<
    WalletRecord,
    ErrorKind,
> {
    match storage {
        None => Err(ErrorKind::PermissionDenied),
        Some(s) => open_wallet(s.wallets_spec(), name, passphrase),
    }
}

impl DefaultWalletClient<UnauthorizedIndex> {
    /// A builder with no capability yet.
    pub fn builder() -> (r: DefaultWalletClientBuilder<UnauthorizedIndex>)
        ensures
            r.storage_spec() is None,
            !r.index_set_spec(),
            r.transaction_builder_spec() is None,
    {
        DefaultWalletClientBuilder {
            storage: None,
            index: UnauthorizedIndex,
            index_set: false,
            transaction_builder: None,
        }
    }
}

impl<I: Index> DefaultWalletClientBuilder<I> {
    pub closed spec fn storage_spec(&self) -> Option<MemoryStorage> {
        self.storage
    }

    pub closed spec fn index_set_spec(&self) -> bool {
        self.index_set
    }

    /// The index collected so far.
    pub closed spec fn index_spec(&self) -> I {
        self.index
    }

    pub closed spec fn transaction_builder_spec(&self) -> Option<TransactionBuilder> {
        self.transaction_builder
    }

    /// Adds the wallet store: keys, addresses and their storage.
    pub fn with_wallet(self, storage: MemoryStorage) -> (r: DefaultWalletClientBuilder<I>)
        ensures
            r.storage_spec() == Some(storage),
            r.index_set_spec() == self.index_set_spec(),
            r.index_spec() == self.index_spec(),
            r.transaction_builder_spec() == self.transaction_builder_spec(),
    {
        DefaultWalletClientBuilder {
            storage: Some(storage),
            index: self.index,
            index_set: self.index_set,
            transaction_builder: self.transaction_builder,
        }
    }

    /// Adds reading: balances and histories through `index`.
    pub fn with_transaction_read<NI: Index>(self, index: NI) -> (r: DefaultWalletClientBuilder<NI>)
        ensures
            r.storage_spec() == self.storage_spec(),
            r.index_set_spec(),
            r.index_spec() == index,
            r.transaction_builder_spec() == self.transaction_builder_spec(),
    {
        DefaultWalletClientBuilder {
            storage: self.storage,
            index,
            index_set: true,
            transaction_builder: self.transaction_builder,
        }
    }

    /// Adds writing: the creation of transactions.
    pub fn with_transaction_write(self, transaction_builder: TransactionBuilder) -> (r: DefaultWalletClientBuilder<I>)
        ensures
            r.storage_spec() == self.storage_spec(),
            r.index_set_spec() == self.index_set_spec(),
            r.index_spec() == self.index_spec(),
            r.transaction_builder_spec() == Some(transaction_builder),
    {
        DefaultWalletClientBuilder {
            storage: self.storage,
            index: self.index,
            index_set: self.index_set,
            transaction_builder: Some(transaction_builder),
        }
    }

    /// The client with the capabilities collected; `InvalidInput` when they
    /// do not form a valid combination.
    pub fn build(self) -> (r: Result<DefaultWalletClient<I>, Error>)
        requires
            self.storage_spec() matches Some(s) ==> s.wf(),
        ensures
            valid_capabilities(
                self.storage_spec() is Some,
                self.index_set_spec(),
                self.transaction_builder_spec() is Some,
            ) ==> (r matches Ok(c) && c.storage_spec() == self.storage_spec()
                && c.index_spec() == self.index_spec() && c.index_set_spec() == self.index_set_spec()
                && c.transaction_builder_spec() == self.transaction_builder_spec() && c.wf()),
            !valid_capabilities(
                self.storage_spec() is Some,
                self.index_set_spec(),
                self.transaction_builder_spec() is Some,
            ) ==> (r matches Err(e) && e.kind == ErrorKind::InvalidInput),
    {
        let storage_set = self.storage.is_some();
        let write_set = self.transaction_builder.is_some();
        if (!self.index_set && !write_set) || (storage_set && self.index_set) {
            Ok(
                DefaultWalletClient {
                    storage: self.storage,
                    index: self.index,
                    index_set: self.index_set,
                    transaction_builder: self.transaction_builder,
                },
            )
        } else {
            Err(Error::new(ErrorKind::InvalidInput))
        }
    }
}

/// The two stores hold the same wallets, keys, roots and sessions.
pub open spec fn same_store(a: MemoryStorage, b: MemoryStorage) -> bool {
    &&& b.wallets_spec() == a.wallets_spec()
    &&& b.keys_spec() == a.keys_spec()
    &&& b.roots_spec() == a.roots_spec()
    &&& b.sessions_spec() == a.sessions_spec()
}

/// Where the session `id` stands in the store.
pub open spec fn session_at(st: MemoryStorage, id: Seq<u8>) -> int {
    session_pos(st.sessions_spec(), id, 0)->Some_0
}

/// `b` is `a` with at most the session `id` replaced.
pub open spec fn session_step(a: MemoryStorage, b: MemoryStorage, id: Seq<u8>) -> bool {
    &&& b.wallets_spec() == a.wallets_spec()
    &&& b.keys_spec() == a.keys_spec()
    &&& b.roots_spec() == a.roots_spec()
    &&& b.sessions_spec().len() == a.sessions_spec().len()
    &&& forall|j: int|
        0 <= j < a.sessions_spec().len() && j != session_at(a, id) ==> b.sessions_spec()[j]
            == a.sessions_spec()[j]
}

/// `after` is `before` with one more session, `id`, new to the store: the
/// commit round of `self_key` among `signers` on `message`.
pub open spec fn started(
    before: MemoryStorage,
    after: Option<MemoryStorage>,
    id: H256,
    message: H256,
    signers: Seq<PublicKey>,
    self_key: PublicKey,
    self_private_key: PrivateKey,
    passphrase: Seq<char>,
) -> bool {
    after matches Some(t) && {
        let s = t.sessions_spec().last();
        &&& session_pos(before.sessions_spec(), id@, 0) is None
        &&& t.wallets_spec() == before.wallets_spec()
        &&& t.keys_spec() == before.keys_spec()
        &&& t.roots_spec() == before.roots_spec()
        &&& t.sessions_spec().len() == before.sessions_spec().len() + 1
        &&& t.sessions_spec().drop_last() == before.sessions_spec()
        &&& s.id == id && s.message == message && !s.aborted && s.passphrase_spec() == passphrase
        &&& s.signers@[s.self_index as int].nonce matches Some(n) && id@ == session_id_of(message@, n@)
        &&& s.private_key_spec() == self_private_key
        &&& s.signers@.len() == signers.len()
        &&& s.signers@[s.self_index as int].public_key == self_key
        &&& s.signers@[s.self_index as int].nonce_commitment is Some
        &&& forall|i: int|
            0 <= i < signers.len() ==> (#[trigger] s.signers@[i]).public_key == signers[i]
                && (i != s.self_index ==> s.signers@[i].nonce_commitment is None
                && s.signers@[i].nonce is None) && s.signers@[i].partial_signature is None
    }
}

impl<I: Index> DefaultWalletClient<I> {
    pub closed spec fn storage_spec(&self) -> Option<MemoryStorage> {
        self.storage
    }

    /// The index the client reads through.
    pub closed spec fn index_spec(&self) -> I {
        self.index
    }

    /// Whether the client was given an index.
    pub closed spec fn index_set_spec(&self) -> bool {
        self.index_set
    }

    pub closed spec fn transaction_builder_spec(&self) -> Option<TransactionBuilder> {
        self.transaction_builder
    }

    /// The store, when present, keeps its invariant.
    pub closed spec fn wf(&self) -> bool {
        self.storage matches Some(s) ==> s.wf()
    }

    /// The wallet store, when the client has one, and the index.
    pub fn into_parts(self) -> (r: (Option<MemoryStorage>, I))
        ensures
            r.0 == self.storage_spec(),
            r.1 == self.index_spec(),
    {
        (self.storage, self.index)
    }

    /// The names of the wallets.
    pub fn wallets(&self) -> (r: Result<Vec<String>, Error>)
        ensures
            match self.storage_spec() {
                None => r matches Err(e) && e.kind == ErrorKind::PermissionDenied,
                Some(s) => r matches Ok(names) && names@.len() == s.wallets_spec().len() && forall|
                    i: int,
                | 0 <= i < names@.len() ==> names@[i]@ == s.wallets_spec()[i].name@,
            },
    {
        match &self.storage {
            None => Err(Error::new(ErrorKind::PermissionDenied)),
            Some(s) => Ok(s.names()),
        }
    }

    /// Creates the wallet `name` under `passphrase`, with a fresh view key.
    pub fn new_wallet(&mut self, name: &str, passphrase: &str) -> (r: Result<(), Error>)
        requires
            old(self).wf(),
        ensures
            final(self).wf(),
            final(self).transaction_builder_spec() == old(self).transaction_builder_spec(),
            match old(self).storage_spec() {
                None => (r matches Err(e) && e.kind == ErrorKind::PermissionDenied)
                    && final(self).storage_spec() is None,
                Some(s) => final(self).storage_spec() matches Some(t) && (crate::wallet::wallet_pos(
                    s.wallets_spec(),
                    name@,
                    0,
                ) is None <==> r is Ok) && (r matches Err(e) ==> e.kind == ErrorKind::InvalidInput)
                    && (r is Ok ==> t.wallets_spec().len() == s.wallets_spec().len() + 1
                    && t.wallets_spec().drop_last() == s.wallets_spec()
                    && t.wallets_spec().last().name@ == name@
                    && t.wallets_spec().last().passphrase@ == passphrase@
                    && t.wallets_spec().last().public_keys@.len() == 0
                    && t.wallets_spec().last().root_hashes@.len() == 0
                    && t.wallets_spec().last().staking_addresses@.len() == 0
                    && (read_wallet(Some(t), name@, passphrase@) matches Ok(w) && w
                        == t.wallets_spec().last()))
                    && (r is Ok ==> stored_pair(
                        t.keys_spec(),
                        t.wallets_spec().last().view_key,
                        t.keys_spec()[crate::wallet::key_pos(t.keys_spec(), t.wallets_spec().last().view_key@, 0)->Some_0].private_key,
                        passphrase@,
                    ))
                    && t.roots_spec() == s.roots_spec() && t.sessions_spec() == s.sessions_spec()
                    && (r is Err ==> t.wallets_spec() == s.wallets_spec()),
            },
    {
        match &mut self.storage {
            None => Err(Error::new(ErrorKind::PermissionDenied)),
            Some(s) => {
                let (view_key, _) = s.generate_keypair(passphrase);
                let ghost before = s.wallets_spec();
                let r = s.create(name, passphrase, view_key);
                proof {
                    if r is Ok {
                        assert(s.wallets_spec().drop_last() =~= before);
                        assert(s.wallets_spec() =~= before.push(s.wallets_spec().last()));
                        crate::wallet::lemma_wallet_pos_push(before, s.wallets_spec().last(), name@, 0);
                    }
                }
                r
            },
        }
    }

    /// The view key of the wallet.
    pub fn view_key(&self, name: &str, passphrase: &str) -> (r: Result<PublicKey, Error>)
        ensures
            match read_wallet(self.storage_spec(), name@, passphrase@) {
                Ok(w) => r == Ok::<PublicKey, Error>(w.view_key),
                Err(k) => r matches Err(e) && e.kind == k,
            },
    {
        match &self.storage {
            None => Err(Error::new(ErrorKind::PermissionDenied)),
            Some(s) => s.view_key(name, passphrase),
        }
    }

    /// The public keys of the wallet.
    pub fn public_keys(&self, name: &str, passphrase: &str) -> (r: Result<Vec<PublicKey>, Error>)
        ensures
            match read_wallet(self.storage_spec(), name@, passphrase@) {
                Ok(w) => r matches Ok(v) && v@ == w.public_keys@,
                Err(k) => r matches Err(e) && e.kind == k,
            },
    {
        match &self.storage {
            None => Err(Error::new(ErrorKind::PermissionDenied)),
            Some(s) => s.public_keys(name, passphrase),
        }
    }

    /// The multi-signature root hashes of the wallet.
    pub fn root_hashes(&self, name: &str, passphrase: &str) -> (r: Result<Vec<H256>, Error>)
        ensures
            match read_wallet(self.storage_spec(), name@, passphrase@) {
                Ok(w) => r matches Ok(v) && v@ == w.root_hashes@,
                Err(k) => r matches Err(e) && e.kind == k,
            },
    {
        match &self.storage {
            None => Err(Error::new(ErrorKind::PermissionDenied)),
            Some(s) => s.root_hashes(name, passphrase),
        }
    }

    /// The staking addresses of the wallet.
    pub fn staking_addresses(&self, name: &str, passphrase: &str) -> (r: Result<Vec<StakedStateAddress>, Error>)
        ensures
            match read_wallet(self.storage_spec(), name@, passphrase@) {
                Ok(w) => r matches Ok(v) && v@ == w.staking_addresses@,
                Err(k) => r matches Err(e) && e.kind == k,
            },
    {
        match &self.storage {
            None => Err(Error::new(ErrorKind::PermissionDenied)),
            Some(s) => s.staking_addresses(name, passphrase),
        }
    }

    /// The transfer addresses of the wallet.
    pub fn transfer_addresses(&self, name: &str, passphrase: &str) -> (r: Result<Vec<ExtendedAddr>, Error>)
        ensures
            match read_wallet(self.storage_spec(), name@, passphrase@) {
                Ok(w) => r matches Ok(v) && v@ == transfer_addresses_of(w.root_hashes@),
                Err(k) => r matches Err(e) && e.kind == k,
            },
    {
        match &self.storage {
            None => Err(Error::new(ErrorKind::PermissionDenied)),
            Some(s) => s.transfer_addresses(name, passphrase),
        }
    }

    /// The public key of the wallet whose staking address is `address`.
    pub fn find_public_key(&self, name: &str, passphrase: &str, address: &RedeemAddress) -> (r: Result<Option<PublicKey>, Error>)
        ensures
            match read_wallet(self.storage_spec(), name@, passphrase@) {
                Ok(w) => r matches Ok(found) && match found {
                    Some(k) => w.public_keys@.contains(k) && redeem_address_of(k@) == address.0@,
                    None => forall|j: int|
                        0 <= j < w.public_keys@.len() ==> redeem_address_of(
                            #[trigger] w.public_keys@[j]@,
                        ) != address.0@,
                },
                Err(k) => r matches Err(e) && e.kind == k,
            },
    {
        match &self.storage {
            None => Err(Error::new(ErrorKind::PermissionDenied)),
            Some(s) => s.find_public_key(name, passphrase, address),
        }
    }

    /// The root hash of the wallet behind `address`, if the wallet holds it.
    pub fn find_root_hash(&self, name: &str, passphrase: &str, address: &ExtendedAddr) -> (r: Result<Option<H256>, Error>)
        ensures
            match read_wallet(self.storage_spec(), name@, passphrase@) {
                Ok(w) => r matches Ok(found) && (w.root_hashes@.contains(
                    crate::wallet::arr32(address.root_spec()),
                ) ==> found == Some(crate::wallet::arr32(address.root_spec()))) && (
                !w.root_hashes@.contains(crate::wallet::arr32(address.root_spec())) ==> found is None),
                Err(k) => r matches Err(e) && e.kind == k,
            },
    {
        match &self.storage {
            None => Err(Error::new(ErrorKind::PermissionDenied)),
            Some(s) => s.find_root_hash(name, passphrase, address),
        }
    }

    /// The private key of `public_key`, if the store holds the pair.
    pub fn private_key(&self, passphrase: &str, public_key: &PublicKey) -> (r: Result<Option<PrivateKey>, Error>)
        ensures
            match self.storage_spec() {
                None => r matches Err(e) && e.kind == ErrorKind::PermissionDenied,
                Some(s) => match crate::wallet::key_pos(s.keys_spec(), public_key@, 0) {
                    None => r == Ok::<Option<PrivateKey>, Error>(None),
                    Some(i) => if s.keys_spec()[i].passphrase@ == passphrase@ {
                        r == Ok::<Option<PrivateKey>, Error>(Some(s.keys_spec()[i].private_key))
                    } else {
                        r matches Err(e) && e.kind == ErrorKind::PermissionDenied
                    },
                },
            },
    {
        match &self.storage {
            None => Err(Error::new(ErrorKind::PermissionDenied)),
            Some(s) => s.private_key(public_key, passphrase),
        }
    }

    /// Generates a key pair and adds its public key to the wallet.
    pub fn new_public_key(&mut self, name: &str, passphrase: &str) -> (r: Result<PublicKey, Error>)
        requires
            old(self).wf(),
        ensures
            final(self).wf(),
            final(self).transaction_builder_spec() == old(self).transaction_builder_spec(),
            match read_wallet(old(self).storage_spec(), name@, passphrase@) {
                Ok(w) => r matches Ok(k) && (read_wallet(final(self).storage_spec(), name@, passphrase@)
                    matches Ok(w2) && w2.public_keys@ == with_key(w.public_keys@, k)
                    && w2.root_hashes@ == w.root_hashes@ && w2.staking_addresses@
                    == w.staking_addresses@) && (final(self).storage_spec() matches Some(t) && {
                    let s = old(self).storage_spec()->Some_0;
                    &&& crate::wallet::key_pos(t.keys_spec(), k@, 0) matches Some(i)
                    &&& t.keys_spec()[i].public_key == k
                    &&& base_mul(t.keys_spec()[i].private_key@) == Some(k@)
                    &&& t.keys_spec()[i].passphrase@ == passphrase@
                    &&& t.roots_spec() == s.roots_spec()
                    &&& t.sessions_spec() == s.sessions_spec()
                }),
                Err(k) => r matches Err(e) && e.kind == k,
            },
    {
        match &mut self.storage {
            None => Err(Error::new(ErrorKind::PermissionDenied)),
            Some(s) => {
                let (public_key, _) = s.generate_keypair(passphrase);
                let ghost before = *s;
                s.add_public_key(name, passphrase, &public_key)?;
                proof {
                    crate::wallet::lemma_open_updated(before.wallets_spec(), s.wallets_spec(), name@, passphrase@);
                }
                Ok(public_key)
            },
        }
    }

    /// Generates a key pair, adds its public key to the wallet, and adds and
    /// returns the key's staking address.
    pub fn new_staking_address(&mut self, name: &str, passphrase: &str) -> (r: Result<StakedStateAddress, Error>)
        requires
            old(self).wf(),
        ensures
            final(self).wf(),
            final(self).transaction_builder_spec() == old(self).transaction_builder_spec(),
            match read_wallet(old(self).storage_spec(), name@, passphrase@) {
                Ok(w) => r matches Ok(StakedStateAddress::BasicRedeem(a)) && (read_wallet(
                    final(self).storage_spec(),
                    name@,
                    passphrase@,
                ) matches Ok(w2) && (exists|k: PublicKey|
                    w2.public_keys@ == #[trigger] with_key(w.public_keys@, k) && a.0@
                        == redeem_address_of(k@)) && w2.staking_addresses@ == w.staking_addresses@.push(
                    StakedStateAddress::BasicRedeem(a),
                )),
                Err(k) => r matches Err(e) && e.kind == k,
            },
    {
        let public_key = self.new_public_key(name, passphrase)?;
        let address = StakedStateAddress::BasicRedeem(redeem_address(&public_key));
        match &mut self.storage {
            None => Err(Error::new(ErrorKind::PermissionDenied)),
            Some(s) => {
                let ghost before = *s;
                s.add_staking_address(name, passphrase, address)?;
                proof {
                    crate::wallet::lemma_open_updated(before.wallets_spec(), s.wallets_spec(), name@, passphrase@);
                    assert(before.wallets_spec().len() >= 0);
                }
                Ok(address)
            },
        }
    }

    /// Builds the `m`-of-`n` address over `public_keys` and adds it to the
    /// wallet; `InvalidInput` unless there are `n` keys, `self_public_key`
    /// among them, and `1 <= m <= n`.
    pub fn new_multisig_transfer_address(
        &mut self,
        name: &str,
        passphrase: &str,
        public_keys: Vec<PublicKey>,
        self_public_key: PublicKey,
        m: usize,
        n: usize,
    ) -> (r: Result<ExtendedAddr, Error>)
        requires
            old(self).wf(),
        ensures
            final(self).wf(),
            final(self).transaction_builder_spec() == old(self).transaction_builder_spec(),
            match read_wallet(old(self).storage_spec(), name@, passphrase@) {
                Ok(w) => if valid_multisig(public_keys@, self_public_key, m, n) {
                    r matches Ok(ExtendedAddr::OrTree(root)) && root@ == or_tree_root(
                        sorted_keys_of(public_keys@),
                        m as nat,
                    ) && (read_wallet(final(self).storage_spec(), name@, passphrase@) matches Ok(w2)
                        && w2.root_hashes@ == w.root_hashes@.push(root) && w2.public_keys@
                        == w.public_keys@) && (final(self).storage_spec() matches Some(t) && {
                        let s = old(self).storage_spec()->Some_0;
                        &&& open_root(t.roots_spec(), root@, passphrase@) matches Ok(rec)
                        &&& rec.root_hash == root && rec.signers@ == sorted_keys_of(public_keys@)
                        &&& rec.required == m && rec.passphrase@ == passphrase@
                        &&& t.keys_spec() == s.keys_spec()
                        &&& t.sessions_spec() == s.sessions_spec()
                    })
                } else {
                    r matches Err(e) && e.kind == ErrorKind::InvalidInput
                },
                Err(k) => r matches Err(e) && e.kind == k,
            },
            r is Err ==> final(self).storage_spec() == old(self).storage_spec(),
    {
        self.transfer_addresses(name, passphrase)?;
        match &mut self.storage {
            None => Err(Error::new(ErrorKind::PermissionDenied)),
            Some(s) => {
                let root = s.new_root_hash(&public_keys, &self_public_key, m, n, passphrase)?;
                let ghost before = *s;
                s.add_root_hash(name, passphrase, root)?;
                proof {
                    crate::wallet::lemma_open_updated(before.wallets_spec(), s.wallets_spec(), name@, passphrase@);
                }
                Ok(ExtendedAddr::OrTree(root))
            },
        }
    }

    /// Generates a key pair, adds its public key to the wallet, and adds the
    /// 1-of-1 address of that key.
    pub fn new_transfer_address(&mut self, name: &str, passphrase: &str) -> (r: Result<ExtendedAddr, Error>)
        requires
            old(self).wf(),
        ensures
            final(self).wf(),
            final(self).transaction_builder_spec() == old(self).transaction_builder_spec(),
            match read_wallet(old(self).storage_spec(), name@, passphrase@) {
                Ok(w) => r matches Ok(ExtendedAddr::OrTree(root)) && (read_wallet(
                    final(self).storage_spec(),
                    name@,
                    passphrase@,
                ) matches Ok(w2) && (exists|k: PublicKey|
                    w2.public_keys@ == #[trigger] with_key(w.public_keys@, k) && root@ == or_tree_root(
                        sorted_keys_of(seq![k]),
                        1,
                    )) && w2.root_hashes@ == w.root_hashes@.push(root)),
                Err(k) => r matches Err(e) && e.kind == k,
            },
    {
        let public_key = self.new_public_key(name, passphrase)?;
        let mut keys: Vec<PublicKey> = Vec::new();
        keys.push(public_key);
        proof {
            assert(keys@ =~= seq![public_key]);
            assert(keys@.contains(public_key)) by {
                assert(keys@[0] == public_key);
            }
        }
        self.new_multisig_transfer_address(name, passphrase, keys, public_key, 1, 1)
    }

    /// The proof that the subset `public_keys` may spend from `address`.
    pub fn generate_proof(
        &self,
        name: &str,
        passphrase: &str,
        address: &ExtendedAddr,
        public_keys: Vec<PublicKey>,
    ) -> (r: Result<MerkleProof, Error>)
        requires
            self.wf(),
        ensures
            match read_wallet(self.storage_spec(), name@, passphrase@) {
                Ok(w) => match open_root(
                    self.storage_spec()->Some_0.roots_spec(),
                    address.root_spec(),
                    passphrase@,
                ) {
                    Ok(rec) => (r matches Ok(p) ==> proves(address.root_spec(), p.leaf@, steps(p.path@))
                        && p.leaf@ == subset_leaf(sorted_keys_of(public_keys@))) && (r matches Err(e)
                        ==> e.kind == ErrorKind::InvalidInput) && (r is Ok <==> subset_leaves(
                        key_bytes(rec.signers@),
                        rec.required as nat,
                    ).contains(subset_leaf(sorted_keys_of(public_keys@)))),
                    Err(k) => r matches Err(e) && e.kind == k,
                },
                Err(k) => r matches Err(e) && e.kind == k,
            },
    {
        self.transfer_addresses(name, passphrase)?;
        match &self.storage {
            None => Err(Error::new(ErrorKind::PermissionDenied)),
            Some(s) => {
                let root = address.root();
                s.generate_proof(&root, &public_keys, passphrase)
            },
        }
    }

    /// How many signers the address `root_hash` requires.
    pub fn required_cosigners(&self, name: &str, passphrase: &str, root_hash: &H256) -> (r: Result<usize, Error>)
        ensures
            match read_wallet(self.storage_spec(), name@, passphrase@) {
                Ok(w) => match open_root(
                    self.storage_spec()->Some_0.roots_spec(),
                    root_hash@,
                    passphrase@,
                ) {
                    Ok(rec) => r == Ok::<usize, Error>(rec.required),
                    Err(k) => r matches Err(e) && e.kind == k,
                },
                Err(k) => r matches Err(e) && e.kind == k,
            },
    {
        self.transfer_addresses(name, passphrase)?;
        match &self.storage {
            None => Err(Error::new(ErrorKind::PermissionDenied)),
            Some(s) => s.required_signers(root_hash, passphrase),
        }
    }

    /// What the index reports of each address, in order.
    fn details_of(&self, addresses: &Vec<ExtendedAddr>) -> (r: Result<Vec<AddressDetails>, Error>)
        ensures
            r matches Ok(d) ==> d@.len() == addresses@.len(),
            addresses@.len() == 0 ==> (r matches Ok(d) && d@.len() == 0),
    {
        let mut details: Vec<AddressDetails> = Vec::new();
        let mut i: usize = 0;
        while i < addresses.len()
            invariant
                i <= addresses.len(),
                details@.len() == i,
            decreases addresses.len() - i,
        {
            let d = self.index.address_details(&addresses[i])?;
            details.push(d);
            i = i + 1;
        }
        Ok(details)
    }

    /// The balance of the wallet: the sum over its transfer addresses of what
    /// the index reports; `BalanceAdditionError` when the sum exceeds
    /// `MAX_COIN`. A wallet with no transfer address has balance 0.
    pub fn balance(&self, name: &str, passphrase: &str) -> (r: Result<Coin, Error>)
        ensures
            match read_wallet(self.storage_spec(), name@, passphrase@) {
                Ok(w) => (r matches Ok(c) ==> exists|d: Seq<AddressDetails>|
                    d.len() == w.root_hashes@.len() && c@ == total(#[trigger] balances_of(d)))
                    && (w.root_hashes@.len() == 0 ==> (r matches Ok(c) && c@ == 0)),
                Err(k) => r matches Err(e) && e.kind == k,
            },
    {
        let addresses = self.transfer_addresses(name, passphrase)?;
        let details = self.details_of(&addresses)?;
        proof {
            if details@.len() == 0 {
                assert(balances_of(details@) =~= Seq::<Coin>::empty());
            }
        }
        let r = total_balance(&details);
        proof {
            if r is Ok {
                assert(balances_of(details@) == balances_of(details@));
            }
        }
        r
    }

    /// The history of the wallet: the histories of its transfer addresses,
    /// one after the other; empty for a wallet with no transfer address.
    pub fn history(&self, name: &str, passphrase: &str) -> (r: Result<Vec<TransactionChange>, Error>)
        ensures
            match read_wallet(self.storage_spec(), name@, passphrase@) {
                Ok(w) => (r matches Ok(h) ==> exists|d: Seq<AddressDetails>|
                    d.len() == w.root_hashes@.len() && h@ == #[trigger] history_of(d))
                    && (w.root_hashes@.len() == 0 ==> (r matches Ok(h) && h@.len() == 0)),
                Err(k) => r matches Err(e) && e.kind == k,
            },
    {
        let addresses = self.transfer_addresses(name, passphrase)?;
        let details = self.details_of(&addresses)?;
        Ok(joined_history(&details))
    }

    /// The unspent outputs of the wallet's transfer addresses; none for a
    /// wallet with no transfer address.
    pub fn unspent_transactions(&self, name: &str, passphrase: &str) -> (r: Result<Vec<(TxoPointer, TxOut)>, Error>)
        ensures
            match read_wallet(self.storage_spec(), name@, passphrase@) {
                Ok(w) => (r matches Ok(u) ==> exists|d: Seq<AddressDetails>|
                    d.len() == w.root_hashes@.len() && u@ == #[trigger] unspent_of(d))
                    && (w.root_hashes@.len() == 0 ==> (r matches Ok(u) && u@.len() == 0)),
                Err(k) => r matches Err(e) && e.kind == k,
            },
    {
        let addresses = self.transfer_addresses(name, passphrase)?;
        let details = self.details_of(&addresses)?;
        Ok(joined_unspent(&details))
    }

    /// The output that `input` points to, as the index reports it.
    pub fn output(&self, input: &TxoPointer) -> (r: Result<TxOut, Error>)
        ensures
            !self.index_set_spec() ==> fails_with(r, ErrorKind::PermissionDenied),
    {
        if !self.index_set {
            return Err(Error::new(ErrorKind::PermissionDenied));
        }
        self.index.output(input)
    }

    /// A transaction from the wallet that pays `outputs` and the builder's
    /// fee, from the wallet's unspent outputs as the index reports them,
    /// picked largest first, with the change to `return_address`; the
    /// outcome is `build_transaction`'s on that list. Needs the write
    /// capability (`PermissionDenied` without it).
    pub fn create_transaction(
        &self,
        name: &str,
        passphrase: &str,
        outputs: Vec<TxOut>,
        attributes: TxAttributes,
        input_selection_strategy: Option<InputSelectionStrategy>,
        return_address: ExtendedAddr,
    ) -> (r: Result<Transaction, Error>)
        ensures
            match read_wallet(self.storage_spec(), name@, passphrase@) {
                Ok(w) => match self.transaction_builder_spec() {
                    None => r matches Err(e) && (w.root_hashes@.len() == 0 ==> e.kind
                        == ErrorKind::PermissionDenied),
                    Some(b) => (r is Ok ==> exists|d: Seq<AddressDetails>|
                        d.len() == w.root_hashes@.len() && build_outcome(
                            #[trigger] unspent_of(d),
                            outputs@,
                            attributes,
                            b.fee,
                            return_address,
                            r,
                        )) && (w.root_hashes@.len() == 0 ==> build_outcome(
                        Seq::empty(),
                        outputs@,
                        attributes,
                        b.fee,
                        return_address,
                        r,
                    )),
                },
                Err(k) => r matches Err(e) && e.kind == k,
            },
    {
        let addresses = self.transfer_addresses(name, passphrase)?;
        let details = self.details_of(&addresses)?;
        let unspent = joined_unspent(&details);
        proof {
            if details@.len() == 0 {
                assert(unspent@ =~= Seq::<(TxoPointer, TxOut)>::empty());
            }
        }
        match self.transaction_builder {
            None => Err(Error::new(ErrorKind::PermissionDenied)),
            Some(b) => {
                let r = build_transaction(&unspent, outputs, attributes, b.fee, return_address);
                proof {
                    assert(unspent_of(details@) == unspent@);
                }
                r
            },
        }
    }

    /// Hands the encoded transaction to the index for broadcast;
    /// `PermissionDenied` for a client without an index, `InvalidInput` for
    /// a list too long to encode.
    pub fn broadcast_transaction(&self, transaction: &Transaction) -> (r: Result<(), Error>)
        ensures
            !self.index_set_spec() ==> fails_with(r, ErrorKind::PermissionDenied),
            self.index_set_spec() && (transaction.inputs@.len() > u32::MAX
                || transaction.outputs@.len() > u32::MAX) ==> fails_with(r, ErrorKind::InvalidInput),
    {
        if !self.index_set {
            return Err(Error::new(ErrorKind::PermissionDenied));
        }
        if transaction.inputs.len() > u32::MAX as usize || transaction.outputs.len() > u32::MAX as usize {
            return Err(Error::new(ErrorKind::InvalidInput));
        }
        let bytes = encode_transaction(transaction);
        self.index.broadcast_transaction(bytes.as_slice())
    }

    /// A Schnorr signature on `message` by the wallet's key `public_key`,
    /// with a fresh nonce; `PrivateKeyNotFound` when the store does not hold
    /// that key's pair.
    pub fn schnorr_signature(&self, name: &str, passphrase: &str, message: &H256, public_key: &PublicKey) -> (r: Result<SchnorrSignature, Error>)
        ensures
            match read_wallet(self.storage_spec(), name@, passphrase@) {
                Ok(w) => match crate::wallet::key_pos(self.storage_spec()->Some_0.keys_spec(), public_key@, 0) {
                    None => r matches Err(e) && e.kind == ErrorKind::PrivateKeyNotFound,
                    Some(i) => {
                        let rec = self.storage_spec()->Some_0.keys_spec()[i];
                        if rec.passphrase@ != passphrase@ {
                            r matches Err(e) && e.kind == ErrorKind::PermissionDenied
                        } else {
                            (r matches Ok(sig) ==> verifies(public_key@, message@, sig) && exists|
                                nonce: Seq<u8>,
                            |
                                base_mul(nonce) == Some(sig.r@) && partial_of(
                                    nonce,
                                    #[trigger] challenge(public_key@, sig.r@, message@),
                                    rec.private_key@,
                                ) == Some(sig.s@)) && (r matches Err(e) ==> e.kind
                                == ErrorKind::InvalidSignature)
                        }
                    },
                },
                Err(k) => r matches Err(e) && e.kind == k,
            },
    {
        self.transfer_addresses(name, passphrase)?;
        let private_key = match self.private_key(passphrase, public_key)? {
            Some(k) => k,
            None => return Err(Error::new(ErrorKind::PrivateKeyNotFound)),
        };
        let (nonce, big_r) = generate_keypair();
        let e = compute_challenge(public_key, &big_r, message);
        let sig = match partial_signature(&nonce, &e, &private_key) {
            Some(s) => SchnorrSignature { r: big_r, s },
            None => return Err(Error::new(ErrorKind::InvalidSignature)),
        };
        if !verify_signature(public_key, message, &sig) {
            return Err(Error::new(ErrorKind::InvalidSignature));
        }
        Ok(sig)
    }

    /// Starts a session of the wallet's key `self_public_key` among
    /// `signer_public_keys` on `message`, in its commit round, and stores it
    /// under a new id, which it returns. `PrivateKeyNotFound` when the store
    /// has no pair for the key, `InvalidInput` when the key is not among the
    /// signers, `StorageError` when the id is taken; on any error the store
    /// is left as it was.
    pub fn new_multi_sig_session(
        &mut self,
        name: &str,
        passphrase: &str,
        message: H256,
        signer_public_keys: Vec<PublicKey>,
        self_public_key: PublicKey,
    ) -> (r: Result<H256, Error>)
        requires
            old(self).wf(),
        ensures
            final(self).wf(),
            final(self).transaction_builder_spec() == old(self).transaction_builder_spec(),
            final(self).index_spec() == old(self).index_spec(),
            r is Err ==> final(self).storage_spec() == old(self).storage_spec(),
            match read_wallet(old(self).storage_spec(), name@, passphrase@) {
                Ok(w) => match crate::wallet::key_pos(old(self).storage_spec()->Some_0.keys_spec(), self_public_key@, 0) {
                    None => fails_with(r, ErrorKind::PrivateKeyNotFound),
                    Some(i) => if old(self).storage_spec()->Some_0.keys_spec()[i].passphrase@ != passphrase@ {
                        fails_with(r, ErrorKind::PermissionDenied)
                    } else if !signer_public_keys@.contains(self_public_key) {
                        fails_with(r, ErrorKind::InvalidInput)
                    } else {
                        (r is Ok || fails_with(r, ErrorKind::StorageError)) && (r matches Ok(id)
                            ==> started(
                            old(self).storage_spec()->Some_0,
                            final(self).storage_spec(),
                            id,
                            message,
                            signer_public_keys@,
                            self_public_key,
                            old(self).storage_spec()->Some_0.keys_spec()[i].private_key,
                            passphrase@,
                        )) && (old(self).storage_spec()->Some_0.sessions_spec().len() == 0 ==> r is Ok)
                            && (fails_with(r, ErrorKind::StorageError) ==> exists|n: Seq<u8>|
                            session_pos(
                                old(self).storage_spec()->Some_0.sessions_spec(),
                                #[trigger] session_id_of(message@, n),
                                0,
                            ) is Some)
                    },
                },
                Err(k) => fails_with(r, k),
            },
    {
        self.transfer_addresses(name, passphrase)?;
        let self_private_key = match self.private_key(passphrase, &self_public_key)? {
            Some(k) => k,
            None => return Err(Error::new(ErrorKind::PrivateKeyNotFound)),
        };
        let (secret_nonce, public_nonce) = generate_keypair();
        let session = MultiSigSession::new(
            message,
            &signer_public_keys,
            &self_public_key,
            self_private_key,
            secret_nonce,
            public_nonce,
            passphrase,
        )?;
        match &mut self.storage {
            None => Err(Error::new(ErrorKind::PermissionDenied)),
            Some(s) => {
                if s.has_session(&session.id) {
                    return Err(Error::new(ErrorKind::StorageError));
                }
                let ghost before = s.sessions_spec();
                let ghost sess = session;
                let id = s.add_session(session);
                proof {
                    assert(s.sessions_spec().drop_last() =~= before);
                    assert(s.sessions_spec().last() == sess);
                    assert(sess.wf());
                }
                Ok(id)
            },
        }
    }

    /// This signer's nonce commitment in the session `session_id`.
    pub fn nonce_commitment(&self, session_id: &H256, passphrase: &str) -> (r: Result<H256, Error>)
        requires
            self.wf(),
        ensures
            match self.storage_spec() {
                None => fails_with(r, ErrorKind::PermissionDenied),
                Some(st) => match open_session(st.sessions_spec(), session_id@, passphrase@) {
                    Ok(s) => r matches Ok(c) && s.signers@[s.self_index as int].nonce_commitment == Some(c),
                    Err(k) => fails_with(r, k),
                },
            },
    {
        match &self.storage {
            None => Err(Error::new(ErrorKind::PermissionDenied)),
            Some(st) => {
                let i = st.open_session_at(session_id, passphrase)?;
                Ok(st.session(i).nonce_commitment())
            },
        }
    }

    /// This signer's nonce in the session, as `nonce_outcome` states; the
    /// nonce hashes to this signer's commitment.
    pub fn nonce(&self, session_id: &H256, passphrase: &str) -> (r: Result<PublicKey, Error>)
        requires
            self.wf(),
        ensures
            match self.storage_spec() {
                None => fails_with(r, ErrorKind::PermissionDenied),
                Some(st) => match open_session(st.sessions_spec(), session_id@, passphrase@) {
                    Ok(s) => nonce_outcome(s, r) && (r matches Ok(n) ==> s.signers@[s.self_index as int].nonce_commitment->Some_0@
                        == crate::hash::blake2s_of(n@)),
                    Err(k) => fails_with(r, k),
                },
            },
    {
        match &self.storage {
            None => Err(Error::new(ErrorKind::PermissionDenied)),
            Some(st) => {
                let i = st.open_session_at(session_id, passphrase)?;
                st.session(i).nonce()
            },
        }
    }

    /// The aggregate signature of the session, as `signature_outcome`
    /// states: one that verifies under the signers' aggregate key.
    pub fn signature(&self, session_id: &H256, passphrase: &str) -> (r: Result<SchnorrSignature, Error>)
        requires
            self.wf(),
        ensures
            match self.storage_spec() {
                None => fails_with(r, ErrorKind::PermissionDenied),
                Some(st) => match open_session(st.sessions_spec(), session_id@, passphrase@) {
                    Ok(s) => signature_outcome(s, r),
                    Err(k) => fails_with(r, k),
                },
            },
    {
        match &self.storage {
            None => Err(Error::new(ErrorKind::PermissionDenied)),
            Some(st) => {
                let i = st.open_session_at(session_id, passphrase)?;
                st.session(i).signature()
            },
        }
    }

    /// Takes another signer's nonce commitment into the session, as
    /// `commitment_outcome` states.
    pub fn add_nonce_commitment(&mut self, session_id: &H256, passphrase: &str, nonce_commitment: H256, public_key: &PublicKey) -> (r: Result<(), Error>)
        requires
            old(self).wf(),
        ensures
            final(self).wf(),
            final(self).transaction_builder_spec() == old(self).transaction_builder_spec(),
            final(self).index_spec() == old(self).index_spec(),
            match old(self).storage_spec() {
                None => fails_with(r, ErrorKind::PermissionDenied) && final(self).storage_spec() is None,
                Some(st) => final(self).storage_spec() matches Some(nt) && match open_session(st.sessions_spec(), session_id@, passphrase@) {
                    Err(k) => fails_with(r, k) && same_store(st, nt),
                    Ok(s) => session_step(st, nt, session_id@) && commitment_outcome(
                        s,
                        nt.sessions_spec()[session_at(st, session_id@)],
                        nonce_commitment,
                        *public_key,
                        r,
                    ),
                },
            },
    {
        match &mut self.storage {
            None => Err(Error::new(ErrorKind::PermissionDenied)),
            Some(st) => {
                let i = st.open_session_at(session_id, passphrase)?;
                let ghost before = *st;
                let mut session = st.take_session(i);
                let r = session.add_nonce_commitment(nonce_commitment, public_key);
                st.put_session(i, session);
                proof {
                    assert(st.sessions_spec() =~= before.sessions_spec().update(i as int, session));
                }
                r
            },
        }
    }

    /// Takes another signer's nonce into the session, as
    /// `nonce_taken_outcome` states.
    pub fn add_nonce(&mut self, session_id: &H256, passphrase: &str, nonce: &PublicKey, public_key: &PublicKey) -> (r: Result<(), Error>)
        requires
            old(self).wf(),
        ensures
            final(self).wf(),
            final(self).transaction_builder_spec() == old(self).transaction_builder_spec(),
            final(self).index_spec() == old(self).index_spec(),
            match old(self).storage_spec() {
                None => fails_with(r, ErrorKind::PermissionDenied) && final(self).storage_spec() is None,
                Some(st) => final(self).storage_spec() matches Some(nt) && match open_session(st.sessions_spec(), session_id@, passphrase@) {
                    Err(k) => fails_with(r, k) && same_store(st, nt),
                    Ok(s) => session_step(st, nt, session_id@) && nonce_taken_outcome(
                        s,
                        nt.sessions_spec()[session_at(st, session_id@)],
                        *nonce,
                        *public_key,
                        r,
                    ),
                },
            },
    {
        match &mut self.storage {
            None => Err(Error::new(ErrorKind::PermissionDenied)),
            Some(st) => {
                let i = st.open_session_at(session_id, passphrase)?;
                let ghost before = *st;
                let mut session = st.take_session(i);
                let r = session.add_nonce(nonce, public_key);
                st.put_session(i, session);
                proof {
                    assert(st.sessions_spec() =~= before.sessions_spec().update(i as int, session));
                }
                r
            },
        }
    }

    /// This signer's partial signature in the session, as `partial_outcome`
    /// states.
    pub fn partial_signature(&mut self, session_id: &H256, passphrase: &str) -> (r: Result<[u8; 32], Error>)
        requires
            old(self).wf(),
        ensures
            final(self).wf(),
            final(self).transaction_builder_spec() == old(self).transaction_builder_spec(),
            final(self).index_spec() == old(self).index_spec(),
            match old(self).storage_spec() {
                None => fails_with(r, ErrorKind::PermissionDenied) && final(self).storage_spec() is None,
                Some(st) => final(self).storage_spec() matches Some(nt) && match open_session(st.sessions_spec(), session_id@, passphrase@) {
                    Err(k) => fails_with(r, k) && same_store(st, nt),
                    Ok(s) => session_step(st, nt, session_id@) && partial_outcome(
                        s,
                        nt.sessions_spec()[session_at(st, session_id@)],
                        r,
                    ),
                },
            },
    {
        match &mut self.storage {
            None => Err(Error::new(ErrorKind::PermissionDenied)),
            Some(st) => {
                let i = st.open_session_at(session_id, passphrase)?;
                let ghost before = *st;
                let mut session = st.take_session(i);
                let r = session.partial_signature();
                st.put_session(i, session);
                proof {
                    assert(st.sessions_spec() =~= before.sessions_spec().update(i as int, session));
                }
                r
            },
        }
    }

    /// Takes another signer's partial signature into the session, as
    /// `partial_taken_outcome` states.
    pub fn add_partial_signature(&mut self, session_id: &H256, passphrase: &str, partial_signature: [u8; 32], public_key: &PublicKey) -> (r: Result<(), Error>)
        requires
            old(self).wf(),
        ensures
            final(self).wf(),
            final(self).transaction_builder_spec() == old(self).transaction_builder_spec(),
            final(self).index_spec() == old(self).index_spec(),
            match old(self).storage_spec() {
                None => fails_with(r, ErrorKind::PermissionDenied) && final(self).storage_spec() is None,
                Some(st) => final(self).storage_spec() matches Some(nt) && match open_session(st.sessions_spec(), session_id@, passphrase@) {
                    Err(k) => fails_with(r, k) && same_store(st, nt),
                    Ok(s) => session_step(st, nt, session_id@) && partial_taken_outcome(
                        s,
                        nt.sessions_spec()[session_at(st, session_id@)],
                        partial_signature,
                        *public_key,
                        r,
                    ),
                },
            },
    {
        match &mut self.storage {
            None => Err(Error::new(ErrorKind::PermissionDenied)),
            Some(st) => {
                let i = st.open_session_at(session_id, passphrase)?;
                let ghost before = *st;
                let mut session = st.take_session(i);
                let r = session.add_partial_signature(partial_signature, public_key);
                st.put_session(i, session);
                proof {
                    assert(st.sessions_spec() =~= before.sessions_spec().update(i as int, session));
                }
                r
            },
        }
    }
}

} // verus!
