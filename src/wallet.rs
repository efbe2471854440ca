//! The wallet store: named wallets, key pairs and multi-signature roots,
//! each kept with the passphrase it was stored under, which every read
//! checks; contents are held in memory, not encrypted. A read under any
//! other passphrase is refused with `PermissionDenied`.
use vstd::prelude::*;
use crate::error::{Error, ErrorKind};
use crate::keys::{generate_keypair, redeem_address, redeem_address_of};
use crate::schnorr::base_mul;
use crate::merkle::{MerkleProof, proves, root_of, steps};
use crate::or_tree::or_tree_root;
use crate::multisig::MultiSigSession;
use crate::or_tree::{
    copy_vec, key_bytes, leaf_of_signers, or_tree, sorted_keys_of, subset_leaf, subset_leaves,
};
use crate::types::{
    same_bytes, ExtendedAddr, PrivateKey, PublicKey, RedeemAddress, StakedStateAddress, H256,
};

verus! {

/// A wallet: its name, the passphrase that opens it, and its keys and
/// addresses.
pub struct WalletRecord {
    pub name: String,
    pub passphrase: String,
    pub view_key: PublicKey,
    pub public_keys: Vec<PublicKey>,
    pub root_hashes: Vec<H256>,
    pub staking_addresses: Vec<StakedStateAddress>,
}

/// A key pair, and the passphrase that opens it.
pub struct KeyRecord {
    pub public_key: PublicKey,
    pub private_key: PrivateKey,
    pub passphrase: String,
}

/// A multi-signature address: its root, the signers' keys in ascending
/// order, how many of them must sign, and the passphrase that opens it.
pub struct RootHashRecord {
    pub root_hash: H256,
    pub signers: Vec<PublicKey>,
    pub required: usize,
    pub passphrase: String,
}

/// The position of the first wallet named `name` at or after `i`.
pub open spec fn wallet_pos(ws: Seq<WalletRecord>, name: Seq<char>, i: int) -> Option<int>
    decreases ws.len() - i,
{
    if i < 0 || i >= ws.len() {
        None
    } else if ws[i].name@ == name {
        Some(i)
    } else {
        wallet_pos(ws, name, i + 1)
    }
}

/// The position of the first key record of `key` at or after `i`.
pub open spec fn key_pos(ks: Seq<KeyRecord>, key: Seq<u8>, i: int) -> Option<int>
    decreases ks.len() - i,
{
    if i < 0 || i >= ks.len() {
        None
    } else if ks[i].public_key@ == key {
        Some(i)
    } else {
        key_pos(ks, key, i + 1)
    }
}

/// The position of the first record of the root `root` at or after `i`.
pub open spec fn root_pos(rs: Seq<RootHashRecord>, root: Seq<u8>, i: int) -> Option<int>
    decreases rs.len() - i,
{
    if i < 0 || i >= rs.len() {
        None
    } else if rs[i].root_hash@ == root {
        Some(i)
    } else {
        root_pos(rs, root, i + 1)
    }
}

/// The position of the first record of the root `root` kept under
/// `passphrase`, at or after `i`.
pub open spec fn keyed_root_pos(rs: Seq<RootHashRecord>, root: Seq<u8>, passphrase: Seq<char>, i: int) -> Option<int>
    decreases rs.len() - i,
{
    if i < 0 || i >= rs.len() {
        None
    } else if rs[i].root_hash@ == root && rs[i].passphrase@ == passphrase {
        Some(i)
    } else {
        keyed_root_pos(rs, root, passphrase, i + 1)
    }
}

/// The wallet named `name`, opened with `passphrase`: `WalletNotFound` when
/// there is none, `PermissionDenied` when the passphrase is not its own.
pub open spec fn open_wallet(ws: Seq<WalletRecord>, name: Seq<char>, passphrase: Seq<char>) -> Result<
    WalletRecord,
    ErrorKind,
> {
    match wallet_pos(ws, name, 0) {
        None => Err(ErrorKind::WalletNotFound),
        Some(i) => if ws[i].passphrase@ == passphrase {
            Ok(ws[i])
        } else {
            Err(ErrorKind::PermissionDenied)
        },
    }
}

/// The transfer address of each root hash, in order.
pub open spec fn transfer_addresses_of(roots: Seq<H256>) -> Seq<ExtendedAddr> {
    roots.map_values(|h: H256| ExtendedAddr::OrTree(h))
}

/// The wallets, key pairs and multi-signature roots of one store.
pub struct MemoryStorage {
    wallets: Vec<WalletRecord>,
    keys: Vec<KeyRecord>,
    roots: Vec<RootHashRecord>,
    sessions: Vec<MultiSigSession>,
}

impl MemoryStorage {
    /// Each multi-signature root is the root of the tree over its signers.
    pub closed spec fn wf(&self) -> bool {
        &&& forall|i: int|
            0 <= i < self.roots@.len() ==> (#[trigger] self.roots@[i]).root_hash@ == or_tree_root(
                self.roots@[i].signers@,
                self.roots@[i].required as nat,
            )
        &&& forall|i: int| 0 <= i < self.sessions@.len() ==> (#[trigger] self.sessions@[i]).wf()
    }

    /// The multi-signature sessions, in the order of their creation.
    pub closed spec fn sessions_spec(&self) -> Seq<MultiSigSession> {
        self.sessions@
    }

    /// The wallets, in the order of their creation.
    pub closed spec fn wallets_spec(&self) -> Seq<WalletRecord> {
        self.wallets@
    }

    /// The key pairs, in the order of their creation.
    pub closed spec fn keys_spec(&self) -> Seq<KeyRecord> {
        self.keys@
    }

    /// The multi-signature roots, in the order of their creation.
    pub closed spec fn roots_spec(&self) -> Seq<RootHashRecord> {
        self.roots@
    }

    /// An empty store.
    pub fn new() -> (r: MemoryStorage)
        ensures
            r.wallets_spec().len() == 0,
            r.keys_spec().len() == 0,
            r.roots_spec().len() == 0,
            r.wf(),
    {
        MemoryStorage { wallets: Vec::new(), keys: Vec::new(), roots: Vec::new(), sessions: Vec::new() }
    }

    fn find_wallet(&self, name: &str) -> (r: Option<usize>)
        ensures
            r matches Some(i) ==> wallet_pos(self.wallets@, name@, 0) == Some(i as int) && i
                < self.wallets@.len(),
            r is None ==> wallet_pos(self.wallets@, name@, 0) is None,
    {
        let target = name.to_owned();
        let mut i: usize = 0;
        while i < self.wallets.len()
            invariant
                i <= self.wallets.len(),
                target@ == name@,
                wallet_pos(self.wallets@, name@, 0) == wallet_pos(self.wallets@, name@, i as int),
            decreases self.wallets.len() - i,
        {
            if self.wallets[i].name == target {
                return Some(i);
            }
            i = i + 1;
        }
        None
    }

    /// Opens the wallet named `name` with `passphrase`.
    fn open(&self, name: &str, passphrase: &str) -> (r: Result<usize, Error>)
        ensures
            match open_wallet(self.wallets@, name@, passphrase@) {
                Ok(w) => r matches Ok(i) && wallet_pos(self.wallets@, name@, 0) == Some(i as int)
                    && i < self.wallets@.len(),
                Err(k) => r matches Err(e) && e.kind == k,
            },
    {
        match self.find_wallet(name) {
            None => Err(Error::new(ErrorKind::WalletNotFound)),
            Some(i) => {
                let p = passphrase.to_owned();
                if self.wallets[i].passphrase == p {
                    Ok(i)
                } else {
                    Err(Error::new(ErrorKind::PermissionDenied))
                }
            },
        }
    }

    /// The names of the wallets, in the order of their creation.
    pub fn names(&self) -> (r: Vec<String>)
        ensures
            r@.len() == self.wallets_spec().len(),
            forall|i: int| 0 <= i < r@.len() ==> r@[i]@ == self.wallets_spec()[i].name@,
    {
        let mut r: Vec<String> = Vec::new();
        let mut i: usize = 0;
        while i < self.wallets.len()
            invariant
                i <= self.wallets.len(),
                r@.len() == i,
                forall|j: int| 0 <= j < i ==> r@[j]@ == self.wallets@[j].name@,
            decreases self.wallets.len() - i,
        {
            r.push(self.wallets[i].name.clone());
            i = i + 1;
        }
        r
    }

    /// Creates the wallet `name`, kept under `passphrase`, with `view_key`;
    /// fails with `InvalidInput` when a wallet of that name exists.
    pub fn create(&mut self, name: &str, passphrase: &str, view_key: PublicKey) -> (r: Result<(), Error>)
        requires
            old(self).wf(),
        ensures
            final(self).wf(),
            final(self).sessions_spec() == old(self).sessions_spec(),
            wallet_pos(old(self).wallets_spec(), name@, 0) is Some ==> (r matches Err(e) && e.kind
                == ErrorKind::InvalidInput) && *final(self) == *old(self),
            wallet_pos(old(self).wallets_spec(), name@, 0) is None ==> r is Ok
                && final(self).keys_spec() == old(self).keys_spec()
                && final(self).roots_spec() == old(self).roots_spec()
                && final(self).wallets_spec().len() == old(self).wallets_spec().len() + 1
                && final(self).wallets_spec().take(old(self).wallets_spec().len() as int)
                == old(self).wallets_spec() && ({
                    let w = final(self).wallets_spec().last();
                    w.name@ == name@ && w.passphrase@ == passphrase@ && w.view_key == view_key
                        && w.public_keys@.len() == 0 && w.root_hashes@.len() == 0
                        && w.staking_addresses@.len() == 0
                }),
    {
        if self.find_wallet(name).is_some() {
            return Err(Error::new(ErrorKind::InvalidInput));
        }
        let record = WalletRecord {
            name: name.to_owned(),
            passphrase: passphrase.to_owned(),
            view_key,
            public_keys: Vec::new(),
            root_hashes: Vec::new(),
            staking_addresses: Vec::new(),
        };
        self.wallets.push(record);
        proof {
            assert(self.wallets@.take(old(self).wallets@.len() as int) =~= old(self).wallets@);
        }
        Ok(())
    }

    /// The view key of the wallet.
    pub fn view_key(&self, name: &str, passphrase: &str) -> (r: Result<PublicKey, Error>)
        ensures
            match open_wallet(self.wallets_spec(), name@, passphrase@) {
                Ok(w) => r == Ok::<PublicKey, Error>(w.view_key),
                Err(k) => r matches Err(e) && e.kind == k,
            },
    {
        let i = self.open(name, passphrase)?;
        Ok(self.wallets[i].view_key)
    }

    /// The public keys of the wallet, in the order they were added.
    pub fn public_keys(&self, name: &str, passphrase: &str) -> (r: Result<Vec<PublicKey>, Error>)
        ensures
            match open_wallet(self.wallets_spec(), name@, passphrase@) {
                Ok(w) => r matches Ok(v) && v@ == w.public_keys@,
                Err(k) => r matches Err(e) && e.kind == k,
            },
    {
        let i = self.open(name, passphrase)?;
        Ok(copy_vec(&self.wallets[i].public_keys))
    }

    /// The multi-signature root hashes of the wallet, in the order they were added.
    pub fn root_hashes(&self, name: &str, passphrase: &str) -> (r: Result<Vec<H256>, Error>)
        ensures
            match open_wallet(self.wallets_spec(), name@, passphrase@) {
                Ok(w) => r matches Ok(v) && v@ == w.root_hashes@,
                Err(k) => r matches Err(e) && e.kind == k,
            },
    {
        let i = self.open(name, passphrase)?;
        Ok(copy_vec(&self.wallets[i].root_hashes))
    }

    /// The staking addresses of the wallet, in the order they were added.
    pub fn staking_addresses(&self, name: &str, passphrase: &str) -> (r: Result<Vec<StakedStateAddress>, Error>)
        ensures
            match open_wallet(self.wallets_spec(), name@, passphrase@) {
                Ok(w) => r matches Ok(v) && v@ == w.staking_addresses@,
                Err(k) => r matches Err(e) && e.kind == k,
            },
    {
        let i = self.open(name, passphrase)?;
        Ok(copy_vec(&self.wallets[i].staking_addresses))
    }

    /// The transfer addresses of the wallet: one per root hash, in order.
    pub fn transfer_addresses(&self, name: &str, passphrase: &str) -> (r: Result<Vec<ExtendedAddr>, Error>)
        ensures
            match open_wallet(self.wallets_spec(), name@, passphrase@) {
                Ok(w) => r matches Ok(v) && v@ == transfer_addresses_of(w.root_hashes@),
                Err(k) => r matches Err(e) && e.kind == k,
            },
    {
        let i = self.open(name, passphrase)?;
        let roots = &self.wallets[i].root_hashes;
        let mut r: Vec<ExtendedAddr> = Vec::new();
        let mut j: usize = 0;
        while j < roots.len()
            invariant
                j <= roots.len(),
                r@ == transfer_addresses_of(roots@.take(j as int)),
            decreases roots.len() - j,
        {
            r.push(ExtendedAddr::OrTree(roots[j]));
            j = j + 1;
            proof {
                assert(r@ =~= transfer_addresses_of(roots@.take(j as int)));
            }
        }
        proof {
            assert(roots@.take(j as int) =~= roots@);
        }
        Ok(r)
    }

    /// The root hash of the wallet behind `address`, if the wallet holds it.
    pub fn find_root_hash(&self, name: &str, passphrase: &str, address: &ExtendedAddr) -> (r: Result<Option<H256>, Error>)
        ensures
            match open_wallet(self.wallets_spec(), name@, passphrase@) {
                Ok(w) => r matches Ok(found) && (w.root_hashes@.contains(
                    arr32(address.root_spec()),
                ) ==> found == Some(arr32(address.root_spec()))) && (!w.root_hashes@.contains(
                    arr32(address.root_spec()),
                ) ==> found is None),
                Err(k) => r matches Err(e) && e.kind == k,
            },
    {
        let i = self.open(name, passphrase)?;
        let target = address.root();
        let roots = &self.wallets[i].root_hashes;
        let ghost opened = open_wallet(self.wallets@, name@, passphrase@);
        let mut j: usize = 0;
        while j < roots.len()
            invariant
                j <= roots.len(),
                opened == open_wallet(self.wallets@, name@, passphrase@),
                opened matches Ok(w) && w.root_hashes@ == roots@,
                target@ == address.root_spec(),
                forall|k: int| 0 <= k < j ==> roots@[k] != target,
            decreases roots.len() - j,
        {
            if same_bytes(&roots[j], &target) {
                proof {
                    lemma_arr32(target);
                    assert(roots@[j as int] =~= target);
                    assert(roots@.contains(target));
                }
                return Ok(Some(roots[j]));
            }
            proof {
                if roots@[j as int] == target {
                    assert(roots@[j as int]@ == target@);
                }
            }
            j = j + 1;
        }
        proof {
            lemma_arr32(target);
        }
        Ok(None)
    }

    /// The first public key of the wallet whose staking address is `address`.
    pub fn find_public_key(&self, name: &str, passphrase: &str, address: &RedeemAddress) -> (r: Result<Option<PublicKey>, Error>)
        ensures
            match open_wallet(self.wallets_spec(), name@, passphrase@) {
                Ok(w) => r matches Ok(found) && match found {
                    Some(k) => w.public_keys@.contains(k) && redeem_address_of(k@) == address.0@,
                    None => forall|j: int|
                        0 <= j < w.public_keys@.len() ==> redeem_address_of(
                            #[trigger] w.public_keys@[j]@,
                        ) != address.0@,
                },
                Err(k) => r matches Err(e) && e.kind == k,
            },
    {
        let i = self.open(name, passphrase)?;
        let keys = &self.wallets[i].public_keys;
        let ghost opened = open_wallet(self.wallets@, name@, passphrase@);
        let mut j: usize = 0;
        while j < keys.len()
            invariant
                j <= keys.len(),
                opened == open_wallet(self.wallets@, name@, passphrase@),
                opened matches Ok(w) && w.public_keys@ == keys@,
                forall|k: int| 0 <= k < j ==> redeem_address_of(#[trigger] keys@[k]@) != address.0@,
            decreases keys.len() - j,
        {
            let a = redeem_address(&keys[j]);
            if same_bytes(&a.0, &address.0) {
                proof {
                    assert(keys@.contains(keys@[j as int]));
                }
                return Ok(Some(keys[j]));
            }
            j = j + 1;
        }
        Ok(None)
    }

    /// Replaces the wallet at `i` by `w`.
    fn put_wallet(&mut self, i: usize, w: WalletRecord)
        requires
            i < old(self).wallets@.len(),
        ensures
            final(self).wallets@ == old(self).wallets@.update(i as int, w),
            final(self).keys@ == old(self).keys@,
            final(self).roots@ == old(self).roots@,
    {
        self.wallets.remove(i);
        self.wallets.insert(i, w);
        proof {
            assert(self.wallets@ =~= old(self).wallets@.update(i as int, w));
        }
    }

    /// Adds a public key to the wallet.
    pub fn add_public_key(&mut self, name: &str, passphrase: &str, key: &PublicKey) -> (r: Result<(), Error>)
        requires
            old(self).wf(),
        ensures
            final(self).wf(),
            final(self).sessions_spec() == old(self).sessions_spec(),
            final(self).keys_spec() == old(self).keys_spec(),
            final(self).roots_spec() == old(self).roots_spec(),
            match open_wallet(old(self).wallets_spec(), name@, passphrase@) {
                Ok(w) => r is Ok && updated_wallet(
                    old(self).wallets_spec(),
                    final(self).wallets_spec(),
                    name@,
                    with_key(w.public_keys@, *key),
                    w.root_hashes@,
                    w.staking_addresses@,
                ),
                Err(k) => (r matches Err(e) && e.kind == k) && final(self).wallets_spec()
                    == old(self).wallets_spec(),
            },
    {
        let i = self.open(name, passphrase)?;
        let mut w = self.wallets.remove(i);
        proof {
            assert(w == old(self).wallets@[i as int]);
        }
        let mut present = false;
        let mut j: usize = 0;
        while j < w.public_keys.len()
            invariant
                j <= w.public_keys@.len(),
                present == exists|k: int| 0 <= k < j && w.public_keys@[k] == *key,
            decreases w.public_keys.len() - j,
        {
            if same_bytes(&w.public_keys[j], key) {
                proof {
                    assert(w.public_keys@[j as int] =~= *key);
                }
                present = true;
            } else {
                proof {
                    if w.public_keys@[j as int] == *key {
                        assert(w.public_keys@[j as int]@ == key@);
                    }
                }
            }
            j = j + 1;
        }
        if !present {
            w.public_keys.push(*key);
        }
        self.wallets.insert(i, w);
        proof {
            lemma_wallet_pos_same_names(old(self).wallets@, self.wallets@, name@, 0);
        }
        Ok(())
    }

    /// Adds a multi-signature root hash to the wallet.
    pub fn add_root_hash(&mut self, name: &str, passphrase: &str, root: H256) -> (r: Result<(), Error>)
        requires
            old(self).wf(),
        ensures
            final(self).wf(),
            final(self).sessions_spec() == old(self).sessions_spec(),
            final(self).keys_spec() == old(self).keys_spec(),
            final(self).roots_spec() == old(self).roots_spec(),
            match open_wallet(old(self).wallets_spec(), name@, passphrase@) {
                Ok(w) => r is Ok && updated_wallet(
                    old(self).wallets_spec(),
                    final(self).wallets_spec(),
                    name@,
                    w.public_keys@,
                    w.root_hashes@.push(root),
                    w.staking_addresses@,
                ),
                Err(k) => (r matches Err(e) && e.kind == k) && final(self).wallets_spec()
                    == old(self).wallets_spec(),
            },
    {
        let i = self.open(name, passphrase)?;
        let mut w = self.wallets.remove(i);
        proof {
            assert(w == old(self).wallets@[i as int]);
        }
        w.root_hashes.push(root);
        self.wallets.insert(i, w);
        proof {
            lemma_wallet_pos_same_names(old(self).wallets@, self.wallets@, name@, 0);
        }
        Ok(())
    }

    /// Adds a staking address to the wallet.
    pub fn add_staking_address(&mut self, name: &str, passphrase: &str, address: StakedStateAddress) -> (r: Result<(), Error>)
        requires
            old(self).wf(),
        ensures
            final(self).wf(),
            final(self).sessions_spec() == old(self).sessions_spec(),
            final(self).keys_spec() == old(self).keys_spec(),
            final(self).roots_spec() == old(self).roots_spec(),
            match open_wallet(old(self).wallets_spec(), name@, passphrase@) {
                Ok(w) => r is Ok && updated_wallet(
                    old(self).wallets_spec(),
                    final(self).wallets_spec(),
                    name@,
                    w.public_keys@,
                    w.root_hashes@,
                    w.staking_addresses@.push(address),
                ),
                Err(k) => (r matches Err(e) && e.kind == k) && final(self).wallets_spec()
                    == old(self).wallets_spec(),
            },
    {
        let i = self.open(name, passphrase)?;
        let mut w = self.wallets.remove(i);
        proof {
            assert(w == old(self).wallets@[i as int]);
        }
        w.staking_addresses.push(address);
        self.wallets.insert(i, w);
        proof {
            lemma_wallet_pos_same_names(old(self).wallets@, self.wallets@, name@, 0);
        }
        Ok(())
    }

    /// Generates a key pair and stores it kept under `passphrase`.
    pub fn generate_keypair(&mut self, passphrase: &str) -> (r: (PublicKey, PrivateKey))
        requires
            old(self).wf(),
        ensures
            final(self).wf(),
            final(self).sessions_spec() == old(self).sessions_spec(),
            base_mul(r.1@) == Some(r.0@),
            final(self).wallets_spec() == old(self).wallets_spec(),
            final(self).roots_spec() == old(self).roots_spec(),
            stored_pair(final(self).keys_spec(), r.0, r.1, passphrase@),
            forall|k: int|
                0 <= k < old(self).keys_spec().len() && old(self).keys_spec()[k].public_key != r.0
                    ==> final(self).keys_spec()[k] == old(self).keys_spec()[k],
    {
        let (private_key, public_key) = generate_keypair();
        let ghost before = self.keys@;
        let mut at: usize = 0;
        let mut found = false;
        while at < self.keys.len() && !found
            invariant
                at <= self.keys@.len(),
                self.keys@ == before,
                key_pos(before, public_key@, 0) == if found {
                    Some(at as int)
                } else {
                    key_pos(before, public_key@, at as int)
                },
                found ==> at < before.len(),
            decreases (self.keys@.len() - at) * 2 + if found {
                0int
            } else {
                1int
            },
        {
            if same_bytes(&self.keys[at].public_key, &public_key) {
                found = true;
            } else {
                at = at + 1;
            }
        }
        let record = KeyRecord { public_key, private_key, passphrase: passphrase.to_owned() };
        let ghost rec = record;
        let ghost pos: int;
        if found {
            self.keys.set(at, record);
            proof {
                pos = at as int;
            }
        } else {
            self.keys.push(record);
            proof {
                pos = before.len() as int;
            }
        }
        proof {
            lemma_key_pos_facts(before, public_key@, 0);
            assert(self.keys@[pos] == rec);
            assert forall|k: int| 0 <= k < pos implies (#[trigger] self.keys@[k]).public_key@ != public_key@ by {
                assert(self.keys@[k] == before[k]);
            }
            lemma_key_pos_at(self.keys@, public_key@, 0, pos);
            assert forall|k: int|
                0 <= k < before.len() && before[k].public_key != public_key implies self.keys@[k]
                == before[k] by {
                if k == pos {
                    assert(before[k].public_key@ == public_key@);
                    assert(before[k].public_key =~= public_key);
                }
            }
        }
        (public_key, private_key)
    }

    /// The private key of `public_key`: `None` when the store holds no such
    /// pair, `PermissionDenied` when it is kept under another passphrase.
    pub fn private_key(&self, public_key: &PublicKey, passphrase: &str) -> (r: Result<Option<PrivateKey>, Error>)
        ensures
            match key_pos(self.keys_spec(), public_key@, 0) {
                None => r == Ok::<Option<PrivateKey>, Error>(None),
                Some(i) => if self.keys_spec()[i].passphrase@ == passphrase@ {
                    r == Ok::<Option<PrivateKey>, Error>(Some(self.keys_spec()[i].private_key))
                } else {
                    r matches Err(e) && e.kind == ErrorKind::PermissionDenied
                },
            },
    {
        let mut i: usize = 0;
        while i < self.keys.len()
            invariant
                i <= self.keys.len(),
                key_pos(self.keys@, public_key@, 0) == key_pos(self.keys@, public_key@, i as int),
            decreases self.keys.len() - i,
        {
            if same_bytes(&self.keys[i].public_key, public_key) {
                let p = passphrase.to_owned();
                if self.keys[i].passphrase == p {
                    return Ok(Some(self.keys[i].private_key));
                } else {
                    return Err(Error::new(ErrorKind::PermissionDenied));
                }
            }
            i = i + 1;
        }
        Ok(None)
    }

    fn find_keyed_root(&self, root: &H256, passphrase: &String) -> (r: Option<usize>)
        ensures
            r matches Some(i) ==> keyed_root_pos(self.roots@, root@, passphrase@, 0) == Some(i as int)
                && i < self.roots@.len(),
            r is None ==> keyed_root_pos(self.roots@, root@, passphrase@, 0) is None,
    {
        let mut i: usize = 0;
        while i < self.roots.len()
            invariant
                i <= self.roots.len(),
                keyed_root_pos(self.roots@, root@, passphrase@, 0) == keyed_root_pos(
                    self.roots@,
                    root@,
                    passphrase@,
                    i as int,
                ),
            decreases self.roots.len() - i,
        {
            if same_bytes(&self.roots[i].root_hash, root) && self.roots[i].passphrase == *passphrase {
                return Some(i);
            }
            i = i + 1;
        }
        None
    }

    fn has_root(&self, root: &H256) -> (r: bool)
        ensures
            r == (root_pos(self.roots@, root@, 0) is Some),
    {
        let mut i: usize = 0;
        while i < self.roots.len()
            invariant
                i <= self.roots.len(),
                root_pos(self.roots@, root@, 0) == root_pos(self.roots@, root@, i as int),
            decreases self.roots.len() - i,
        {
            if same_bytes(&self.roots[i].root_hash, root) {
                return true;
            }
            i = i + 1;
        }
        false
    }

    fn open_root_at(&self, root: &H256, passphrase: &str) -> (r: Result<usize, Error>)
        ensures
            match open_root(self.roots@, root@, passphrase@) {
                Ok(rec) => r matches Ok(i) && keyed_root_pos(self.roots@, root@, passphrase@, 0) == Some(
                    i as int,
                ) && i < self.roots@.len(),
                Err(k) => r matches Err(e) && e.kind == k,
            },
    {
        let p = passphrase.to_owned();
        match self.find_keyed_root(root, &p) {
            Some(i) => Ok(i),
            None => if self.has_root(root) {
                Err(Error::new(ErrorKind::PermissionDenied))
            } else {
                Err(Error::new(ErrorKind::InvalidInput))
            },
        }
    }

    /// Builds the `m`-of-`n` address over `public_keys`, which must be `n`
    /// keys among which `self_public_key` stands, with `1 <= m <= n`
    /// (else `InvalidInput`), and stores it kept under `passphrase`.
    pub fn new_root_hash(
        &mut self,
        public_keys: &Vec<PublicKey>,
        self_public_key: &PublicKey,
        m: usize,
        n: usize,
        passphrase: &str,
    ) -> (r: Result<H256, Error>)
        requires
            old(self).wf(),
        ensures
            r is Err ==> *final(self) == *old(self),
            final(self).wf(),
            final(self).sessions_spec() == old(self).sessions_spec(),
            final(self).wallets_spec() == old(self).wallets_spec(),
            final(self).keys_spec() == old(self).keys_spec(),
            valid_multisig(public_keys@, *self_public_key, m, n) ==> (r matches Ok(root) && {
                let s = sorted_keys_of(public_keys@);
                &&& root@ == or_tree_root(s, m as nat)
                &&& open_root(final(self).roots_spec(), root@, passphrase@) matches Ok(rec)
                &&& rec.root_hash == root && rec.signers@ == s && rec.required == m
                &&& rec.passphrase@ == passphrase@
                &&& forall|k: int|
                    0 <= k < old(self).roots_spec().len() && !(old(self).roots_spec()[k].root_hash
                        == root && old(self).roots_spec()[k].passphrase@ == passphrase@)
                        ==> final(self).roots_spec()[k] == old(self).roots_spec()[k]
            }),
            !valid_multisig(public_keys@, *self_public_key, m, n) ==> (r matches Err(e) && e.kind
                == ErrorKind::InvalidInput) && final(self).roots_spec() == old(self).roots_spec(),
    {
        if public_keys.len() != n || m == 0 || m > n {
            return Err(Error::new(ErrorKind::InvalidInput));
        }
        let mut found = false;
        let mut i: usize = 0;
        while i < public_keys.len()
            invariant
                i <= public_keys.len(),
                found == exists|j: int| 0 <= j < i && public_keys@[j] == *self_public_key,
            decreases public_keys.len() - i,
        {
            if same_bytes(&public_keys[i], self_public_key) {
                proof {
                    assert(public_keys@[i as int] =~= *self_public_key);
                }
                found = true;
            } else {
                proof {
                    if public_keys@[i as int] == *self_public_key {
                        assert(public_keys@[i as int]@ == self_public_key@);
                    }
                }
            }
            i = i + 1;
        }
        if !found {
            return Err(Error::new(ErrorKind::InvalidInput));
        }
        let sorted = crate::or_tree::sorted_copy(public_keys);
        let tree = or_tree(&sorted, m);
        let root = tree.root_hash();
        let p = passphrase.to_owned();
        let ghost before = self.roots@;
        let existing = self.find_keyed_root(&root, &p);
        let record = RootHashRecord { root_hash: root, signers: sorted, required: m, passphrase: p };
        let ghost rec = record;
        proof {
            lemma_keyed_pos_facts(before, root@, passphrase@, 0);
        }
        let ghost at: int;
        match existing {
            Some(i) => {
                self.roots.set(i, record);
                proof {
                    at = i as int;
                }
            },
            None => {
                self.roots.push(record);
                proof {
                    at = before.len() as int;
                }
            },
        }
        proof {
            assert(self.roots@[at] == rec);
            assert(forall|k: int| 0 <= k < before.len() && k != at ==> #[trigger] self.roots@[k] == before[k]);
            assert forall|k: int| 0 <= k < at implies !(#[trigger] self.roots@[k].root_hash@ == root@
                && self.roots@[k].passphrase@ == passphrase@) by {
                assert(self.roots@[k] == before[k]);
            }
            lemma_keyed_pos_at(self.roots@, root@, passphrase@, 0, at);
            assert forall|k: int| 0 <= k < self.roots@.len() implies (#[trigger] self.roots@[k]).root_hash@
                == or_tree_root(self.roots@[k].signers@, self.roots@[k].required as nat) by {
                if k != at {
                    assert(self.roots@[k] == before[k]);
                }
            }
            assert forall|k: int|
                0 <= k < before.len() && !(before[k].root_hash == root && before[k].passphrase@
                    == passphrase@) implies self.roots@[k] == before[k] by {
                if k == at {
                    assert(before[k].root_hash@ == root@);
                    assert(before[k].root_hash =~= root);
                }
            }
        }
        Ok(root)
    }

    /// The number of signers that the address `root` requires.
    pub fn required_signers(&self, root: &H256, passphrase: &str) -> (r: Result<usize, Error>)
        ensures
            match open_root(self.roots_spec(), root@, passphrase@) {
                Ok(rec) => r == Ok::<usize, Error>(rec.required),
                Err(k) => r matches Err(e) && e.kind == k,
            },
    {
        let i = self.open_root_at(root, passphrase)?;
        Ok(self.roots[i].required)
    }

    /// The proof that the subset `signers` may spend from the address
    /// `root`: `InvalidInput` when the store holds no such address or the
    /// subset is not one of its leaves.
    pub fn generate_proof(&self, root: &H256, signers: &Vec<PublicKey>, passphrase: &str) -> (r: Result<MerkleProof, Error>)
        requires
            self.wf(),
        ensures
            match open_root(self.roots_spec(), root@, passphrase@) {
                Ok(rec) => (r matches Ok(p) ==> proves(root@, p.leaf@, steps(p.path@))
                    && p.leaf@ == subset_leaf(sorted_keys_of(signers@)))
                    && (r matches Err(e) ==> e.kind == ErrorKind::InvalidInput)
                    && (r is Ok <==> subset_leaves(key_bytes(rec.signers@), rec.required as nat).contains(
                        subset_leaf(sorted_keys_of(signers@)),
                    )),
                Err(k) => r matches Err(e) && e.kind == k,
            },
    {
        let i = self.open_root_at(root, passphrase)?;
        let tree = or_tree(&self.roots[i].signers, self.roots[i].required);
        let leaf = leaf_of_signers(signers);
        proof {
            lemma_keyed_pos_facts(self.roots@, root@, passphrase@, 0);
            assert(self.roots@[i as int].root_hash@ == root@);
        }
        match tree.generate_proof(leaf.as_slice()) {
            Some(p) => Ok(p),
            None => Err(Error::new(ErrorKind::InvalidInput)),
        }
    }

    /// Stores a session; returns its id.
    pub(crate) fn add_session(&mut self, session: MultiSigSession) -> (r: H256)
        requires
            old(self).wf(),
            session.wf(),
        ensures
            final(self).wf(),
            r == session.id,
            final(self).sessions_spec() == old(self).sessions_spec().push(session),
            final(self).wallets_spec() == old(self).wallets_spec(),
            final(self).keys_spec() == old(self).keys_spec(),
            final(self).roots_spec() == old(self).roots_spec(),
    {
        let id = session.id;
        self.sessions.push(session);
        proof {
            assert forall|i: int| 0 <= i < self.sessions@.len() implies (#[trigger] self.sessions@[i]).wf() by {
                if i < old(self).sessions@.len() {
                    assert(self.sessions@[i] == old(self).sessions@[i]);
                }
            }
        }
        id
    }

    /// Finds the session `id` and opens it with `passphrase`.
    pub fn open_session_at(&self, id: &H256, passphrase: &str) -> (r: Result<usize, Error>)
        ensures
            match open_session(self.sessions_spec(), id@, passphrase@) {
                Ok(s) => r matches Ok(i) && session_pos(self.sessions_spec(), id@, 0) == Some(i as int)
                    && i < self.sessions_spec().len(),
                Err(k) => r matches Err(e) && e.kind == k,
            },
    {
        let mut i: usize = 0;
        while i < self.sessions.len()
            invariant
                i <= self.sessions@.len(),
                session_pos(self.sessions@, id@, 0) == session_pos(self.sessions@, id@, i as int),
            decreases self.sessions.len() - i,
        {
            if same_bytes(&self.sessions[i].id, id) {
                let p = passphrase.to_owned();
                if self.sessions[i].opens_with(&p) {
                    return Ok(i);
                } else {
                    return Err(Error::new(ErrorKind::PermissionDenied));
                }
            }
            i = i + 1;
        }
        Err(Error::new(ErrorKind::InvalidInput))
    }

    /// Whether a session `id` is stored.
    pub fn has_session(&self, id: &H256) -> (r: bool)
        ensures
            r == (session_pos(self.sessions_spec(), id@, 0) is Some),
    {
        let mut i: usize = 0;
        while i < self.sessions.len()
            invariant
                i <= self.sessions@.len(),
                session_pos(self.sessions@, id@, 0) == session_pos(self.sessions@, id@, i as int),
            decreases self.sessions.len() - i,
        {
            if same_bytes(&self.sessions[i].id, id) {
                return true;
            }
            i = i + 1;
        }
        false
    }

    /// The session at `i`.
    pub(crate) fn session(&self, i: usize) -> (r: &MultiSigSession)
        requires
            i < self.sessions_spec().len(),
        ensures
            *r == self.sessions_spec()[i as int],
            self.wf() ==> r.wf(),
    {
        &self.sessions[i]
    }

    /// Takes the session at `i` out, for an update that `put_session` stores.
    pub(crate) fn take_session(&mut self, i: usize) -> (r: MultiSigSession)
        requires
            i < old(self).sessions_spec().len(),
            old(self).wf(),
        ensures
            r == old(self).sessions_spec()[i as int],
            r.wf(),
            final(self).sessions_spec() == old(self).sessions_spec().remove(i as int),
            final(self).wallets_spec() == old(self).wallets_spec(),
            final(self).keys_spec() == old(self).keys_spec(),
            final(self).roots_spec() == old(self).roots_spec(),
            final(self).wf(),
    {
        let r = self.sessions.remove(i);
        proof {
            assert forall|j: int| 0 <= j < self.sessions@.len() implies (#[trigger] self.sessions@[j]).wf() by {
                if j < i {
                    assert(self.sessions@[j] == old(self).sessions@[j]);
                } else {
                    assert(self.sessions@[j] == old(self).sessions@[j + 1]);
                }
            }
        }
        r
    }

    /// Puts a session back at `i`.
    pub(crate) fn put_session(&mut self, i: usize, session: MultiSigSession)
        requires
            i <= old(self).sessions_spec().len(),
            old(self).wf(),
            session.wf(),
        ensures
            final(self).sessions_spec() == old(self).sessions_spec().insert(i as int, session),
            final(self).wallets_spec() == old(self).wallets_spec(),
            final(self).keys_spec() == old(self).keys_spec(),
            final(self).roots_spec() == old(self).roots_spec(),
            final(self).wf(),
    {
        self.sessions.insert(i, session);
        proof {
            assert forall|j: int| 0 <= j < self.sessions@.len() implies (#[trigger] self.sessions@[j]).wf() by {
                if j < i {
                    assert(self.sessions@[j] == old(self).sessions@[j]);
                } else if j > i {
                    assert(self.sessions@[j] == old(self).sessions@[j - 1]);
                }
            }
        }
    }
}

/// The position of the first session `id` at or after `i`.
pub open spec fn session_pos(ss: Seq<MultiSigSession>, id: Seq<u8>, i: int) -> Option<int>
    decreases ss.len() - i,
{
    if i < 0 || i >= ss.len() {
        None
    } else if ss[i].id@ == id {
        Some(i)
    } else {
        session_pos(ss, id, i + 1)
    }
}

/// The session `id`, opened with `passphrase`: `InvalidInput` when there is
/// none, `PermissionDenied` when it is kept under another passphrase.
pub open spec fn open_session(ss: Seq<MultiSigSession>, id: Seq<u8>, passphrase: Seq<char>) -> Result<
    MultiSigSession,
    ErrorKind,
> {
    match session_pos(ss, id, 0) {
        None => Err(ErrorKind::InvalidInput),
        Some(i) => if ss[i].passphrase_spec() == passphrase {
            Ok(ss[i])
        } else {
            Err(ErrorKind::PermissionDenied)
        },
    }
}

/// The multi-signature address whose root is `root`, opened with
/// `passphrase`: `InvalidInput` when there is none, `PermissionDenied` when
/// it is kept under another passphrase.
pub open spec fn open_root(rs: Seq<RootHashRecord>, root: Seq<u8>, passphrase: Seq<char>) -> Result<
    RootHashRecord,
    ErrorKind,
> {
    match keyed_root_pos(rs, root, passphrase, 0) {
        Some(i) => Ok(rs[i]),
        None => if root_pos(rs, root, 0) is Some {
            Err(ErrorKind::PermissionDenied)
        } else {
            Err(ErrorKind::InvalidInput)
        },
    }
}

/// The first keyed match at or after `j` is at `i`: there is none in between.
proof fn lemma_keyed_pos_facts(rs: Seq<RootHashRecord>, root: Seq<u8>, passphrase: Seq<char>, j: int)
    requires
        0 <= j,
    ensures
        keyed_root_pos(rs, root, passphrase, j) matches Some(i) ==> j <= i < rs.len()
            && rs[i].root_hash@ == root && rs[i].passphrase@ == passphrase && forall|k: int|
            j <= k < i ==> !(rs[k].root_hash@ == root && rs[k].passphrase@ == passphrase),
        keyed_root_pos(rs, root, passphrase, j) is None ==> forall|k: int|
            j <= k < rs.len() ==> !(rs[k].root_hash@ == root && rs[k].passphrase@ == passphrase),
    decreases rs.len() - j,
{
    if j < rs.len() {
        lemma_keyed_pos_facts(rs, root, passphrase, j + 1);
    }
}

/// With no keyed match before `i` and one at `i`, the first keyed match
/// from `j` is at `i`.
proof fn lemma_keyed_pos_at(rs: Seq<RootHashRecord>, root: Seq<u8>, passphrase: Seq<char>, j: int, i: int)
    requires
        0 <= j <= i < rs.len(),
        rs[i].root_hash@ == root && rs[i].passphrase@ == passphrase,
        forall|k: int| j <= k < i ==> !(rs[k].root_hash@ == root && rs[k].passphrase@ == passphrase),
    ensures
        keyed_root_pos(rs, root, passphrase, j) == Some(i),
    decreases i - j,
{
    if j < i {
        lemma_keyed_pos_at(rs, root, passphrase, j + 1, i);
    }
}

/// `n` keys, among them `self_key`, of which `m` must sign, `1 <= m <= n`.
pub open spec fn valid_multisig(keys: Seq<PublicKey>, self_key: PublicKey, m: usize, n: usize) -> bool {
    keys.len() == n && 1 <= m <= n && keys.contains(self_key)
}


/// The array that holds 32 bytes.
pub open spec fn arr32(s: Seq<u8>) -> H256 {
    choose|a: H256| a@ == s
}

proof fn lemma_arr32(a: H256)
    ensures
        arr32(a@) == a,
{
    let b = arr32(a@);
    assert(b =~= a);
}

/// `after` is `before` with the wallet named `name` holding the given keys
/// and addresses, its name, passphrase and view key kept, and every other
/// wallet unchanged.
pub open spec fn updated_wallet(
    before: Seq<WalletRecord>,
    after: Seq<WalletRecord>,
    name: Seq<char>,
    public_keys: Seq<PublicKey>,
    root_hashes: Seq<H256>,
    staking_addresses: Seq<StakedStateAddress>,
) -> bool {
    &&& after.len() == before.len()
    &&& wallet_pos(before, name, 0) matches Some(i) && {
        &&& after[i].name@ == before[i].name@
        &&& after[i].passphrase@ == before[i].passphrase@
        &&& after[i].view_key == before[i].view_key
        &&& after[i].public_keys@ == public_keys
        &&& after[i].root_hashes@ == root_hashes
        &&& after[i].staking_addresses@ == staking_addresses
        &&& forall|j: int| 0 <= j < before.len() && j != i ==> after[j] == before[j]
    }
}

/// Two wallet lists with the same names find a name at the same place.
proof fn lemma_wallet_pos_same_names(a: Seq<WalletRecord>, b: Seq<WalletRecord>, name: Seq<char>, i: int)
    requires
        a.len() == b.len(),
        forall|j: int| 0 <= j < a.len() ==> (#[trigger] a[j]).name@ == b[j].name@,
    ensures
        wallet_pos(a, name, i) == wallet_pos(b, name, i),
    decreases a.len() - i,
{
    if 0 <= i < a.len() {
        lemma_wallet_pos_same_names(a, b, name, i + 1);
    }
}

/// After an update of the wallet `name`, it still opens with its passphrase,
/// and holds what the update gave it.
pub proof fn lemma_open_updated(before: Seq<WalletRecord>, after: Seq<WalletRecord>, name: Seq<char>, passphrase: Seq<char>)
    requires
        open_wallet(before, name, passphrase) is Ok,
        wallet_pos(before, name, 0) matches Some(i) && after.len() == before.len() && after[i].name@
            == before[i].name@ && after[i].passphrase@ == before[i].passphrase@ && forall|j: int|
            0 <= j < before.len() && j != i ==> after[j] == before[j],
    ensures
        open_wallet(after, name, passphrase) matches Ok(w) && w == after[wallet_pos(before, name, 0)->Some_0],
{
    let i = wallet_pos(before, name, 0)->Some_0;
    lemma_wallet_pos_same_names_upto(before, after, name, 0);
}

proof fn lemma_wallet_pos_same_names_upto(a: Seq<WalletRecord>, b: Seq<WalletRecord>, name: Seq<char>, i: int)
    requires
        a.len() == b.len(),
        wallet_pos(a, name, 0) matches Some(p) && b[p].name@ == a[p].name@ && forall|j: int|
            0 <= j < a.len() && j != p ==> a[j] == b[j],
    ensures
        wallet_pos(a, name, i) == wallet_pos(b, name, i),
    decreases a.len() - i,
{
    if 0 <= i < a.len() {
        let p = wallet_pos(a, name, 0)->Some_0;
        if i != p {
            assert(a[i] == b[i]);
        }
        lemma_wallet_pos_same_names_upto(a, b, name, i + 1);
    }
}

/// A wallet opens with the passphrase it was created with, and with no
/// other: any other passphrase is refused with `PermissionDenied`, which
/// carries nothing of the wallet's contents.
pub proof fn lemma_passphrase_gate(
    ws: Seq<WalletRecord>,
    name: Seq<char>,
    passphrase: Seq<char>,
    other: Seq<char>,
)
    requires
        wallet_pos(ws, name, 0) matches Some(i) && ws[i].passphrase@ == passphrase,
    ensures
        open_wallet(ws, name, passphrase) == Ok::<WalletRecord, ErrorKind>(
            ws[wallet_pos(ws, name, 0)->Some_0],
        ),
        other != passphrase ==> open_wallet(ws, name, other) == Err::<WalletRecord, ErrorKind>(
            ErrorKind::PermissionDenied,
        ),
{
}

/// Adding a wallet of a name not yet taken makes it the one found.
pub proof fn lemma_wallet_pos_push(ws: Seq<WalletRecord>, w: WalletRecord, name: Seq<char>, i: int)
    requires
        0 <= i <= ws.len(),
        wallet_pos(ws, name, i) is None,
        w.name@ == name,
    ensures
        wallet_pos(ws.push(w), name, i) == Some(ws.len() as int),
    decreases ws.len() - i,
{
    if i < ws.len() {
        assert(ws.push(w)[i] == ws[i]);
        lemma_wallet_pos_push(ws, w, name, i + 1);
    } else {
        assert(ws.push(w)[i] == w);
    }
}

/// The keys with `key` added, unless it is already among them.
pub open spec fn with_key(keys: Seq<PublicKey>, key: PublicKey) -> Seq<PublicKey> {
    if keys.contains(key) {
        keys
    } else {
        keys.push(key)
    }
}

/// The first record of `public_key` is the pair `(public_key, private_key)`
/// kept under `passphrase`.
pub open spec fn stored_pair(ks: Seq<KeyRecord>, public_key: PublicKey, private_key: PrivateKey, passphrase: Seq<char>) -> bool {
    key_pos(ks, public_key@, 0) matches Some(i) && ks[i].public_key == public_key
        && ks[i].private_key == private_key && ks[i].passphrase@ == passphrase
}

proof fn lemma_key_pos_facts(ks: Seq<KeyRecord>, key: Seq<u8>, j: int)
    requires
        0 <= j,
    ensures
        key_pos(ks, key, j) matches Some(i) ==> j <= i < ks.len() && ks[i].public_key@ == key
            && forall|k: int| j <= k < i ==> ks[k].public_key@ != key,
        key_pos(ks, key, j) is None ==> forall|k: int| j <= k < ks.len() ==> ks[k].public_key@ != key,
    decreases ks.len() - j,
{
    if j < ks.len() {
        lemma_key_pos_facts(ks, key, j + 1);
    }
}

proof fn lemma_key_pos_at(ks: Seq<KeyRecord>, key: Seq<u8>, j: int, i: int)
    requires
        0 <= j <= i < ks.len(),
        ks[i].public_key@ == key,
        forall|k: int| j <= k < i ==> ks[k].public_key@ != key,
    ensures
        key_pos(ks, key, j) == Some(i),
    decreases i - j,
{
    if j < i {
        lemma_key_pos_at(ks, key, j + 1, i);
    }
}

} // verus!
