//! The node's query dispatcher: transaction bodies, metadata and witnesses,
//! Merkle trees and accounts, with inclusion proofs tying a transaction to
//! the app hash of a chosen height.
use vstd::prelude::*;
use vstd::utf8::encode_utf8;
use crate::codec::parse_compact;
use crate::encoding::{
    decode_leaves, enc_merkle_proof, encode_merkle_proof, parse_bytes_list,
    parse_leaves,
};
use crate::hash::{blake2s, blake2s_of};
use crate::merkle::{bytes_eq, first_at, path_of, proves, root_of, steps, MerkleTree};
use crate::storage::{
    KvStore, COL_APP_STATES, COL_BODIES, COL_MERKLE_PROOFS, COL_TX_META, COL_WITNESS,
};
use crate::trie::{lookup, version_entries, AccountTrie};
use crate::types::H256;

verus! {

/// A query: a path, its data, a height, and whether a proof is asked for.
#[derive(Debug)]
pub struct RequestQuery {
    pub path: String,
    pub data: Vec<u8>,
    pub height: i64,
    pub prove: bool,
}

/// One operation of a proof: its type, key and data.
#[derive(Debug)]
pub struct ProofOp {
    pub field_type: String,
    pub key: Vec<u8>,
    pub data: Vec<u8>,
}

/// The answer to a query: `code` 0 for success, else what failed in `log`.
#[derive(Debug)]
pub struct ResponseQuery {
    pub code: u32,
    pub log: String,
    pub value: Vec<u8>,
    pub proof: Option<Vec<ProofOp>>,
}

/// What the node knows of its last committed block.
#[derive(Clone, Copy, Debug)]
pub struct ChainState {
    pub last_block_height: i64,
    pub last_account_root_hash: H256,
}

/// The node: its store, its account store, and the last committed state
/// once it has one.
#[derive(Debug)]
pub struct ChainNodeApp {
    pub storage: KvStore,
    pub accounts: AccountTrie,
    pub last_state: Option<ChainState>,
}

/// The ZigZag map of signed integers onto naturals.
pub open spec fn zigzag(v: int) -> nat {
    if v >= 0 {
        (2 * v) as nat
    } else {
        (-2 * v - 1) as nat
    }
}

/// The LEB128 bytes of a natural: seven bits per byte, low first, the top
/// bit set on all but the last.
pub open spec fn leb128(u: nat) -> Seq<u8>
    decreases u,
{
    if u < 128 {
        seq![u as u8]
    } else {
        seq![(u % 128 + 128) as u8] + leb128(u / 128)
    }
}

/// The variable-length encoding of a signed integer.
pub open spec fn varint_of(v: int) -> Seq<u8> {
    leb128(zigzag(v))
}

/// Relies on integer-encoding's `VarInt::encode_var_vec` for `i64`: the
/// ZigZag value written seven bits per byte, low first.
#[verifier::external_body]
fn encode_height(height: i64) -> (r: Vec<u8>)
    ensures
        r@ == varint_of(height as int),
{
    integer_encoding::VarInt::encode_var_vec(height)
}

/// The key of the witness-commitment operation: the name of the hash.
pub open spec fn txid_hash_id() -> Seq<u8> {
    seq![98u8, 108, 97, 107, 101, 50, 115]
}

fn txid_hash_id_bytes() -> (r: Vec<u8>)
    ensures
        r@ == txid_hash_id(),
{
    let r: Vec<u8> = vec![98u8, 108, 97, 107, 101, 50, 115];
    proof {
        assert(r@ =~= txid_hash_id());
    }
    r
}

/// The path begins with the bytes of `prefix`.
pub open spec fn has_prefix(path: Seq<char>, prefix: Seq<char>) -> bool {
    encode_utf8(prefix).len() <= encode_utf8(path).len() && encode_utf8(path).take(
        encode_utf8(prefix).len() as int,
    ) == encode_utf8(prefix)
}

/// A peer-filter query of the consensus engine.
pub open spec fn is_p2p(path: Seq<char>) -> bool {
    has_prefix(path, "/p2p"@) || has_prefix(path, "p2p"@)
}

fn starts_with(path: &String, prefix: &str) -> (r: bool)
    ensures
        r == has_prefix(path@, prefix@),
{
    let p = path.as_str().as_bytes();
    let q = prefix.as_bytes();
    if q.len() > p.len() {
        return false;
    }
    let (head, _) = p.split_at(q.len());
    bytes_eq(head, q)
}

/// The height whose app hash a proof is rooted at: the tip for 0 or a
/// height beyond the tip, else the height asked for.
pub open spec fn proof_height(last_state: Option<ChainState>, height: i64) -> i64 {
    let last = match last_state {
        Some(s) => s.last_block_height,
        None => 0,
    };
    if height == 0 || height > last {
        last
    } else {
        height
    }
}

/// `r` answers a plain lookup: the value when found, else code 1 and `log`.
pub open spec fn lookup_answer(found: Option<Seq<u8>>, log: Seq<char>, r: ResponseQuery) -> bool {
    match found {
        Some(v) => r.code == 0 && r.value@ == v && r.proof is None,
        None => r.code == 1 && r.log@ == log && r.proof is None,
    }
}

/// The leaves of the Merkle tree stored for the proof height, when the app
/// hash and a well-formed tree are there.
pub open spec fn proof_tree(node: &ChainNodeApp, height: i64) -> Option<Seq<Seq<u8>>> {
    match node.storage.get_spec(COL_APP_STATES, varint_of(proof_height(node.last_state, height) as int)) {
        None => None,
        Some(app_hash) => match node.storage.get_spec(COL_MERKLE_PROOFS, app_hash) {
            None => None,
            Some(blob) => match parse_leaves(blob) {
                Some((ls, k)) => if k == blob.len() {
                    Some(ls)
                } else {
                    None
                },
                None => None,
            },
        },
    }
}

/// `op` commits the witness by its hash.
pub open spec fn witness_op(op: ProofOp, witness: Seq<u8>) -> bool {
    op.field_type@ == "witness"@ && op.key@ == txid_hash_id() && op.data@ == blake2s_of(witness)
}

/// `ops` prove the body of `txid` at a height whose tree has `leaves`: a
/// `transaction` operation with the tree's root and an encoded inclusion
/// path when the transaction is in the tree, then the witness operation.
pub open spec fn proof_ops(ops: Seq<ProofOp>, leaves: Seq<Seq<u8>>, txid: Seq<u8>, witness: Seq<u8>) -> bool {
    if leaves.contains(txid) && txid.len() <= u32::MAX {
        &&& ops.len() == 2
        &&& ops[0].field_type@ == "transaction"@
        &&& ops[0].key@ == root_of(leaves)
        &&& exists|path: Seq<crate::merkle::ProofStep>, i: int|
            #![trigger steps(path), path_of(leaves, i)]
            first_at(leaves, txid, i) && steps(path) == path_of(leaves, i) && proves(
                root_of(leaves),
                txid,
                steps(path),
            ) && ops[0].data@ == enc_merkle_proof(txid, path)
        &&& witness_op(ops[1], witness)
    } else {
        ops.len() == 1 && witness_op(ops[0], witness)
    }
}

fn response(code: u32, log: &str) -> (r: ResponseQuery)
    ensures
        r.code == code,
        r.log@ == log@,
        r.value@.len() == 0,
        r.proof is None,
{
    ResponseQuery { code, log: log.to_owned(), value: Vec::new(), proof: None }
}

fn witness_proof_op(witness: &[u8]) -> (r: ProofOp)
    ensures
        witness_op(r, witness@),
{
    let h = blake2s(witness);
    let mut data: Vec<u8> = Vec::new();
    data.extend_from_slice(h.as_slice());
    proof {
        assert(data@ =~= h@);
    }
    ProofOp { field_type: "witness".to_owned(), key: txid_hash_id_bytes(), data }
}

/// `r` answers a `store` query: the body, and with `prove` its proof.
pub open spec fn store_answer(node: &ChainNodeApp, req: &RequestQuery, r: ResponseQuery) -> bool {
    match node.storage.get_spec(COL_BODIES, req.data@) {
        None => r.code == 1 && r.log@ == "tx not found"@ && r.proof is None,
        Some(body) => r.value@ == body && if !req.prove {
            r.code == 0 && r.proof is None
        } else {
            match node.storage.get_spec(COL_WITNESS, req.data@) {
                None => r.code == 2 && r.log@ == "proof error: witness not found"@ && r.proof is None,
                Some(w) => match proof_tree(node, req.height) {
                    None => r.code == 2 && r.log@ == tree_failure_log(node, req.height) && r.proof is None,
                    Some(ls) => r.code == 0 && (r.proof matches Some(ops) && proof_ops(
                        ops@,
                        ls,
                        req.data@,
                        w,
                    )),
                },
            }
        },
    }
}

/// Why the tree of the proof height could not be had.
pub open spec fn tree_failure_log(node: &ChainNodeApp, height: i64) -> Seq<char> {
    match node.storage.get_spec(COL_APP_STATES, varint_of(proof_height(node.last_state, height) as int)) {
        None => "proof error: app state not found"@,
        Some(app_hash) => match node.storage.get_spec(COL_MERKLE_PROOFS, app_hash) {
            None => "proof error: merkle tree not found"@,
            Some(blob) => "proof error: invalid merkle tree"@,
        },
    }
}

/// The log of an `account` query that the node cannot answer.
pub open spec fn account_refused_log() -> Seq<char> {
    "account lookup failed (either invalid address or node not correctly restored / initialized)"@
}

/// The log of a query on a mock encryption or decryption path.
pub open spec fn mock_log() -> Seq<char> {
    "received a temporary *mock* encryption/decryption query in abci (use the dedicated enclaves instead)"@
}

/// The account-store key of a staking address: its hash.
pub open spec fn account_key(address: Seq<u8>) -> Seq<u8> {
    blake2s_of(address)
}

/// `r` answers an `account` query: the encoded staked state of the
/// 20-byte address in the version of the last account root.
pub open spec fn account_answer(node: &ChainNodeApp, data: Seq<u8>, r: ResponseQuery) -> bool {
    match node.last_state {
        Some(st) => if data.len() == 20 {
            match match version_entries(node.accounts.versions_spec(), st.last_account_root_hash@) {
                Some(es) => lookup(es, account_key(data)),
                None => None,
            } {
                Some(v) => r.code == 0 && r.value@ == v && r.proof is None,
                None => r.code == 1 && r.log@ == "account lookup failed: account not found"@
                    && r.proof is None,
            }
        } else {
            r.code == 3 && r.log@ == account_refused_log() && r.value@.len() == 0 && r.proof is None
        },
        None => r.code == 3 && r.log@ == account_refused_log() && r.value@.len() == 0
            && r.proof is None,
    }
}

impl ChainNodeApp {
    /// A plain lookup under `column`: the value, or code 1 with `log`.
    fn lookup(&self, column: u32, key: &[u8], log: &str) -> (r: ResponseQuery)
        ensures
            lookup_answer(self.storage.get_spec(column, key@), log@, r),
    {
        match self.storage.get(column, key) {
            Some(v) => ResponseQuery { code: 0, log: String::new(), value: v, proof: None },
            None => response(1, log),
        }
    }

    /// The inclusion proof of the transaction `txid`, whose witness is
    /// `witness`: code 2 when the app hash or the tree of the proof height
    /// is missing or malformed.
    fn store_proof(&self, txid: &[u8], height: i64, witness: &[u8]) -> (r: Result<Vec<ProofOp>, ResponseQuery>)
        ensures
            match proof_tree(self, height) {
                Some(ls) => r matches Ok(ops) && proof_ops(ops@, ls, txid@, witness@),
                None => r matches Err(e) && e.code == 2 && e.log@ == tree_failure_log(self, height)
                    && e.proof is None,
            },
    {
        let last: i64 = match self.last_state {
            Some(s) => s.last_block_height,
            None => 0,
        };
        let h: i64 = if height == 0 || height > last { last } else { height };
        let key = encode_height(h);
        let app_hash = match self.storage.get(COL_APP_STATES, key.as_slice()) {
            Some(a) => a,
            None => return Err(response(2, "proof error: app state not found")),
        };
        let blob = match self.storage.get(COL_MERKLE_PROOFS, app_hash.as_slice()) {
            Some(b) => b,
            None => return Err(response(2, "proof error: merkle tree not found")),
        };
        let leaves = match decode_leaves(blob.as_slice()) {
            Some(ls) => ls,
            None => return Err(response(2, "proof error: invalid merkle tree")),
        };
        let ghost ls = leaves.deep_view();
        proof {
            assert(h == proof_height(self.last_state, height));
            assert(proof_tree(self, height) == Some(ls));
        }
        let tree = MerkleTree::new(leaves);
        let mut ops: Vec<ProofOp> = Vec::new();
        if txid.len() <= u32::MAX as usize {
            match tree.generate_proof(txid) {
                Some(p) => {
                    proof {
                        lemma_leaf_count(blob@);
                    }
                    let root = tree.root_hash();
                    let mut key: Vec<u8> = Vec::new();
                    key.extend_from_slice(root.as_slice());
                    let data = encode_merkle_proof(&p);
                    proof {
                        assert(key@ =~= root@);
                        assert(proves(root_of(ls), txid@, steps(p.path@)));
                    }
                    let w = witness_proof_op(witness);
                    ops.push(ProofOp { field_type: "transaction".to_owned(), key, data });
                    ops.push(w);
                    proof {
                        assert(ls.contains(txid@));
                        assert(ops@.len() == 2);
                        assert(ops@[0].data@ == enc_merkle_proof(txid@, p.path@));
                        assert(proof_ops(ops@, ls, txid@, witness@));
                    }
                    return Ok(ops);
                },
                None => {},
            }
        }
        ops.push(witness_proof_op(witness));
        Ok(ops)
    }
}

/// A tree read from its encoding has at most `u32::MAX` leaves.
proof fn lemma_leaf_count(blob: Seq<u8>)
    ensures
        parse_leaves(blob) matches Some((ls, k)) ==> ls.len() <= u32::MAX,
{
    match parse_compact(blob) {
        Some((n, k)) => lemma_bytes_list_len(blob.skip(k as int), n as nat),
        None => {},
    }
}

proof fn lemma_bytes_list_len(s: Seq<u8>, n: nat)
    ensures
        parse_bytes_list(s, n) matches Some((ls, m)) ==> ls.len() == n,
    decreases n,
{
    if n > 0 {
        match parse_compact(s) {
            Some((len, k)) => {
                if s.len() >= k + len {
                    lemma_bytes_list_len(s.skip(k + len), (n - 1) as nat);
                }
            },
            None => {},
        }
    }
}

impl ChainNodeApp {
    /// A node with `storage` and `accounts`, and `last_state` once it has
    /// committed.
    pub fn new(storage: KvStore, accounts: AccountTrie, last_state: Option<ChainState>) -> (r: ChainNodeApp)
        ensures
            r.storage == storage,
            r.accounts == accounts,
            r.last_state == last_state,
    {
        ChainNodeApp { storage, accounts, last_state }
    }

    fn account(&self, data: &Vec<u8>) -> (r: ResponseQuery)
        ensures
            account_answer(self, data@, r),
    {
        let failed = "account lookup failed (either invalid address or node not correctly restored / initialized)";
        match self.last_state {
            Some(st) => {
                if data.len() != 20 {
                    return response(3, failed);
                }
                let key = blake2s(data.as_slice());
                match self.accounts.get(&st.last_account_root_hash, &key) {
                    Some(v) => ResponseQuery { code: 0, log: String::new(), value: v, proof: None },
                    None => response(1, "account lookup failed: account not found"),
                }
            },
            None => response(3, failed),
        }
    }

    fn store(&self, req: &RequestQuery) -> (r: ResponseQuery)
        ensures
            store_answer(self, req, r),
    {
        let body = match self.storage.get(COL_BODIES, req.data.as_slice()) {
            Some(b) => b,
            None => return response(1, "tx not found"),
        };
        if !req.prove {
            return ResponseQuery { code: 0, log: String::new(), value: body, proof: None };
        }
        let witness = match self.storage.get(COL_WITNESS, req.data.as_slice()) {
            Some(w) => w,
            None => {
                return ResponseQuery {
                    code: 2,
                    log: "proof error: witness not found".to_owned(),
                    value: body,
                    proof: None,
                };
            },
        };
        match self.store_proof(req.data.as_slice(), req.height, witness.as_slice()) {
            Ok(ops) => ResponseQuery { code: 0, log: String::new(), value: body, proof: Some(ops) },
            Err(e) => ResponseQuery { code: e.code, log: e.log, value: body, proof: None },
        }
    }

    /// Answers a query. Peer-filter paths (`/p2p...`, `p2p...`) always
    /// succeed with an empty answer. A negative height is refused with
    /// code 1. `store`, `meta`, `witness` and `merkle` look their data up
    /// (code 1 when missing); `store` with `prove` adds the proof (code 2
    /// when it cannot be built); `account` reads the staked state under the
    /// last account root (code 3 before the node is initialised or for an
    /// address of the wrong length). Any other path is refused with code 1.
    pub fn query_handler(&self, req: &RequestQuery) -> (r: ResponseQuery)
        ensures
            is_p2p(req.path@) ==> r.code == 0 && r.log@.len() == 0 && r.value@.len() == 0
                && r.proof is None,
            !is_p2p(req.path@) && req.height < 0 ==> r.code == 1 && r.log@ == "invalid height"@
                && r.value@.len() == 0 && r.proof is None,
            !is_p2p(req.path@) && req.height >= 0 ==> if req.path@ == "store"@ {
                store_answer(self, req, r)
            } else if req.path@ == "meta"@ {
                lookup_answer(self.storage.get_spec(COL_TX_META, req.data@), "tx not found"@, r)
            } else if req.path@ == "witness"@ {
                lookup_answer(self.storage.get_spec(COL_WITNESS, req.data@), "tx not found"@, r)
            } else if req.path@ == "merkle"@ {
                lookup_answer(
                    self.storage.get_spec(COL_MERKLE_PROOFS, req.data@),
                    "app state not found"@,
                    r,
                )
            } else if req.path@ == "account"@ {
                account_answer(self, req.data@, r)
            } else if req.path@ == "mockencrypt"@ || req.path@ == "mockdecrypt"@ {
                r.code == 1 && r.log@ == mock_log() && r.value@.len() == 0 && r.proof is None
            } else {
                r.code == 1 && r.log@ == "invalid path"@ && r.value@.len() == 0 && r.proof is None
            },
    {
        if starts_with(&req.path, "/p2p") || starts_with(&req.path, "p2p") {
            return ResponseQuery { code: 0, log: String::new(), value: Vec::new(), proof: None };
        }
        if req.height < 0 {
            return response(1, "invalid height");
        }
        if req.path == "store".to_owned() {
            self.store(req)
        } else if req.path == "meta".to_owned() {
            self.lookup(COL_TX_META, req.data.as_slice(), "tx not found")
        } else if req.path == "witness".to_owned() {
            self.lookup(COL_WITNESS, req.data.as_slice(), "tx not found")
        } else if req.path == "merkle".to_owned() {
            self.lookup(COL_MERKLE_PROOFS, req.data.as_slice(), "app state not found")
        } else if req.path == "account".to_owned() {
            self.account(&req.data)
        } else if req.path == "mockencrypt".to_owned() || req.path == "mockdecrypt".to_owned() {
            response(
                1,
                "received a temporary *mock* encryption/decryption query in abci (use the dedicated enclaves instead)",
            )
        } else {
            response(1, "invalid path")
        }
    }
}

} // verus!
