use chain_app::encoding::encode_leaves;
use blake2::Digest;
use chain_app::merkle::MerkleTree;
use chain_app::query::{ChainNodeApp, ChainState, RequestQuery};
use chain_app::storage::{
    KvStore, COL_APP_STATES, COL_BODIES, COL_MERKLE_PROOFS, COL_TX_META, COL_WITNESS,
};
use chain_app::trie::AccountTrie;
use integer_encoding::VarInt;

fn blake2s(data: &[u8]) -> [u8; 32] {
    blake2::Blake2s256::digest(data).into()
}

fn request(path: &str, data: Vec<u8>, height: i64, prove: bool) -> RequestQuery {
    RequestQuery {
        path: path.to_string(),
        data,
        height,
        prove,
    }
}

fn node(with_witness: bool) -> (ChainNodeApp, [u8; 32], MerkleTree) {
    let txid = [5u8; 32];
    let other = [6u8; 32];
    let tree = MerkleTree::new(vec![other.to_vec(), txid.to_vec()]);
    let app_hash = [9u8; 32];
    let mut storage = KvStore::new();
    storage.put(COL_BODIES, txid.to_vec(), b"body".to_vec());
    if with_witness {
        storage.put(COL_WITNESS, txid.to_vec(), b"witness".to_vec());
    }
    storage.put(COL_TX_META, txid.to_vec(), vec![1]);
    storage.put(COL_APP_STATES, 1i64.encode_var_vec(), app_hash.to_vec());
    storage.put(
        COL_MERKLE_PROOFS,
        app_hash.to_vec(),
        encode_leaves(&vec![other.to_vec(), txid.to_vec()]),
    );
    let mut accounts = AccountTrie::new();
    let account_root = accounts
        .insert(None, &vec![blake2s(&[3u8; 20])], &vec![b"staked".to_vec()])
        .unwrap();
    let state = ChainState {
        last_block_height: 1,
        last_account_root_hash: account_root,
    };
    (ChainNodeApp::new(storage, accounts, Some(state)), txid, tree)
}

#[test]
fn store_with_proof() {
    let (app, txid, tree) = node(true);
    let resp = app.query_handler(&request("store", txid.to_vec(), 0, true));
    assert_eq!(resp.code, 0);
    assert_eq!(resp.value, b"body".to_vec());
    let ops = resp.proof.expect("proof");
    assert_eq!(ops.len(), 2);
    assert_eq!(ops[0].field_type, "transaction");
    assert_eq!(ops[0].key, tree.root_hash().to_vec());
    assert_eq!(ops[1].field_type, "witness");
    assert_eq!(ops[1].key, b"blake2s".to_vec());
    assert_eq!(ops[1].data, blake2s(b"witness").to_vec());
}

#[test]
fn store_height_beyond_tip_uses_tip() {
    let (app, txid, _) = node(true);
    let resp = app.query_handler(&request("store", txid.to_vec(), 7, true));
    assert_eq!(resp.code, 0);
    assert_eq!(resp.proof.unwrap().len(), 2);
    let negative = app.query_handler(&request("store", txid.to_vec(), -3, true));
    assert_eq!((negative.code, negative.log.as_str()), (1, "invalid height"));
    let earlier = app.query_handler(&request("store", txid.to_vec(), 1, true));
    assert_eq!(earlier.code, 0);
}

#[test]
fn store_without_witness() {
    let (app, txid, _) = node(false);
    let resp = app.query_handler(&request("store", txid.to_vec(), 0, true));
    assert_eq!(resp.code, 2);
    assert_eq!(resp.log, "proof error: witness not found");
    let plain = app.query_handler(&request("store", txid.to_vec(), 0, false));
    assert_eq!(plain.code, 0);
    assert!(plain.proof.is_none());
}

#[test]
fn store_absent_from_tree_has_witness_op_only() {
    let (mut app, _, _) = node(true);
    let stranger = [8u8; 32];
    app.storage.put(COL_BODIES, stranger.to_vec(), b"b".to_vec());
    app.storage.put(COL_WITNESS, stranger.to_vec(), b"w".to_vec());
    let resp = app.query_handler(&request("store", stranger.to_vec(), 0, true));
    assert_eq!(resp.code, 0);
    let ops = resp.proof.unwrap();
    assert_eq!(ops.len(), 1);
    assert_eq!(ops[0].field_type, "witness");
}

#[test]
fn lookups_and_paths() {
    let (app, txid, _) = node(true);
    assert_eq!(app.query_handler(&request("meta", txid.to_vec(), 0, false)).value, vec![1]);
    let missing = app.query_handler(&request("meta", vec![0; 32], 0, false));
    assert_eq!((missing.code, missing.log.as_str()), (1, "tx not found"));
    assert_eq!(
        app.query_handler(&request("witness", txid.to_vec(), 0, false)).value,
        b"witness".to_vec()
    );
    let merkle = app.query_handler(&request("merkle", vec![1; 32], 0, false));
    assert_eq!((merkle.code, merkle.log.as_str()), (1, "app state not found"));
    assert_eq!(app.query_handler(&request("/p2p/filter/id/x", vec![], 0, false)).code, 0);
    assert_eq!(app.query_handler(&request("p2p/filter/addr/y", vec![], 0, false)).code, 0);
    let invalid = app.query_handler(&request("nothing", vec![], 0, false));
    assert_eq!((invalid.code, invalid.log.as_str()), (1, "invalid path"));
    let mock = app.query_handler(&request("mockencrypt", vec![], 0, false));
    assert_eq!(mock.code, 1);
    assert!(!mock.log.is_empty());
    let peer = app.query_handler(&request("/p2p/filter/id/x", vec![1], -1, true));
    assert_eq!((peer.code, peer.log.as_str(), peer.value.len()), (0, "", 0));
}

#[test]
fn account_queries() {
    let (app, _, _) = node(true);
    let address = [3u8; 20];
    let found = app.query_handler(&request("account", address.to_vec(), 0, false));
    assert_eq!(found.code, 0);
    assert_eq!(found.value, b"staked".to_vec());
    let other = app.query_handler(&request("account", vec![1; 20], 0, false));
    assert_eq!(other.code, 1);
    let short = app.query_handler(&request("account", vec![1; 19], 0, false));
    assert_eq!(short.code, 3);
    let fresh = ChainNodeApp::new(KvStore::new(), AccountTrie::new(), None);
    assert_eq!(fresh.query_handler(&request("account", address.to_vec(), 0, false)).code, 3);
}

#[test]
fn kv_batches() {
    let mut store = KvStore::new();
    store.write_batch(vec![
        (COL_BODIES, vec![1], vec![10]),
        (COL_BODIES, vec![1], vec![11]),
        (COL_WITNESS, vec![1], vec![12]),
    ]);
    assert_eq!(store.get(COL_BODIES, &[1]), Some(vec![11]));
    assert_eq!(store.get(COL_WITNESS, &[1]), Some(vec![12]));
    assert_eq!(store.get(COL_TX_META, &[1]), None);
}
