use chain_app::balance::{BalanceChange, BlockTime, TransactionChange};
use chain_app::coin::{sum_coins, Coin, CoinError, MAX_COIN};
use chain_app::encoding::{decode, decode_coin, decode_leaves, encode, encode_coin, encode_leaves};
use chain_app::error::ErrorKind;
use blake2::Digest;
use chain_app::merkle::{verify_proof, MerkleTree};
use chain_app::transaction::{build_transaction, select_inputs, TxAttributes};
use chain_app::types::{ExtendedAddr, TxOut, TxoPointer};

fn blake2s(data: &[u8]) -> [u8; 32] {
    blake2::Blake2s256::digest(data).into()
}

fn coin(v: u64) -> Coin {
    Coin::new(v).unwrap()
}

fn sample_change() -> TransactionChange {
    TransactionChange {
        transaction_id: [7u8; 32],
        address: ExtendedAddr::OrTree([9u8; 32]),
        balance_change: BalanceChange::Outgoing(coin(1234)),
        block_height: 42,
        block_time: BlockTime {
            seconds: -5,
            nanos: 999,
        },
    }
}

#[test]
fn coin_bounds() {
    assert_eq!(Coin::new(MAX_COIN + 1), Err(CoinError::OutOfBound(MAX_COIN + 1)));
    assert_eq!(Coin::max().value(), MAX_COIN);
    assert!(Coin::max().checked_add(coin(1)).is_err());
    assert_eq!(coin(40).checked_add(coin(2)).unwrap().value(), 42);
    assert_eq!(coin(3).checked_sub(coin(4)), Err(CoinError::Negative));
    assert_eq!(coin(4).checked_sub(coin(3)).unwrap().value(), 1);
}

#[test]
fn coin_sums() {
    assert_eq!(sum_coins(&vec![]).unwrap().value(), 0);
    assert_eq!(sum_coins(&vec![coin(1), coin(2), coin(3)]).unwrap().value(), 6);
    assert!(sum_coins(&vec![Coin::max(), coin(1)]).is_err());
    assert!(sum_coins(&vec![Coin::max(), Coin::max()]).is_err());
}

#[test]
fn balance_change_errors() {
    let over = Coin::max().apply_balance_change(&BalanceChange::Incoming(coin(1)));
    assert_eq!(over.unwrap_err().kind(), ErrorKind::BalanceAdditionError);
    let under = coin(5).apply_balance_change(&BalanceChange::Outgoing(coin(6)));
    assert_eq!(under.unwrap_err().kind(), ErrorKind::InsufficientBalance);
    let exact = coin(5).apply_balance_change(&BalanceChange::Outgoing(coin(5)));
    assert_eq!(exact.unwrap().value(), 0);
}

#[test]
fn coin_encoding_bytes() {
    let mut out = Vec::new();
    encode_coin(&coin(30), &mut out);
    assert_eq!(out, vec![30, 0, 0, 0, 0, 0, 0, 0]);
    let mut out = Vec::new();
    encode_coin(&coin(0x0102), &mut out);
    assert_eq!(out, vec![2, 1, 0, 0, 0, 0, 0, 0]);
    assert_eq!(decode_coin(&[30, 0, 0, 0, 0, 0, 0, 0, 99], 0), Some((coin(30), 8)));
    assert_eq!(decode_coin(&[0xff; 8], 0), None);
    assert_eq!(decode_coin(&[1, 2, 3], 0), None);
}

#[test]
fn transaction_change_round_trip() {
    let change = sample_change();
    let bytes = encode(&change).unwrap();
    assert_eq!(bytes[64], 9);
    assert_eq!(bytes[65], 1);
    assert_eq!(decode(&bytes), Some(change));
    let mut longer = bytes.clone();
    longer.push(0);
    assert_eq!(decode(&longer), None);
    assert_eq!(decode(&bytes[..bytes.len() - 1]), None);
}

#[test]
fn block_time_is_rfc3339_text() {
    let mut change = sample_change();
    change.block_time = BlockTime {
        seconds: 0,
        nanos: 0,
    };
    let bytes = encode(&change).unwrap();
    let text = b"1970-01-01T00:00:00+00:00";
    assert_eq!(bytes.len(), 82 + 1 + text.len());
    assert_eq!(bytes[82] as usize, text.len() << 2);
    assert_eq!(&bytes[83..], &text[..]);
    assert_eq!(decode(&bytes), Some(change));
}

#[test]
fn block_time_that_is_not_a_date() {
    let bytes = encode(&sample_change()).unwrap();
    let mut bad = bytes[..82].to_vec();
    bad.push(11 << 2);
    bad.extend_from_slice(&[0u8; 11]);
    assert_eq!(decode(&bad), None);
    let mut bad = bytes[..82].to_vec();
    bad.push(3 << 2);
    bad.extend_from_slice(b"abc");
    assert_eq!(decode(&bad), None);
}

#[test]
fn leaves_encoding() {
    let leaves = vec![vec![1u8, 2, 3]];
    let bytes = encode_leaves(&leaves);
    assert_eq!(bytes, vec![4, 12, 1, 2, 3]);
    assert_eq!(decode_leaves(&bytes), Some(leaves));

    let big = vec![vec![5u8; 100], vec![]];
    let bytes = encode_leaves(&big);
    assert_eq!(&bytes[..3], &[8, 0x91, 0x01]);
    assert_eq!(decode_leaves(&bytes), Some(big));
    assert_eq!(decode_leaves(&[4, 12, 1, 2]), None);
    assert_eq!(decode_leaves(&[0b01, 0]), None);
}

#[test]
fn merkle_proofs() {
    let leaves: Vec<Vec<u8>> = (0u8..5).map(|i| vec![i, i + 1]).collect();
    let tree = MerkleTree::new(leaves.clone());
    let root = tree.root_hash();
    for leaf in &leaves {
        let proof = tree.generate_proof(leaf).expect("leaf in tree");
        assert_eq!(&proof.leaf, leaf);
        assert!(verify_proof(&root, &proof));
        let mut wrong = proof.clone();
        wrong.leaf = vec![99];
        assert!(!verify_proof(&root, &wrong));
    }
    assert!(tree.generate_proof(&[42, 43]).is_none());
    assert_eq!(MerkleTree::new(vec![]).root_hash(), [0u8; 32]);
    let single = MerkleTree::new(vec![vec![1]]);
    assert_eq!(single.root_hash(), blake2s(&[0, 1]));
    let pair = MerkleTree::new(vec![vec![1], vec![2]]);
    let mut node = vec![1u8];
    node.extend_from_slice(&blake2s(&[0, 1]));
    node.extend_from_slice(&blake2s(&[0, 2]));
    assert_eq!(pair.root_hash(), blake2s(&node));
}

fn unspent(values: &[u64]) -> Vec<(TxoPointer, TxOut)> {
    values
        .iter()
        .enumerate()
        .map(|(i, v)| {
            (
                TxoPointer::new([i as u8; 32], 0),
                TxOut {
                    address: ExtendedAddr::OrTree([1u8; 32]),
                    value: coin(*v),
                    valid_from: None,
                },
            )
        })
        .collect()
}

#[test]
fn largest_first_selection() {
    let u = unspent(&[10, 30, 20]);
    let (sel, sum) = select_inputs(&u, 35).unwrap();
    assert_eq!(sel, vec![1, 2]);
    assert_eq!(sum, 50);
    assert_eq!(select_inputs(&u, 0).unwrap().0, Vec::<usize>::new());
    assert!(select_inputs(&u, 61).is_none());
    assert_eq!(select_inputs(&u, 60).unwrap().0, vec![1, 2, 0]);
}

#[test]
fn transaction_building() {
    let u = unspent(&[10, 30, 20]);
    let back = ExtendedAddr::OrTree([3u8; 32]);
    let out = TxOut {
        address: ExtendedAddr::OrTree([2u8; 32]),
        value: coin(35),
        valid_from: None,
    };
    let tx = build_transaction(&u, vec![out], TxAttributes::new(171), coin(1), back).unwrap();
    assert_eq!(tx.inputs, vec![u[1].0, u[2].0]);
    assert_eq!(tx.outputs.len(), 2);
    assert_eq!(tx.outputs[1].address, back);
    assert_eq!(tx.outputs[1].value.value(), 14);
    assert_eq!(tx.attributes.chain_hex_id, 171);

    let exact = build_transaction(&u, vec![out], TxAttributes::new(1), coin(25), back).unwrap();
    assert_eq!(exact.outputs.len(), 1);

    let short = build_transaction(&u, vec![out], TxAttributes::new(1), coin(26), back);
    assert_eq!(short.unwrap_err().kind(), ErrorKind::InsufficientBalance);

    let huge = TxOut {
        address: back,
        value: Coin::max(),
        valid_from: None,
    };
    let overflow = build_transaction(&u, vec![huge, out], TxAttributes::new(1), coin(0), back);
    assert_eq!(overflow.unwrap_err().kind(), ErrorKind::BalanceAdditionError);
}
