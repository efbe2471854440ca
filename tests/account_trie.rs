use chain_app::error::ErrorKind;
use chain_app::trie::AccountTrie;

#[test]
fn versions_stay_readable() {
    let mut trie = AccountTrie::new();
    let r1 = trie.insert(None, &vec![[1u8; 32]], &vec![vec![10]]).unwrap();
    let r2 = trie.insert(Some(r1), &vec![[1u8; 32], [2u8; 32]], &vec![vec![11], vec![20]]).unwrap();
    assert_ne!(r1, r2);
    assert_eq!(trie.get(&r1, &[1u8; 32]), Some(vec![10]));
    assert_eq!(trie.get(&r1, &[2u8; 32]), None);
    assert_eq!(trie.get(&r2, &[1u8; 32]), Some(vec![11]));
    assert_eq!(trie.get(&r2, &[2u8; 32]), Some(vec![20]));
    assert_eq!(trie.get(&[0u8; 32], &[1u8; 32]), None);
}

#[test]
fn disjoint_batches_commute() {
    let mut trie = AccountTrie::new();
    let base = trie.insert(None, &vec![[5u8; 32]], &vec![vec![5]]).unwrap();
    let a1 = trie.insert(Some(base), &vec![[9u8; 32], [1u8; 32]], &vec![vec![9], vec![1]]).unwrap();
    let ab = trie.insert(Some(a1), &vec![[3u8; 32]], &vec![vec![3]]).unwrap();
    let b1 = trie.insert(Some(base), &vec![[3u8; 32]], &vec![vec![3]]).unwrap();
    let ba = trie.insert(Some(b1), &vec![[1u8; 32], [9u8; 32]], &vec![vec![1], vec![9]]).unwrap();
    assert_eq!(ab, ba);
}

#[test]
fn insert_errors() {
    let mut trie = AccountTrie::new();
    assert_eq!(
        trie.insert(None, &vec![[1u8; 32]], &vec![]).unwrap_err().kind(),
        ErrorKind::InvalidInput
    );
    assert_eq!(
        trie.insert(Some([7u8; 32]), &vec![], &vec![]).unwrap_err().kind(),
        ErrorKind::StorageError
    );
}
