use chain_app::client::{DefaultWalletClient, TransactionBuilder};
use chain_app::coin::Coin;
use chain_app::command::WalletCommand;
use chain_app::error::ErrorKind;
use chain_app::index::UnauthorizedIndex;
use chain_app::keys::redeem_address;
use chain_app::types::StakedStateAddress;
use chain_app::transaction::Transaction;
use chain_app::wallet::MemoryStorage;

fn random_public_key() -> [u8; 33] {
    let secp = secp256k1::Secp256k1::new();
    secp.generate_keypair(&mut secp256k1::rand::thread_rng()).1.serialize()
}

fn client() -> DefaultWalletClient<UnauthorizedIndex> {
    DefaultWalletClient::builder()
        .with_wallet(MemoryStorage::new())
        .build()
        .unwrap()
}

#[test]
fn wrong_passphrase_is_refused() {
    let mut wallet = client();
    wallet.new_wallet("w1", "p").unwrap();
    assert_eq!(wallet.transfer_addresses("w1", "p").unwrap().len(), 0);
    let address = wallet.new_transfer_address("w1", "p").unwrap();
    assert_eq!(wallet.transfer_addresses("w1", "p").unwrap(), vec![address]);

    assert_eq!(wallet.view_key("w1", "q").unwrap_err().kind(), ErrorKind::PermissionDenied);
    assert_eq!(wallet.public_keys("w1", "q").unwrap_err().kind(), ErrorKind::PermissionDenied);
    assert_eq!(wallet.root_hashes("w1", "q").unwrap_err().kind(), ErrorKind::PermissionDenied);
    assert_eq!(
        wallet.transfer_addresses("w1", "q").unwrap_err().kind(),
        ErrorKind::PermissionDenied
    );
    assert_eq!(
        wallet.new_public_key("w1", "q").unwrap_err().kind(),
        ErrorKind::PermissionDenied
    );
    assert!(wallet.view_key("w1", "p").is_ok());
    assert_eq!(wallet.public_keys("w1", "p").unwrap().len(), 1);
}

#[test]
fn duplicate_wallet_is_refused() {
    let mut wallet = client();
    wallet.new_wallet("w", "p").unwrap();
    assert_eq!(wallet.new_wallet("w", "x").unwrap_err().kind(), ErrorKind::InvalidInput);
    assert_eq!(wallet.wallets().unwrap(), vec!["w".to_string()]);
}

#[test]
fn staking_addresses() {
    let mut wallet = client();
    wallet.new_wallet("w", "p").unwrap();
    let address = wallet.new_staking_address("w", "p").unwrap();
    let keys = wallet.public_keys("w", "p").unwrap();
    assert_eq!(address, StakedStateAddress::BasicRedeem(redeem_address(&keys[0])));
    assert_eq!(wallet.staking_addresses("w", "p").unwrap(), vec![address]);
    let StakedStateAddress::BasicRedeem(redeem) = address;
    assert_eq!(wallet.find_public_key("w", "p", &redeem).unwrap(), Some(keys[0]));
}

#[test]
fn private_keys() {
    let mut wallet = client();
    wallet.new_wallet("w", "p").unwrap();
    let key = wallet.new_public_key("w", "p").unwrap();
    assert!(wallet.private_key("p", &key).unwrap().is_some());
    assert_eq!(wallet.private_key("q", &key).unwrap_err().kind(), ErrorKind::PermissionDenied);
    assert_eq!(wallet.private_key("p", &random_public_key()).unwrap(), None);
}

#[test]
fn builder_combinations() {
    assert!(DefaultWalletClient::builder().build().is_ok());
    assert!(client().wallets().is_ok());
    let read_only_index = DefaultWalletClient::builder().with_transaction_read(UnauthorizedIndex);
    assert_eq!(read_only_index.build().err().unwrap().kind(), ErrorKind::InvalidInput);
    let full = DefaultWalletClient::builder()
        .with_wallet(MemoryStorage::new())
        .with_transaction_read(UnauthorizedIndex)
        .with_transaction_write(TransactionBuilder::new(Coin::zero()));
    assert!(full.build().is_ok());
}

#[test]
fn multisig_address_rules() {
    let mut wallet = client();
    wallet.new_wallet("w", "p").unwrap();
    let keys = vec![random_public_key(), random_public_key()];
    let outsider = random_public_key();
    assert_eq!(
        wallet
            .new_multisig_transfer_address("w", "p", keys.clone(), outsider, 1, 2)
            .unwrap_err()
            .kind(),
        ErrorKind::InvalidInput
    );
    assert_eq!(
        wallet
            .new_multisig_transfer_address("w", "p", keys.clone(), keys[0], 3, 2)
            .unwrap_err()
            .kind(),
        ErrorKind::InvalidInput
    );
    let a = wallet
        .new_multisig_transfer_address("w", "p", keys.clone(), keys[0], 2, 2)
        .unwrap();
    let swapped = vec![keys[1], keys[0]];
    let b = wallet
        .new_multisig_transfer_address("w", "p", swapped, keys[1], 2, 2)
        .unwrap();
    assert_eq!(a, b);
    assert!(wallet.generate_proof("w", "p", &a, vec![keys[1], keys[0]]).is_ok());
    assert_eq!(
        wallet.generate_proof("w", "p", &a, vec![keys[0]]).unwrap_err().kind(),
        ErrorKind::InvalidInput
    );
}

#[test]
fn session_rounds_are_ordered() {
    let mut wallet = client();
    wallet.new_wallet("w", "p").unwrap();
    let k1 = wallet.new_public_key("w", "p").unwrap();
    let k2 = wallet.new_public_key("w", "p").unwrap();
    let message = [1u8; 32];
    let s1 = wallet.new_multi_sig_session("w", "p", message, vec![k1, k2], k1).unwrap();
    let s2 = wallet.new_multi_sig_session("w", "p", message, vec![k1, k2], k2).unwrap();
    assert_eq!(wallet.nonce(&s1, "p").unwrap_err().kind(), ErrorKind::NonceNotReady);
    assert_eq!(wallet.nonce(&s1, "q").unwrap_err().kind(), ErrorKind::PermissionDenied);
    assert_eq!(
        wallet.partial_signature(&s1, "p").unwrap_err().kind(),
        ErrorKind::PartialNotReady
    );
    let c2 = wallet.nonce_commitment(&s2, "p").unwrap();
    wallet.add_nonce_commitment(&s1, "p", c2, &k2).unwrap();
    wallet.add_nonce_commitment(&s1, "p", c2, &k2).unwrap();
    let n1 = wallet.nonce(&s1, "p").unwrap();
    assert_eq!(wallet.signature(&s1, "p").unwrap_err().kind(), ErrorKind::PartialNotReady);
    assert_eq!(
        wallet.add_nonce(&s1, "p", &n1, &k2).unwrap_err().kind(),
        ErrorKind::InvalidNonce
    );
    assert_eq!(wallet.nonce(&s1, "p").unwrap_err().kind(), ErrorKind::InvalidInput);
    assert_eq!(
        wallet.new_multi_sig_session("w", "p", message, vec![k2], k1).unwrap_err().kind(),
        ErrorKind::InvalidInput
    );
}

#[test]
fn conflicting_commitment_aborts() {
    let mut wallet = client();
    wallet.new_wallet("w", "p").unwrap();
    let k1 = wallet.new_public_key("w", "p").unwrap();
    let k2 = wallet.new_public_key("w", "p").unwrap();
    let s1 = wallet.new_multi_sig_session("w", "p", [2u8; 32], vec![k1, k2], k1).unwrap();
    wallet.add_nonce_commitment(&s1, "p", [5u8; 32], &k2).unwrap();
    assert_eq!(
        wallet.add_nonce_commitment(&s1, "p", [6u8; 32], &k2).unwrap_err().kind(),
        ErrorKind::InvalidInput
    );
    assert_eq!(
        wallet.add_nonce_commitment(&s1, "p", [5u8; 32], &k2).unwrap_err().kind(),
        ErrorKind::InvalidInput
    );
}

#[test]
fn wallet_commands() {
    let mut wallet = client();
    let new = WalletCommand::New {
        name: "alice".to_string(),
    };
    assert_eq!(
        new.execute(&mut wallet, "p", "other").unwrap_err().kind(),
        ErrorKind::InvalidInput
    );
    assert_eq!(new.execute(&mut wallet, "p", "p").unwrap(), vec!["alice".to_string()]);
    assert_eq!(
        WalletCommand::List.execute(&mut wallet, "", "").unwrap(),
        vec!["alice".to_string()]
    );
}

#[test]
fn shared_address_under_two_passphrases() {
    let mut wallet = client();
    wallet.new_wallet("a", "pa").unwrap();
    wallet.new_wallet("b", "pb").unwrap();
    let keys = vec![random_public_key(), random_public_key(), random_public_key()];
    let first = wallet
        .new_multisig_transfer_address("a", "pa", keys.clone(), keys[0], 2, 3)
        .unwrap();
    let second = wallet
        .new_multisig_transfer_address("b", "pb", keys.clone(), keys[1], 2, 3)
        .unwrap();
    assert_eq!(first, second);
    let root = wallet.find_root_hash("b", "pb", &second).unwrap().unwrap();
    assert_eq!(wallet.required_cosigners("a", "pa", &root).unwrap(), 2);
    assert_eq!(wallet.required_cosigners("b", "pb", &root).unwrap(), 2);
    assert!(wallet.generate_proof("b", "pb", &second, vec![keys[2], keys[0]]).is_ok());
}

#[test]
fn broadcast_needs_an_index() {

    let wallet = client();
    assert_eq!(
        wallet.broadcast_transaction(&Transaction::new()).unwrap_err().kind(),
        ErrorKind::PermissionDenied
    );
}
