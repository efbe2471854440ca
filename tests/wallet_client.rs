use std::sync::RwLock;

use chain_app::balance::{BalanceChange, BlockTime, TransactionChange};
use chain_app::client::{DefaultWalletClient, TransactionBuilder};
use chain_app::coin::Coin;
use chain_app::error::{Error, ErrorKind};
use chain_app::index::{AddressDetails, Index};
use chain_app::encoding::transaction_id;
use chain_app::transaction::{Transaction, TxAttributes};
use chain_app::witness::verify_tree_signature;
use chain_app::types::{ExtendedAddr, TxOut, TxoPointer};
use chain_app::wallet::MemoryStorage;

fn random_public_key() -> [u8; 33] {
    let secp = secp256k1::Secp256k1::new();
    secp.generate_keypair(&mut secp256k1::rand::thread_rng()).1.serialize()
}

fn block_time() -> BlockTime {
    let now = std::time::SystemTime::now()
        .duration_since(std::time::UNIX_EPOCH)
        .unwrap();
    BlockTime {
        seconds: now.as_secs() as i64,
        nanos: now.subsec_nanos(),
    }
}

fn change(id: u8, address: &ExtendedAddr, balance_change: BalanceChange, height: u64) -> TransactionChange {
    TransactionChange {
        transaction_id: [id; 32],
        address: *address,
        balance_change,
        block_height: height,
        block_time: block_time(),
    }
}

fn coin(v: u64) -> Coin {
    Coin::new(v).unwrap()
}

#[derive(Debug)]
pub struct MockIndex {
    addr_1: ExtendedAddr,
    addr_2: ExtendedAddr,
    addr_3: ExtendedAddr,
    changed: RwLock<bool>,
}

impl MockIndex {
    fn new(addr_1: ExtendedAddr, addr_2: ExtendedAddr, addr_3: ExtendedAddr) -> Self {
        Self {
            addr_1,
            addr_2,
            addr_3,
            changed: RwLock::new(false),
        }
    }
}

impl Index for MockIndex {
    fn address_details(&self, address: &ExtendedAddr) -> Result<AddressDetails, Error> {
        let mut address_details = AddressDetails::empty();

        if address == &self.addr_1 {
            address_details.transaction_history = vec![
                change(0, address, BalanceChange::Incoming(coin(30)), 1),
                change(1, address, BalanceChange::Outgoing(coin(30)), 2),
            ];
        } else if address == &self.addr_2 {
            if *self.changed.read().unwrap() {
                address_details.transaction_history = vec![
                    change(1, address, BalanceChange::Incoming(coin(30)), 1),
                    change(2, address, BalanceChange::Outgoing(coin(30)), 2),
                ];
            } else {
                address_details.unspent_transactions = vec![(
                    TxoPointer::new([1u8; 32], 0),
                    TxOut {
                        address: self.addr_2,
                        value: coin(30),
                        valid_from: None,
                    },
                )];
                address_details.transaction_history =
                    vec![change(1, address, BalanceChange::Incoming(coin(30)), 2)];
                address_details.balance = coin(30);
            }
        } else if *self.changed.read().unwrap() && address == &self.addr_3 {
            address_details.unspent_transactions = vec![(
                TxoPointer::new([2u8; 32], 0),
                TxOut {
                    address: self.addr_3,
                    value: coin(30),
                    valid_from: None,
                },
            )];
            address_details.transaction_history =
                vec![change(1, address, BalanceChange::Incoming(coin(30)), 2)];
            address_details.balance = coin(30);
        }

        Ok(address_details)
    }

    fn output(&self, input: &TxoPointer) -> Result<TxOut, Error> {
        let id = &input.id;
        let index = input.index;

        if id == &[0u8; 32] && index == 0 {
            Ok(TxOut {
                address: self.addr_1,
                value: coin(30),
                valid_from: None,
            })
        } else if id == &[1u8; 32] && index == 0 {
            Ok(TxOut {
                address: self.addr_2,
                value: coin(30),
                valid_from: None,
            })
        } else if *self.changed.read().unwrap() && id == &[2u8; 32] && index == 0 {
            Ok(TxOut {
                address: self.addr_3,
                value: coin(30),
                valid_from: None,
            })
        } else {
            Err(Error::new(ErrorKind::TransactionNotFound))
        }
    }

    fn broadcast_transaction(&self, _transaction: &[u8]) -> Result<(), Error> {
        let mut changed = self.changed.write().unwrap();
        *changed = true;
        Ok(())
    }
}

#[test]
fn check_wallet_flow() {
    let mut wallet = DefaultWalletClient::builder()
        .with_wallet(MemoryStorage::new())
        .build()
        .unwrap();

    assert!(wallet.transfer_addresses("name", "passphrase").is_err());

    wallet
        .new_wallet("name", "passphrase")
        .expect("Unable to create a new wallet");

    assert_eq!(0, wallet.transfer_addresses("name", "passphrase").unwrap().len());
    assert_eq!("name".to_string(), wallet.wallets().unwrap()[0]);
    assert_eq!(1, wallet.wallets().unwrap().len());

    let address = wallet
        .new_transfer_address("name", "passphrase")
        .expect("Unable to generate new address");

    let addresses = wallet.transfer_addresses("name", "passphrase").unwrap();

    assert_eq!(1, addresses.len());
    assert_eq!(address, addresses[0], "Addresses don't match");

    assert!(wallet
        .find_root_hash("name", "passphrase", &address)
        .unwrap()
        .is_some());

    assert_eq!(
        ErrorKind::WalletNotFound,
        wallet
            .public_keys("name_new", "passphrase")
            .expect_err("Found public keys for non existent wallet")
            .kind(),
        "Invalid public key present in database"
    );

    assert_eq!(
        ErrorKind::WalletNotFound,
        wallet
            .new_public_key("name_new", "passphrase")
            .expect_err("Generated public key for non existent wallet")
            .kind(),
        "Error of invalid kind received"
    );
}

#[test]
fn check_transaction_flow() {
    let mut wallet = DefaultWalletClient::builder()
        .with_wallet(MemoryStorage::new())
        .build()
        .unwrap();

    wallet.new_wallet("wallet_1", "passphrase").unwrap();
    let addr_1 = wallet.new_transfer_address("wallet_1", "passphrase").unwrap();
    wallet.new_wallet("wallet_2", "passphrase").unwrap();
    let addr_2 = wallet.new_transfer_address("wallet_2", "passphrase").unwrap();
    wallet.new_wallet("wallet_3", "passphrase").unwrap();
    let addr_3 = wallet.new_transfer_address("wallet_3", "passphrase").unwrap();

    assert_eq!(
        ErrorKind::PermissionDenied,
        wallet.balance("wallet_1", "passphrase").unwrap_err().kind()
    );

    let (storage, _) = wallet.into_parts();
    let wallet = DefaultWalletClient::builder()
        .with_wallet(storage.unwrap())
        .with_transaction_read(MockIndex::new(addr_1, addr_2, addr_3))
        .build()
        .unwrap();

    assert_eq!(coin(0), wallet.balance("wallet_1", "passphrase").unwrap());
    assert_eq!(coin(30), wallet.balance("wallet_2", "passphrase").unwrap());
    assert_eq!(coin(0), wallet.balance("wallet_3", "passphrase").unwrap());

    assert_eq!(2, wallet.history("wallet_1", "passphrase").unwrap().len());
    assert_eq!(1, wallet.history("wallet_2", "passphrase").unwrap().len());
    assert_eq!(0, wallet.history("wallet_3", "passphrase").unwrap().len());

    let (storage, index) = wallet.into_parts();
    let wallet = DefaultWalletClient::builder()
        .with_wallet(storage.unwrap())
        .with_transaction_read(index)
        .with_transaction_write(TransactionBuilder::new(Coin::zero()))
        .build()
        .unwrap();

    let transaction = wallet
        .create_transaction(
            "wallet_2",
            "passphrase",
            vec![TxOut {
                address: addr_3,
                value: coin(30),
                valid_from: None,
            }],
            TxAttributes::new(171),
            None,
            addr_1,
        )
        .unwrap();

    assert!(wallet.broadcast_transaction(&transaction).is_ok());

    assert_eq!(coin(0), wallet.balance("wallet_1", "passphrase").unwrap());
    assert_eq!(coin(0), wallet.balance("wallet_2", "passphrase").unwrap());
    assert_eq!(coin(30), wallet.balance("wallet_3", "passphrase").unwrap());

    assert_eq!(2, wallet.history("wallet_1", "passphrase").unwrap().len());
    assert_eq!(2, wallet.history("wallet_2", "passphrase").unwrap().len());
    assert_eq!(1, wallet.history("wallet_3", "passphrase").unwrap().len());

    let transaction = wallet
        .create_transaction(
            "wallet_3",
            "passphrase",
            vec![TxOut {
                address: addr_2,
                value: coin(20),
                valid_from: None,
            }],
            TxAttributes::new(171),
            None,
            addr_1,
        )
        .unwrap();

    assert!(wallet.broadcast_transaction(&transaction).is_ok());

    assert_eq!(
        ErrorKind::InsufficientBalance,
        wallet
            .create_transaction(
                "wallet_2",
                "passphrase",
                vec![TxOut {
                    address: addr_3,
                    value: coin(30),
                    valid_from: None,
                }],
                TxAttributes::new(171),
                None,
                addr_1
            )
            .unwrap_err()
            .kind()
    );
}

#[test]
fn check_unauthorized_wallet() {
    let mut wallet = DefaultWalletClient::builder().build().unwrap();

    assert_eq!(ErrorKind::PermissionDenied, wallet.wallets().unwrap_err().kind());

    assert_eq!(
        ErrorKind::PermissionDenied,
        wallet.new_wallet("name", "passphrase").unwrap_err().kind()
    );

    assert_eq!(
        ErrorKind::PermissionDenied,
        wallet.public_keys("name", "passphrase").unwrap_err().kind()
    );

    assert_eq!(
        ErrorKind::PermissionDenied,
        wallet
            .private_key("passphrase", &random_public_key())
            .unwrap_err()
            .kind()
    );

    assert_eq!(
        ErrorKind::PermissionDenied,
        wallet.new_public_key("name", "passphrase").unwrap_err().kind()
    );

    assert_eq!(
        ErrorKind::PermissionDenied,
        wallet.new_staking_address("name", "passphrase").unwrap_err().kind()
    );

    assert_eq!(
        ErrorKind::PermissionDenied,
        wallet.balance("name", "passphrase").unwrap_err().kind()
    );

    assert_eq!(
        ErrorKind::PermissionDenied,
        wallet.history("name", "passphrase").unwrap_err().kind()
    );

    assert_eq!(
        ErrorKind::PermissionDenied,
        wallet.unspent_transactions("name", "passphrase").unwrap_err().kind()
    );

    assert_eq!(
        ErrorKind::PermissionDenied,
        wallet
            .output(&TxoPointer::new([1u8; 32], 0))
            .unwrap_err()
            .kind()
    );

    assert_eq!(
        ErrorKind::PermissionDenied,
        wallet
            .create_transaction(
                "name",
                "passphrase",
                Vec::new(),
                TxAttributes::new(171),
                None,
                ExtendedAddr::OrTree([0u8; 32])
            )
            .unwrap_err()
            .kind()
    );
}

#[test]
fn invalid_wallet_building() {
    let builder = DefaultWalletClient::builder()
        .with_transaction_write(TransactionBuilder::new(Coin::zero()));

    assert_eq!(ErrorKind::InvalidInput, builder.build().err().unwrap().kind());
}

#[test]
fn check_multi_sig_address_generation() {
    let mut wallet = DefaultWalletClient::builder()
        .with_wallet(MemoryStorage::new())
        .build()
        .unwrap();

    let passphrase = "passphrase";
    let name = "name";

    assert_eq!(
        ErrorKind::WalletNotFound,
        wallet
            .transfer_addresses(name, passphrase)
            .expect_err("Found non-existent addresses")
            .kind()
    );

    wallet
        .new_wallet(name, passphrase)
        .expect("Unable to create a new wallet");

    assert_eq!(0, wallet.transfer_addresses(name, passphrase).unwrap().len());

    let public_keys = vec![random_public_key(), random_public_key(), random_public_key()];

    let tree_address = wallet
        .new_multisig_transfer_address(name, passphrase, public_keys.clone(), public_keys[0], 2, 3)
        .unwrap();

    assert_eq!(1, wallet.transfer_addresses(name, passphrase).unwrap().len());

    let root_hash = wallet
        .find_root_hash(name, passphrase, &tree_address)
        .unwrap()
        .unwrap();

    assert_eq!(2, wallet.required_cosigners(name, passphrase, &root_hash).unwrap());
}

#[test]
fn check_multi_sig_transaction_signing() {
    let mut wallet = DefaultWalletClient::builder()
        .with_wallet(MemoryStorage::new())
        .build()
        .unwrap();

    let passphrase = "passphrase";
    let name = "name";

    wallet.new_wallet(name, passphrase).unwrap();

    let public_key_1 = wallet.new_public_key(name, passphrase).unwrap();
    let public_key_2 = wallet.new_public_key(name, passphrase).unwrap();
    let public_key_3 = wallet.new_public_key(name, passphrase).unwrap();

    let public_keys = vec![public_key_1, public_key_2, public_key_3];

    let multi_sig_address = wallet
        .new_multisig_transfer_address(name, passphrase, public_keys.clone(), public_keys[0], 2, 3)
        .unwrap();

    let transaction = Transaction::new();
    let message = transaction_id(&transaction);

    let session_id_1 = wallet
        .new_multi_sig_session(name, passphrase, message, vec![public_key_1, public_key_2], public_key_1)
        .unwrap();
    let session_id_2 = wallet
        .new_multi_sig_session(name, passphrase, message, vec![public_key_1, public_key_2], public_key_2)
        .unwrap();

    let nonce_commitment_1 = wallet.nonce_commitment(&session_id_1, passphrase).unwrap();
    let nonce_commitment_2 = wallet.nonce_commitment(&session_id_2, passphrase).unwrap();

    assert!(wallet
        .add_nonce_commitment(&session_id_1, passphrase, nonce_commitment_2, &public_key_2)
        .is_ok());
    assert!(wallet
        .add_nonce_commitment(&session_id_2, passphrase, nonce_commitment_1, &public_key_1)
        .is_ok());

    let nonce_1 = wallet.nonce(&session_id_1, passphrase).unwrap();
    let nonce_2 = wallet.nonce(&session_id_2, passphrase).unwrap();

    assert!(wallet
        .add_nonce(&session_id_1, passphrase, &nonce_2, &public_key_2)
        .is_ok());
    assert!(wallet
        .add_nonce(&session_id_2, passphrase, &nonce_1, &public_key_1)
        .is_ok());

    let partial_signature_1 = wallet.partial_signature(&session_id_1, passphrase).unwrap();
    let partial_signature_2 = wallet.partial_signature(&session_id_2, passphrase).unwrap();

    assert!(wallet
        .add_partial_signature(&session_id_1, passphrase, partial_signature_2, &public_key_2)
        .is_ok());
    assert!(wallet
        .add_partial_signature(&session_id_2, passphrase, partial_signature_1, &public_key_1)
        .is_ok());

    let signature = wallet.signature(&session_id_1, passphrase).unwrap();
    let proof = wallet
        .generate_proof(name, passphrase, &multi_sig_address, vec![public_key_1, public_key_2])
        .unwrap();

    assert!(verify_tree_signature(&multi_sig_address, &message, &signature, &proof))
}

#[test]
fn check_1_of_n_schnorr_signature() {
    let mut wallet = DefaultWalletClient::builder()
        .with_wallet(MemoryStorage::new())
        .build()
        .unwrap();

    let passphrase = "passphrase";
    let name = "name";

    wallet.new_wallet(name, passphrase).unwrap();

    let public_key_1 = wallet.new_public_key(name, passphrase).unwrap();
    let public_key_2 = wallet.new_public_key(name, passphrase).unwrap();
    let public_key_3 = wallet.new_public_key(name, passphrase).unwrap();

    let public_keys = vec![public_key_1, public_key_2, public_key_3];

    let tree_address = wallet
        .new_multisig_transfer_address(name, passphrase, public_keys.clone(), public_keys[0], 1, 3)
        .unwrap();

    let transaction = Transaction::new();
    let message = transaction_id(&transaction);

    let signature = wallet
        .schnorr_signature(name, passphrase, &message, &public_key_1)
        .unwrap();

    println!("Signature");

    let proof = wallet
        .generate_proof(name, passphrase, &tree_address, vec![public_key_1])
        .unwrap();

    assert!(verify_tree_signature(&tree_address, &message, &signature, &proof))
}
