use chain_app::balance::{BalanceChange, BlockTime, TransactionChange};
use chain_app::coin::Coin;
use blake2::Digest;
use chain_app::types::ExtendedAddr;

fn blake2s(data: &[u8]) -> [u8; 32] {
    blake2::Blake2s256::digest(data).into()
}

fn get_transaction_change(balance_change: BalanceChange) -> TransactionChange {
    let now = std::time::SystemTime::now()
        .duration_since(std::time::UNIX_EPOCH)
        .unwrap();
    TransactionChange {
        transaction_id: blake2s(&[0, 1, 2]),
        address: ExtendedAddr::OrTree([0u8; 32]),
        balance_change,
        block_height: 0,
        block_time: BlockTime {
            seconds: now.as_secs() as i64,
            nanos: now.subsec_nanos(),
        },
    }
}

#[test]
fn add_incoming() {
    let coin = Coin::zero().add_change(&get_transaction_change(BalanceChange::Incoming(
        Coin::new(30).expect("Unable to create new coin"),
    )));

    assert_eq!(
        Coin::new(30).expect("Unable to create new coin"),
        coin.expect("Unable to add coins"),
        "Coins does not match"
    );
}

#[test]
fn add_incoming_fail() {
    let coin = Coin::max().add_change(&get_transaction_change(BalanceChange::Incoming(
        Coin::new(30).expect("Unable to create new coin"),
    )));

    assert!(coin.is_err(), "Created coin greater than max value")
}

#[test]
fn add_outgoing() {
    let coin = Coin::new(40)
        .expect("Unable to create new coin")
        .add_change(&get_transaction_change(BalanceChange::Outgoing(
            Coin::new(30).expect("Unable to create new coin"),
        )));

    assert_eq!(
        Coin::new(10).expect("Unable to create new coin"),
        coin.expect("Unable to add coins"),
        "Coins does not match"
    );
}

#[test]
fn add_outgoing_fail() {
    let coin = Coin::zero().add_change(&get_transaction_change(BalanceChange::Outgoing(
        Coin::new(30).expect("Unable to create new coin"),
    )));

    assert!(coin.is_err(), "Created negative coin")
}
