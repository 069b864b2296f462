use frenyum_storage::gas::Gas;
use frenyum_storage::peer::PeerId;
use frenyum_storage::primitives::{Action, RawTransaction, TransferAction};
use ethereum_types::{Address, U256};

#[test]
fn raw_transaction_keeps_its_fields() {
    let action = Action::Transfer(TransferAction { to: Address::from([0; 20]), amount: U256::from(100) });
    let tx = RawTransaction::new(1, U256::from(12345), action, Gas::from(10), Gas::from(1000), U256::from(500), vec![1, 2, 3, 4]);
    assert_eq!(tx.chain_id, 1);
    assert_eq!(tx.nonce, U256::from(12345));
    assert_eq!(tx.gas_price, Gas::from(10));
    assert_eq!(tx.gas, Gas::from(1000));
    assert_eq!(tx.value, U256::from(500));
    assert_eq!(tx.data, vec![1, 2, 3, 4]);
    let Action::Transfer(t) = &tx.action;
    assert_eq!(t.amount, U256::from(100));
}

#[test]
fn peer_ids_compare_by_bytes() {
    assert_eq!(PeerId([3; 32]), PeerId([3; 32]));
    assert_ne!(PeerId([3; 32]), PeerId([4; 32]));
}
