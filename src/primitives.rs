//! The transaction data model whose serialized form the store keeps as values.
use vstd::prelude::*;
use crate::gas::Gas;

verus! {

/// ethereum-types' 256-bit unsigned integer, carried through unread.
#[verifier::external_type_specification]
#[verifier::external_body]
pub struct ExU256(ethereum_types::U256);

/// ethereum-types' 160-bit hash, the type of account addresses, carried through unread.
#[verifier::external_type_specification]
#[verifier::external_body]
pub struct ExH160(ethereum_types::H160);

/// Raw payload bytes.
pub type Bytes = Vec<u8>;

/// A transfer of `amount` to the account `to`.
#[derive(Debug)]
pub struct TransferAction {
    pub to: ethereum_types::H160,
    pub amount: ethereum_types::U256,
}

/// What a transaction does.
#[derive(Debug)]
pub enum Action {
    Transfer(TransferAction),
}

/// A transaction before it is signed.
#[derive(Debug)]
pub struct RawTransaction {
    pub chain_id: u32,
    pub nonce: ethereum_types::U256,
    pub action: Action,
    pub gas_price: Gas,
    pub gas: Gas,
    pub value: ethereum_types::U256,
    pub data: Bytes,
}

impl RawTransaction {
    pub fn new(
        chain_id: u32,
        nonce: ethereum_types::U256,
        action: Action,
        gas_price: Gas,
        gas: Gas,
        value: ethereum_types::U256,
        data: Bytes,
    ) -> (r: RawTransaction)
        ensures
            r.chain_id == chain_id,
            r.nonce == nonce,
            r.action == action,
            r.gas_price == gas_price,
            r.gas == gas,
            r.value == value,
            r.data == data,
    {
        RawTransaction { chain_id, nonce, action, gas_price, gas, value, data }
    }
}

} // verus!
