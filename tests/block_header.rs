use ethereum_types::U256;
use frenyum_storage::block_header::{BlockHeaderBuilder, HashDigest, MissingField};
use frenyum_storage::timestamp::Timestamp;

#[test]
fn test_block_header_builder() {
    let hash = HashDigest::default();
    let protocol_version = 1;
    let parent_hash = HashDigest::default();
    let block_number = 123;
    let block_height = 456;
    let difficulty = U256::from(1000);
    let timestamp = Timestamp::now();
    let nonce = U256::from(12345);
    let total_difficulty = U256::from(5000);
    let transaction_root = HashDigest::default();

    let header = BlockHeaderBuilder::new()
        .set_hash(hash.clone())
        .set_protocol_version(protocol_version)
        .set_parent_hash(parent_hash.clone())
        .set_block_number(block_number)
        .set_block_height(block_height)
        .set_difficulty(difficulty.clone())
        .set_timestamp(timestamp.clone())
        .set_nonce(nonce.clone())
        .set_total_difficulty(total_difficulty.clone())
        .set_transaction_root(transaction_root.clone())
        .build()
        .unwrap();

    assert_eq!(header.hash(), &hash);
    assert_eq!(header.protocol_version(), protocol_version);
    assert_eq!(header.parent_hash(), &parent_hash);
    assert_eq!(header.block_number(), block_number);
    assert_eq!(header.block_height(), block_height);
    assert_eq!(header.difficulty(), &difficulty);
    assert_eq!(header.timestamp(), &timestamp);
    assert_eq!(header.nonce(), &nonce);
    assert_eq!(header.total_difficulty(), &total_difficulty);
    assert_eq!(header.transaction_root(), &transaction_root);
}

#[test]
fn build_names_the_first_missing_field() {
    let mut builder = BlockHeaderBuilder::new();
    assert_eq!(builder.build().unwrap_err(), MissingField::Hash);
    builder.set_hash(HashDigest([1; 32])).set_protocol_version(2);
    assert_eq!(builder.build().unwrap_err(), MissingField::ParentHash);
    builder
        .set_parent_hash(HashDigest([2; 32]))
        .set_block_number(3)
        .set_block_height(4)
        .set_difficulty(U256::from(5))
        .set_timestamp(Timestamp(6))
        .set_nonce(U256::from(7))
        .set_transaction_root(HashDigest([8; 32]));
    assert_eq!(builder.build().unwrap_err(), MissingField::TotalDifficulty);
    builder.set_total_difficulty(U256::from(9));
    let header = builder.build().unwrap();
    assert_eq!(header.parent_hash(), &HashDigest([2; 32]));
    assert_eq!(header.timestamp(), &Timestamp(6));
    assert_eq!(header.total_difficulty(), &U256::from(9));
}

#[test]
fn setting_a_field_again_replaces_it() {
    let mut builder = BlockHeaderBuilder::new();
    builder.set_block_number(1).set_block_number(2);
    assert_eq!(builder.block_number, Some(2));
}

#[test]
fn default_digest_is_zero() {
    assert_eq!(HashDigest::default(), HashDigest([0; 32]));
}

#[test]
fn test_block_header_default_values() {
    let header = frenyum_storage::block_header::BlockHeader::default();
    assert_eq!(header.hash(), &HashDigest::default());
    assert_eq!(header.protocol_version(), 0);
    assert_eq!(header.parent_hash(), &HashDigest::default());
}

#[test]
fn default_header_has_zero_numbers() {
    let header = frenyum_storage::block_header::BlockHeader::default();
    assert_eq!(header.difficulty(), &U256::zero());
    assert_eq!(header.timestamp(), &Timestamp(0));
    assert_eq!(header.block_number(), 0);
}
