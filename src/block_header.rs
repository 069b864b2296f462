//! Block headers, assembled field by field.
use vstd::prelude::*;
use crate::timestamp::Timestamp;

verus! {

pub type BlockNumber = u64;

pub type BlockHeight = u64;

/// A 32-byte digest, as the hashing collaborator produces it.
#[derive(Debug, Clone, Copy, PartialEq, Eq, Hash)]
pub struct HashDigest(pub [u8; 32]);

impl Default for HashDigest {
    fn default() -> (r: HashDigest)
        ensures
            forall|i: int| 0 <= i < 32 ==> r.0@[i] == 0,
    {
        HashDigest([0u8; 32])
    }
}

/// Relies on ethereum-types' `U256::zero`, which makes the number 0; nothing about
/// the value is used here.
pub assume_specification[ ethereum_types::U256::zero ]() -> ethereum_types::U256;

/// A header field that was never set.
#[derive(Debug, Clone, Copy, PartialEq, Eq, Structural)]
pub enum MissingField {
    Hash,
    ProtocolVersion,
    ParentHash,
    BlockNumber,
    BlockHeight,
    Difficulty,
    Timestamp,
    Nonce,
    TotalDifficulty,
    TransactionRoot,
}

/// A block's metadata.
#[derive(Debug)]
pub struct BlockHeader {
    hash: HashDigest,
    protocol_version: u32,
    parent_hash: HashDigest,
    block_number: BlockNumber,
    block_height: BlockHeight,
    difficulty: ethereum_types::U256,
    timestamp: Timestamp,
    nonce: ethereum_types::U256,
    total_difficulty: ethereum_types::U256,
    transaction_root: HashDigest,
}

impl BlockHeader {
    pub closed spec fn spec_hash(&self) -> HashDigest {
        self.hash
    }

    /// The block's hash.
    pub fn hash(&self) -> (r: &HashDigest)
        ensures
            *r == self.spec_hash(),
    {
        &self.hash
    }

    pub closed spec fn spec_protocol_version(&self) -> u32 {
        self.protocol_version
    }

    /// The protocol version.
    pub fn protocol_version(&self) -> (r: u32)
        ensures
            r == self.spec_protocol_version(),
    {
        self.protocol_version
    }

    pub closed spec fn spec_parent_hash(&self) -> HashDigest {
        self.parent_hash
    }

    /// The parent block's hash.
    pub fn parent_hash(&self) -> (r: &HashDigest)
        ensures
            *r == self.spec_parent_hash(),
    {
        &self.parent_hash
    }

    pub closed spec fn spec_block_number(&self) -> BlockNumber {
        self.block_number
    }

    /// The block number.
    pub fn block_number(&self) -> (r: BlockNumber)
        ensures
            r == self.spec_block_number(),
    {
        self.block_number
    }

    pub closed spec fn spec_block_height(&self) -> BlockHeight {
        self.block_height
    }

    /// The block height.
    pub fn block_height(&self) -> (r: BlockHeight)
        ensures
            r == self.spec_block_height(),
    {
        self.block_height
    }

    pub closed spec fn spec_difficulty(&self) -> ethereum_types::U256 {
        self.difficulty
    }

    /// The difficulty.
    pub fn difficulty(&self) -> (r: &ethereum_types::U256)
        ensures
            *r == self.spec_difficulty(),
    {
        &self.difficulty
    }

    pub closed spec fn spec_timestamp(&self) -> Timestamp {
        self.timestamp
    }

    /// The block time.
    pub fn timestamp(&self) -> (r: &Timestamp)
        ensures
            *r == self.spec_timestamp(),
    {
        &self.timestamp
    }

    pub closed spec fn spec_nonce(&self) -> ethereum_types::U256 {
        self.nonce
    }

    /// The nonce.
    pub fn nonce(&self) -> (r: &ethereum_types::U256)
        ensures
            *r == self.spec_nonce(),
    {
        &self.nonce
    }

    pub closed spec fn spec_total_difficulty(&self) -> ethereum_types::U256 {
        self.total_difficulty
    }

    /// The total difficulty.
    pub fn total_difficulty(&self) -> (r: &ethereum_types::U256)
        ensures
            *r == self.spec_total_difficulty(),
    {
        &self.total_difficulty
    }

    pub closed spec fn spec_transaction_root(&self) -> HashDigest {
        self.transaction_root
    }

    /// The transaction root.
    pub fn transaction_root(&self) -> (r: &HashDigest)
        ensures
            *r == self.spec_transaction_root(),
    {
        &self.transaction_root
    }
}

impl Default for BlockHeader {
    /// A header with zero hashes, numbers, difficulties and nonce, stamped at the epoch.
    fn default() -> (r: BlockHeader)
        ensures
            forall|i: int| 0 <= i < 32 ==> r.spec_hash().0@[i] == 0 && r.spec_parent_hash().0@[i] == 0
                && r.spec_transaction_root().0@[i] == 0,
            r.spec_protocol_version() == 0,
            r.spec_block_number() == 0,
            r.spec_block_height() == 0,
            r.spec_timestamp().0 == 0,
    {
        BlockHeader {
            hash: HashDigest::default(),
            protocol_version: 0,
            parent_hash: HashDigest::default(),
            block_number: 0,
            block_height: 0,
            difficulty: ethereum_types::U256::zero(),
            timestamp: Timestamp(0),
            nonce: ethereum_types::U256::zero(),
            total_difficulty: ethereum_types::U256::zero(),
            transaction_root: HashDigest::default(),
        }
    }
}

/// Collects the fields of a header; `build` names the first one still unset.
#[derive(Debug)]
pub struct BlockHeaderBuilder {
    pub hash: Option<HashDigest>,
    pub protocol_version: Option<u32>,
    pub parent_hash: Option<HashDigest>,
    pub block_number: Option<BlockNumber>,
    pub block_height: Option<BlockHeight>,
    pub difficulty: Option<ethereum_types::U256>,
    pub timestamp: Option<Timestamp>,
    pub nonce: Option<ethereum_types::U256>,
    pub total_difficulty: Option<ethereum_types::U256>,
    pub transaction_root: Option<HashDigest>,
}

impl BlockHeaderBuilder {
    /// A builder with no field set.
    pub fn new() -> (r: BlockHeaderBuilder)
        ensures
            r.hash.is_none(),
            r.protocol_version.is_none(),
            r.parent_hash.is_none(),
            r.block_number.is_none(),
            r.block_height.is_none(),
            r.difficulty.is_none(),
            r.timestamp.is_none(),
            r.nonce.is_none(),
            r.total_difficulty.is_none(),
            r.transaction_root.is_none(),
    {
        BlockHeaderBuilder {
            hash: None,
            protocol_version: None,
            parent_hash: None,
            block_number: None,
            block_height: None,
            difficulty: None,
            timestamp: None,
            nonce: None,
            total_difficulty: None,
            transaction_root: None,
        }
    }

    /// Sets the block's hash.
    pub fn set_hash(&mut self, hash: HashDigest) -> (r: &mut Self)
        ensures
            *r == (BlockHeaderBuilder { hash: Some(hash), ..*old(self) }),
            *final(self) == *final(r),
    {
        self.hash = Some(hash);
        self
    }

    /// Sets the protocol version.
    pub fn set_protocol_version(&mut self, version: u32) -> (r: &mut Self)
        ensures
            *r == (BlockHeaderBuilder { protocol_version: Some(version), ..*old(self) }),
            *final(self) == *final(r),
    {
        self.protocol_version = Some(version);
        self
    }

    /// Sets the parent block's hash.
    pub fn set_parent_hash(&mut self, hash: HashDigest) -> (r: &mut Self)
        ensures
            *r == (BlockHeaderBuilder { parent_hash: Some(hash), ..*old(self) }),
            *final(self) == *final(r),
    {
        self.parent_hash = Some(hash);
        self
    }

    /// Sets the block number.
    pub fn set_block_number(&mut self, number: BlockNumber) -> (r: &mut Self)
        ensures
            *r == (BlockHeaderBuilder { block_number: Some(number), ..*old(self) }),
            *final(self) == *final(r),
    {
        self.block_number = Some(number);
        self
    }

    /// Sets the block height.
    pub fn set_block_height(&mut self, height: BlockHeight) -> (r: &mut Self)
        ensures
            *r == (BlockHeaderBuilder { block_height: Some(height), ..*old(self) }),
            *final(self) == *final(r),
    {
        self.block_height = Some(height);
        self
    }

    /// Sets the difficulty.
    pub fn set_difficulty(&mut self, difficulty: ethereum_types::U256) -> (r: &mut Self)
        ensures
            *r == (BlockHeaderBuilder { difficulty: Some(difficulty), ..*old(self) }),
            *final(self) == *final(r),
    {
        self.difficulty = Some(difficulty);
        self
    }

    /// Sets the block time.
    pub fn set_timestamp(&mut self, timestamp: Timestamp) -> (r: &mut Self)
        ensures
            *r == (BlockHeaderBuilder { timestamp: Some(timestamp), ..*old(self) }),
            *final(self) == *final(r),
    {
        self.timestamp = Some(timestamp);
        self
    }

    /// Sets the nonce.
    pub fn set_nonce(&mut self, nonce: ethereum_types::U256) -> (r: &mut Self)
        ensures
            *r == (BlockHeaderBuilder { nonce: Some(nonce), ..*old(self) }),
            *final(self) == *final(r),
    {
        self.nonce = Some(nonce);
        self
    }

    /// Sets the total difficulty.
    pub fn set_total_difficulty(&mut self, total_difficulty: ethereum_types::U256) -> (r: &mut Self)
        ensures
            *r == (BlockHeaderBuilder { total_difficulty: Some(total_difficulty), ..*old(self) }),
            *final(self) == *final(r),
    {
        self.total_difficulty = Some(total_difficulty);
        self
    }

    /// Sets the transaction root.
    pub fn set_transaction_root(&mut self, transaction_root: HashDigest) -> (r: &mut Self)
        ensures
            *r == (BlockHeaderBuilder { transaction_root: Some(transaction_root), ..*old(self) }),
            *final(self) == *final(r),
    {
        self.transaction_root = Some(transaction_root);
        self
    }

    /// The first field, in declaration order, that is not set.
    pub open spec fn first_missing(&self) -> Option<MissingField> {
        if self.hash.is_none() {
            Some(MissingField::Hash)
        } else if self.protocol_version.is_none() {
            Some(MissingField::ProtocolVersion)
        } else if self.parent_hash.is_none() {
            Some(MissingField::ParentHash)
        } else if self.block_number.is_none() {
            Some(MissingField::BlockNumber)
        } else if self.block_height.is_none() {
            Some(MissingField::BlockHeight)
        } else if self.difficulty.is_none() {
            Some(MissingField::Difficulty)
        } else if self.timestamp.is_none() {
            Some(MissingField::Timestamp)
        } else if self.nonce.is_none() {
            Some(MissingField::Nonce)
        } else if self.total_difficulty.is_none() {
            Some(MissingField::TotalDifficulty)
        } else if self.transaction_root.is_none() {
            Some(MissingField::TransactionRoot)
        } else {
            None
        }
    }

    /// The header, once every field is set; otherwise the first unset field, in
    /// the order the fields are declared.
    pub fn build(&self) -> (r: Result<BlockHeader, MissingField>)
        ensures
            match self.first_missing() {
                Some(f) => r == Err::<BlockHeader, MissingField>(f),
                None => {
                    &&& r.is_ok()
                    &&& self.hash == Some(r.unwrap().spec_hash())
                    &&& self.protocol_version == Some(r.unwrap().spec_protocol_version())
                    &&& self.parent_hash == Some(r.unwrap().spec_parent_hash())
                    &&& self.block_number == Some(r.unwrap().spec_block_number())
                    &&& self.block_height == Some(r.unwrap().spec_block_height())
                    &&& self.difficulty == Some(r.unwrap().spec_difficulty())
                    &&& self.timestamp == Some(r.unwrap().spec_timestamp())
                    &&& self.nonce == Some(r.unwrap().spec_nonce())
                    &&& self.total_difficulty == Some(r.unwrap().spec_total_difficulty())
                    &&& self.transaction_root == Some(r.unwrap().spec_transaction_root())
                },
            },
    {
        let hash = match self.hash {
            Some(x) => x,
            None => {
                return Err(MissingField::Hash);
            },
        };
        let protocol_version = match self.protocol_version {
            Some(x) => x,
            None => {
                return Err(MissingField::ProtocolVersion);
            },
        };
        let parent_hash = match self.parent_hash {
            Some(x) => x,
            None => {
                return Err(MissingField::ParentHash);
            },
        };
        let block_number = match self.block_number {
            Some(x) => x,
            None => {
                return Err(MissingField::BlockNumber);
            },
        };
        let block_height = match self.block_height {
            Some(x) => x,
            None => {
                return Err(MissingField::BlockHeight);
            },
        };
        let difficulty = match self.difficulty {
            Some(x) => x,
            None => {
                return Err(MissingField::Difficulty);
            },
        };
        let timestamp = match self.timestamp {
            Some(x) => x,
            None => {
                return Err(MissingField::Timestamp);
            },
        };
        let nonce = match self.nonce {
            Some(x) => x,
            None => {
                return Err(MissingField::Nonce);
            },
        };
        let total_difficulty = match self.total_difficulty {
            Some(x) => x,
            None => {
                return Err(MissingField::TotalDifficulty);
            },
        };
        let transaction_root = match self.transaction_root {
            Some(x) => x,
            None => {
                return Err(MissingField::TransactionRoot);
            },
        };
        Ok(BlockHeader {
            hash,
            protocol_version,
            parent_hash,
            block_number,
            block_height,
            difficulty,
            timestamp,
            nonce,
            total_difficulty,
            transaction_root,
        })
    }
}

} // verus!
