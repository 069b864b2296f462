//! An embedded key-value store partitioned into columns, with snapshots, atomic
//! write batches and optimistic transactions, verified with Verus.
//!
//! - `store`: the store (`RocksDB`): single-key reads and writes, batches,
//!   compaction, iteration, and its durable image.
//! - `snapshot`, `transaction`, `write_batch`, `iter`: frozen views, optimistic
//!   transactions (first committer wins), buffered batches, ordered cursors.
//! - `families`, `table`, `keys`, `image`: the column tables, their sorted
//!   entries, the bytewise key order and the image format underneath.
//! - `laws`: properties that relate several operations.
//! - `config`, `column`, `error`, `manager`: settings, column tags, failures, and
//!   a store opened with every column.
//! - `block_header`, `primitives`, `gas`, `timestamp`, `peer`: the chain data
//!   model whose serialized form the store keeps as values.
pub mod keys;
pub mod table;
pub mod column;
pub mod error;
pub mod config;
pub mod families;
pub mod write_batch;
pub mod iter;
pub mod snapshot;
pub mod store;
pub mod transaction;
pub mod image;
pub mod laws;
pub mod manager;
pub mod block_header;
pub mod primitives;
pub mod gas;
pub mod timestamp;
pub mod peer;
