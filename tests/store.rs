use frenyum_storage::column::Column;
use frenyum_storage::config::{Options, StoreConfig};
use frenyum_storage::error::StoreError;
use frenyum_storage::iter::{Direction, IteratorMode, RocksDBIterator};
use frenyum_storage::manager::DBManager;
use frenyum_storage::store::RocksDB;
use frenyum_storage::transaction::TransactionState;
use frenyum_storage::write_batch::{RocksDBWriteBatch, MAX_KEY_LEN};

fn open_two() -> RocksDB {
    RocksDB::open(&StoreConfig::default(), &[Column::BlockHeader, Column::BlockBody]).unwrap()
}

fn drain(mut it: RocksDBIterator) -> Vec<(Vec<u8>, Vec<u8>)> {
    let mut out = Vec::new();
    while let Some(p) = it.next() {
        out.push(p);
    }
    out
}

fn keys_of(pairs: &[(Vec<u8>, Vec<u8>)]) -> Vec<Vec<u8>> {
    pairs.iter().map(|p| p.0.clone()).collect()
}

#[test]
fn put_then_get_returns_value_and_delete_removes_it() {
    let mut db = open_two();
    db.put(Column::BlockHeader, b"k", b"value").unwrap();
    assert_eq!(db.get(Column::BlockHeader, b"k").unwrap(), Some(b"value".to_vec()));
    db.delete(Column::BlockHeader, b"k").unwrap();
    assert_eq!(db.get(Column::BlockHeader, b"k").unwrap(), None);
}

#[test]
fn put_overwrites_and_empty_key_is_a_key() {
    let mut db = open_two();
    db.put(Column::BlockBody, b"", b"first").unwrap();
    db.put(Column::BlockBody, b"", b"second").unwrap();
    assert_eq!(db.get(Column::BlockBody, b"").unwrap(), Some(b"second".to_vec()));
    assert_eq!(db.latest_sequence(), 2);
}

#[test]
fn snapshot_keeps_value_from_before_later_put() {
    let mut db = open_two();
    db.put(Column::BlockHeader, b"K", b"old").unwrap();
    let snap = db.snapshot();
    db.put(Column::BlockHeader, b"K", b"new").unwrap();
    db.put(Column::BlockHeader, b"L", b"later").unwrap();
    assert_eq!(snap.get(Column::BlockHeader, b"K").unwrap(), Some(b"old".to_vec()));
    assert_eq!(snap.get_cf(Column::BlockHeader, b"L").unwrap(), None);
    assert_eq!(db.get(Column::BlockHeader, b"K").unwrap(), Some(b"new".to_vec()));
    let pairs = drain(snap.raw_iterator(Column::BlockHeader).unwrap());
    assert_eq!(pairs, vec![(b"K".to_vec(), b"old".to_vec())]);
}

#[test]
fn failed_batch_applies_nothing() {
    let mut db = open_two();
    let mut batch = RocksDBWriteBatch::new();
    batch.put(Column::BlockHeader, b"h1", b"a").unwrap();
    batch.put(Column::BlockBody, b"b1", b"b").unwrap();
    batch.put(Column::Transaction, b"t1", b"c").unwrap();
    assert_eq!(db.write(&batch), Err(StoreError::ApplyFailure));
    assert_eq!(db.get(Column::BlockHeader, b"h1").unwrap(), None);
    assert_eq!(db.get(Column::BlockBody, b"b1").unwrap(), None);
    assert_eq!(db.latest_sequence(), 0);
}

#[test]
fn successful_batch_applies_everything() {
    let mut db = open_two();
    let mut batch = RocksDBWriteBatch::new();
    batch.put(Column::BlockHeader, b"h1", b"a").unwrap();
    batch.put(Column::BlockBody, b"b1", b"b").unwrap();
    batch.put(Column::BlockHeader, b"h2", b"c").unwrap();
    assert_eq!(db.get(Column::BlockHeader, b"h1").unwrap(), None);
    db.write(&batch).unwrap();
    assert_eq!(db.get(Column::BlockHeader, b"h1").unwrap(), Some(b"a".to_vec()));
    assert_eq!(db.get(Column::BlockBody, b"b1").unwrap(), Some(b"b".to_vec()));
    assert_eq!(db.get(Column::BlockHeader, b"h2").unwrap(), Some(b"c".to_vec()));
    assert_eq!(db.latest_sequence(), 1);
}

#[test]
fn batch_last_operation_wins() {
    let mut db = open_two();
    db.put(Column::BlockHeader, b"x", b"stored").unwrap();
    let mut batch = RocksDBWriteBatch::new();
    batch.put(Column::BlockHeader, b"k", b"one").unwrap();
    batch.delete(Column::BlockHeader, b"k").unwrap();
    batch.put(Column::BlockHeader, b"k", b"two").unwrap();
    batch.put(Column::BlockHeader, b"x", b"three").unwrap();
    batch.delete(Column::BlockHeader, b"x").unwrap();
    db.write(&batch).unwrap();
    assert_eq!(db.get(Column::BlockHeader, b"k").unwrap(), Some(b"two".to_vec()));
    assert_eq!(db.get(Column::BlockHeader, b"x").unwrap(), None);
}

#[test]
fn batch_introspection() {
    let mut batch = RocksDBWriteBatch::new();
    assert!(batch.is_empty());
    assert_eq!(batch.len(), 0);
    assert_eq!(batch.size_in_bytes(), 0);
    batch.put(Column::BlockHeader, b"abc", b"defg").unwrap();
    batch.delete(Column::BlockBody, b"hi").unwrap();
    assert!(!batch.is_empty());
    assert_eq!(batch.len(), 2);
    assert_eq!(batch.size_in_bytes(), 9);
}

#[test]
fn batch_refuses_oversized_key_before_buffering() {
    let mut batch = RocksDBWriteBatch::new();
    let key = vec![0u8; MAX_KEY_LEN + 1];
    assert_eq!(batch.put(Column::BlockHeader, &key, b"v"), Err(StoreError::SerializationError));
    assert_eq!(batch.delete(Column::BlockHeader, &key), Err(StoreError::SerializationError));
    assert!(batch.is_empty());
    let longest = vec![0u8; MAX_KEY_LEN];
    batch.put(Column::BlockHeader, &longest, b"").unwrap();
    assert_eq!(batch.len(), 1);
}

#[test]
fn store_refuses_oversized_key() {
    let mut db = open_two();
    let key = vec![1u8; MAX_KEY_LEN + 1];
    assert_eq!(db.put(Column::BlockHeader, &key, b"v"), Err(StoreError::SerializationError));
    assert_eq!(db.latest_sequence(), 0);
}

#[test]
fn iteration_follows_key_order() {
    let mut db = open_two();
    db.put(Column::BlockHeader, b"b", b"2").unwrap();
    db.put(Column::BlockHeader, b"c", b"3").unwrap();
    db.put(Column::BlockHeader, b"a", b"1").unwrap();
    let forward = drain(db.iter(Column::BlockHeader, &IteratorMode::Start).unwrap());
    assert_eq!(keys_of(&forward), vec![b"a".to_vec(), b"b".to_vec(), b"c".to_vec()]);
    assert_eq!(forward[0].1, b"1".to_vec());
    let backward = drain(db.iter(Column::BlockHeader, &IteratorMode::End).unwrap());
    assert_eq!(keys_of(&backward), vec![b"c".to_vec(), b"b".to_vec(), b"a".to_vec()]);
}

#[test]
fn iteration_from_a_key() {
    let mut db = open_two();
    for k in [&b"a"[..], b"b", b"bb", b"c"] {
        db.put(Column::BlockBody, k, b"v").unwrap();
    }
    let up = drain(db.iter(Column::BlockBody, &IteratorMode::From(b"b".to_vec(), Direction::Forward)).unwrap());
    assert_eq!(keys_of(&up), vec![b"b".to_vec(), b"bb".to_vec(), b"c".to_vec()]);
    let down = drain(db.iter(Column::BlockBody, &IteratorMode::From(b"bc".to_vec(), Direction::Reverse)).unwrap());
    assert_eq!(keys_of(&down), vec![b"bb".to_vec(), b"b".to_vec(), b"a".to_vec()]);
    let none = drain(db.iter(Column::BlockBody, &IteratorMode::From(b"d".to_vec(), Direction::Forward)).unwrap());
    assert!(none.is_empty());
}

#[test]
fn iteration_orders_bytes_unsigned_and_prefixes_first() {
    let mut db = open_two();
    db.put(Column::BlockHeader, &[0xff], b"x").unwrap();
    db.put(Column::BlockHeader, &[0x01, 0x00], b"x").unwrap();
    db.put(Column::BlockHeader, &[0x01], b"x").unwrap();
    db.put(Column::BlockHeader, &[], b"x").unwrap();
    let keys = keys_of(&drain(db.iter(Column::BlockHeader, &IteratorMode::Start).unwrap()));
    assert_eq!(keys, vec![vec![], vec![0x01], vec![0x01, 0x00], vec![0xff]]);
}

#[test]
fn snapshot_iterator_ignores_later_writes() {
    let mut db = open_two();
    db.put(Column::BlockHeader, b"a", b"1").unwrap();
    let snap = db.snapshot();
    db.put(Column::BlockHeader, b"b", b"2").unwrap();
    db.delete(Column::BlockHeader, b"a").unwrap();
    let pairs = drain(snap.iterator(Column::BlockHeader, &IteratorMode::End).unwrap());
    assert_eq!(pairs, vec![(b"a".to_vec(), b"1".to_vec())]);
}

#[test]
fn later_committer_conflicts() {
    let mut db = open_two();
    db.put(Column::BlockHeader, b"K", b"0").unwrap();
    let mut t1 = db.transaction();
    let mut t2 = db.transaction();
    assert_eq!(t1.get_pinned(Column::BlockHeader, b"K").unwrap(), Some(b"0".to_vec()));
    assert_eq!(t2.get_pinned(Column::BlockHeader, b"K").unwrap(), Some(b"0".to_vec()));
    t1.put(Column::BlockHeader, b"K", b"1").unwrap();
    t2.put(Column::BlockHeader, b"K", b"2").unwrap();
    t1.commit(&mut db).unwrap();
    assert_eq!(t1.state(), TransactionState::Committed);
    assert_eq!(t2.commit(&mut db), Err(StoreError::ConflictError));
    assert_eq!(t2.state(), TransactionState::Conflicted);
    assert_eq!(db.get(Column::BlockHeader, b"K").unwrap(), Some(b"1".to_vec()));
}

#[test]
fn transaction_reads_its_own_writes_and_start_state() {
    let mut db = open_two();
    db.put(Column::BlockBody, b"a", b"1").unwrap();
    let mut t = db.transaction();
    db.put(Column::BlockBody, b"b", b"outside").unwrap();
    t.put(Column::BlockBody, b"c", b"mine").unwrap();
    assert_eq!(t.get_pinned(Column::BlockBody, b"c").unwrap(), Some(b"mine".to_vec()));
    assert_eq!(t.get_pinned(Column::BlockBody, b"b").unwrap(), None);
    t.delete(Column::BlockBody, b"a").unwrap();
    assert_eq!(t.get_pinned(Column::BlockBody, b"a").unwrap(), None);
    assert_eq!(db.get(Column::BlockBody, b"c").unwrap(), None);
    // `b` was read and has been written since the transaction began.
    assert_eq!(t.commit(&mut db), Err(StoreError::ConflictError));
    assert_eq!(db.get(Column::BlockBody, b"c").unwrap(), None);
    assert_eq!(db.get(Column::BlockBody, b"a").unwrap(), Some(b"1".to_vec()));

    let mut retry = db.transaction();
    retry.put(Column::BlockBody, b"c", b"mine").unwrap();
    retry.delete(Column::BlockBody, b"a").unwrap();
    retry.commit(&mut db).unwrap();
    assert_eq!(db.get(Column::BlockBody, b"c").unwrap(), Some(b"mine".to_vec()));
    assert_eq!(db.get(Column::BlockBody, b"a").unwrap(), None);
    assert_eq!(db.get(Column::BlockBody, b"b").unwrap(), Some(b"outside".to_vec()));
}

#[test]
fn transaction_on_untouched_keys_commits() {
    let mut db = open_two();
    let mut t = db.transaction();
    t.put(Column::BlockHeader, b"x", b"1").unwrap();
    db.put(Column::BlockHeader, b"y", b"2").unwrap();
    assert_eq!(t.commit(&mut db), Ok(()));
}

#[test]
fn rollback_discards_and_closes() {
    let mut db = open_two();
    let mut t = db.transaction();
    t.put(Column::BlockHeader, b"x", b"1").unwrap();
    assert_eq!(t.rollback(), Ok(()));
    assert_eq!(t.state(), TransactionState::RolledBack);
    assert_eq!(t.commit(&mut db), Err(StoreError::TransactionClosed));
    assert_eq!(t.put(Column::BlockHeader, b"x", b"1"), Err(StoreError::TransactionClosed));
    assert_eq!(t.get_pinned(Column::BlockHeader, b"x"), Err(StoreError::TransactionClosed));
    assert_eq!(db.get(Column::BlockHeader, b"x").unwrap(), None);
    assert_eq!(db.latest_sequence(), 0);
}

#[test]
fn transaction_column_not_found() {
    let db = open_two();
    let mut t = db.transaction();
    assert_eq!(t.get_pinned(Column::Transaction, b"x"), Err(StoreError::ColumnNotFoundError));
    assert_eq!(t.delete(Column::Transaction, b"x"), Err(StoreError::ColumnNotFoundError));
}

#[test]
fn commit_on_store_without_its_column_is_apply_failure() {
    let source = RocksDB::open(&StoreConfig::default(), &[Column::Transaction]).unwrap();
    let mut other = open_two();
    let mut t = source.transaction();
    t.put(Column::Transaction, b"x", b"1").unwrap();
    assert_eq!(t.commit(&mut other), Err(StoreError::ApplyFailure));
    assert_eq!(t.state(), TransactionState::Active);
}

#[test]
fn column_isolation() {
    let mut db = open_two();
    db.put(Column::BlockHeader, b"K", b"v1").unwrap();
    db.put(Column::BlockBody, b"K", b"v2").unwrap();
    db.delete(Column::BlockHeader, b"K").unwrap();
    assert_eq!(db.get(Column::BlockBody, b"K").unwrap(), Some(b"v2".to_vec()));
    assert_eq!(db.get(Column::BlockHeader, b"K").unwrap(), None);
}

#[test]
fn unconfigured_column_is_an_error() {
    let mut db = open_two();
    assert_eq!(db.get(Column::Transaction, b"k"), Err(StoreError::ColumnNotFoundError));
    assert_eq!(db.put(Column::Transaction, b"k", b"v"), Err(StoreError::ColumnNotFoundError));
    assert_eq!(db.delete(Column::Transaction, b"k"), Err(StoreError::ColumnNotFoundError));
    assert!(db.iter(Column::Transaction, &IteratorMode::Start).is_err());
    assert!(!db.has_column(Column::Transaction));
    assert!(db.has_column(Column::BlockBody));
    let snap = db.snapshot();
    assert_eq!(snap.get(Column::Transaction, b"k"), Err(StoreError::ColumnNotFoundError));
}

#[test]
fn default_config_values() {
    let config = StoreConfig::default();
    assert_eq!(config.path, None);
    assert_eq!(config.max_open_files, 1000);
    assert_eq!(config.cache_size, 160 * 1024 * 1024);
    assert_eq!(config.block_size, 16 * 1024);
    let db = RocksDB::open(&config, &[Column::BlockHeader]).unwrap();
    assert_eq!(
        db.options(),
        Options { max_open_files: 1000, cache_capacity: 167_772_160, block_size: 16_384 }
    );
}

#[test]
fn config_knobs_carry_over() {
    let config = StoreConfig { path: Some("data".to_string()), max_open_files: 7, cache_size: 1 << 20, block_size: 4096 };
    let options = config.to_options();
    assert_eq!(options, Options { max_open_files: 7, cache_capacity: 1 << 20, block_size: 4096 });
    assert_eq!(Options::default(), StoreConfig::default().to_options());
}

#[test]
fn open_errors() {
    let config = StoreConfig::default();
    assert!(matches!(
        RocksDB::open(&config, &[Column::BlockBody, Column::BlockHeader, Column::BlockBody]),
        Err(StoreError::OpenError)
    ));
    let empty_path = StoreConfig { path: Some(String::new()), ..StoreConfig::default() };
    assert!(matches!(RocksDB::open(&empty_path, &[Column::BlockBody]), Err(StoreError::OpenError)));
    let no_blocks = StoreConfig { block_size: 0, ..StoreConfig::default() };
    assert!(matches!(RocksDB::open(&no_blocks, &[Column::BlockBody]), Err(StoreError::OpenError)));
    assert!(RocksDB::open(&config, &[]).is_ok());
}

#[test]
fn compact_keeps_contents() {
    let mut db = open_two();
    db.put(Column::BlockHeader, b"a", b"1").unwrap();
    db.put(Column::BlockHeader, b"b", b"2").unwrap();
    db.delete(Column::BlockHeader, b"a").unwrap();
    db.compact().unwrap();
    assert_eq!(db.get(Column::BlockHeader, b"a").unwrap(), None);
    assert_eq!(db.get(Column::BlockHeader, b"b").unwrap(), Some(b"2".to_vec()));
    let pairs = drain(db.iter(Column::BlockHeader, &IteratorMode::Start).unwrap());
    assert_eq!(pairs, vec![(b"b".to_vec(), b"2".to_vec())]);
}

#[test]
fn compaction_before_commit_conflicts_on_deleted_key() {
    let mut db = open_two();
    db.put(Column::BlockHeader, b"a", b"1").unwrap();
    let mut t = db.transaction();
    t.get_pinned(Column::BlockHeader, b"a").unwrap();
    db.delete(Column::BlockHeader, b"a").unwrap();
    db.compact().unwrap();
    assert_eq!(t.commit(&mut db), Err(StoreError::ConflictError));
}

#[test]
fn compaction_does_not_make_conflicts() {
    let mut db = open_two();
    db.put(Column::BlockHeader, b"gone", b"1").unwrap();
    db.delete(Column::BlockHeader, b"gone").unwrap();
    let mut reader = db.transaction();
    assert_eq!(reader.get_pinned(Column::BlockHeader, b"x").unwrap(), None);
    assert_eq!(reader.get_pinned(Column::BlockHeader, b"gone").unwrap(), None);
    let mut writer = db.transaction();
    writer.put(Column::BlockHeader, b"absent", b"w").unwrap();
    let mut other = db.transaction();
    other.put(Column::BlockHeader, b"y", b"2").unwrap();
    other.commit(&mut db).unwrap();
    db.compact().unwrap();
    assert_eq!(reader.commit(&mut db), Ok(()));
    assert_eq!(writer.commit(&mut db), Ok(()));
    assert_eq!(db.get(Column::BlockHeader, b"absent").unwrap(), Some(b"w".to_vec()));
}

#[test]
fn manager_opens_every_column() {
    let manager = DBManager::new(StoreConfig::default()).unwrap();
    let db = manager.db();
    assert!(db.has_column(Column::BlockHeader));
    assert!(db.has_column(Column::BlockBody));
    assert!(db.has_column(Column::Transaction));
    let bad = StoreConfig { block_size: 0, ..StoreConfig::default() };
    assert!(matches!(DBManager::new(bad), Err(StoreError::OpenError)));
}

#[test]
fn column_names() {
    assert_eq!(Column::BlockHeader.to_string(), "BlockHeader");
    assert_eq!(Column::BlockBody.to_string(), "BlockBody");
    assert_eq!(Column::Transaction.to_string(), "Transaction");
    assert!(Column::BlockBody.is_type("BlockBody"));
    assert!(!Column::BlockBody.is_type("BlockHeader"));
    assert!(!Column::Transaction.is_type("transaction"));
}
