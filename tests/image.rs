use frenyum_storage::column::Column;
use frenyum_storage::config::StoreConfig;
use frenyum_storage::error::StoreError;
use frenyum_storage::iter::{IteratorMode, RocksDBIterator};
use frenyum_storage::store::RocksDB;

fn drain(mut it: RocksDBIterator) -> Vec<(Vec<u8>, Vec<u8>)> {
    let mut out = Vec::new();
    while let Some(p) = it.next() {
        out.push(p);
    }
    out
}

#[test]
fn image_of_one_pair_is_exact() {
    let mut db = RocksDB::open(&StoreConfig::default(), &[Column::BlockBody]).unwrap();
    db.put(Column::BlockBody, b"ab", b"xyz").unwrap();
    let image = db.flush();
    let mut expected = vec![1u8];
    expected.extend_from_slice(&2u64.to_le_bytes());
    expected.extend_from_slice(b"ab");
    expected.extend_from_slice(&3u64.to_le_bytes());
    expected.extend_from_slice(b"xyz");
    assert_eq!(image, expected);
}

#[test]
fn image_of_empty_store_is_empty() {
    let db = RocksDB::open(&StoreConfig::default(), &[Column::BlockHeader, Column::Transaction]).unwrap();
    assert!(db.flush().is_empty());
}

#[test]
fn image_orders_columns_then_keys() {
    let cols = [Column::Transaction, Column::BlockHeader];
    let mut db = RocksDB::open(&StoreConfig::default(), &cols).unwrap();
    db.put(Column::Transaction, b"t", b"1").unwrap();
    db.put(Column::BlockHeader, b"z", b"2").unwrap();
    db.put(Column::BlockHeader, b"a", b"3").unwrap();
    let image = db.flush();
    assert_eq!(image[0], 0);
    assert_eq!(&image[9..10], b"a");
    let second = 1 + 8 + 1 + 8 + 1;
    assert_eq!(image[second], 0);
    assert_eq!(&image[second + 9..second + 10], b"z");
    assert_eq!(image[2 * second], 2);
}

#[test]
fn flush_then_restore_gives_back_the_contents() {
    let cols = [Column::BlockHeader, Column::BlockBody, Column::Transaction];
    let mut db = RocksDB::open(&StoreConfig::default(), &cols).unwrap();
    db.put(Column::BlockHeader, b"h", b"header").unwrap();
    db.put(Column::BlockBody, b"b2", b"").unwrap();
    db.put(Column::BlockBody, b"b1", b"body").unwrap();
    db.put(Column::Transaction, b"", b"empty key").unwrap();
    db.delete(Column::BlockBody, b"b2").unwrap();
    let image = db.flush();
    let back = RocksDB::restore(&StoreConfig::default(), &cols, &image).unwrap();
    for c in cols {
        assert_eq!(
            drain(back.iter(c, &IteratorMode::Start).unwrap()),
            drain(db.iter(c, &IteratorMode::Start).unwrap())
        );
    }
    assert_eq!(back.get(Column::BlockBody, b"b2").unwrap(), None);
    assert_eq!(back.latest_sequence(), 0);
    assert_eq!(back.flush(), image);
}

#[test]
fn restore_refuses_malformed_images() {
    let config = StoreConfig::default();
    let cols = [Column::BlockHeader];
    assert!(matches!(RocksDB::restore(&config, &cols, &[0, 1, 2]), Err(StoreError::OpenError)));
    let mut bad_tag = vec![7u8];
    bad_tag.extend_from_slice(&0u64.to_le_bytes());
    bad_tag.extend_from_slice(&0u64.to_le_bytes());
    assert!(matches!(RocksDB::restore(&config, &cols, &bad_tag), Err(StoreError::OpenError)));
    let mut too_long = vec![0u8];
    too_long.extend_from_slice(&100u64.to_le_bytes());
    too_long.extend_from_slice(&0u64.to_le_bytes());
    assert!(matches!(RocksDB::restore(&config, &cols, &too_long), Err(StoreError::OpenError)));
    let mut other_column = vec![2u8];
    other_column.extend_from_slice(&0u64.to_le_bytes());
    other_column.extend_from_slice(&0u64.to_le_bytes());
    assert!(matches!(RocksDB::restore(&config, &cols, &other_column), Err(StoreError::OpenError)));
    assert!(RocksDB::restore(&config, &[Column::Transaction], &other_column).is_ok());
    assert!(matches!(
        RocksDB::restore(&config, &[Column::BlockHeader, Column::BlockHeader], &[]),
        Err(StoreError::OpenError)
    ));
}

#[test]
fn restore_of_repeated_key_keeps_the_last_record() {
    let mut image = Vec::new();
    for v in [b"1", b"2"] {
        image.push(1u8);
        image.extend_from_slice(&1u64.to_le_bytes());
        image.extend_from_slice(b"k");
        image.extend_from_slice(&1u64.to_le_bytes());
        image.extend_from_slice(v);
    }
    let db = RocksDB::restore(&StoreConfig::default(), &[Column::BlockBody], &image).unwrap();
    assert_eq!(db.get(Column::BlockBody, b"k").unwrap(), Some(b"2".to_vec()));
}
