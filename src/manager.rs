//! Opens the store that holds every column.
use vstd::prelude::*;
use crate::column::Column;
use crate::config::{Options, StoreConfig};
use crate::error::StoreError;
use crate::store::{can_open, RocksDB, DEFAULT_PATH};

verus! {

/// Every column, in the order the store is opened with them.
pub open spec fn all_columns() -> Seq<Column> {
    seq![Column::BlockHeader, Column::BlockBody, Column::Transaction]
}

/// Owns the store that holds every column.
pub struct DBManager {
    db: RocksDB,
}

impl DBManager {
    /// Opens a store with every column, at the configured path (or `DEFAULT_PATH`)
    /// with the configured settings.
    pub fn new(config: StoreConfig) -> (r: Result<DBManager, StoreError>)
        ensures
            ({
                let path = match config.path {
                    Some(p) => p@,
                    None => DEFAULT_PATH@,
                };
                let options = Options {
                    max_open_files: config.max_open_files,
                    cache_capacity: config.cache_size,
                    block_size: config.block_size,
                };
                &&& r.is_err() <==> !can_open(path, options, all_columns())
                &&& r.is_err() ==> r == Err::<DBManager, StoreError>(StoreError::OpenError)
                &&& r.is_ok() ==> r.unwrap().spec_db().opened(path, options, all_columns())
            }),
    {
        let columns: [Column; 3] = [Column::BlockHeader, Column::BlockBody, Column::Transaction];
        proof {
            assert(columns@ =~= all_columns());
        }
        match RocksDB::open(&config, columns.as_slice()) {
            Ok(db) => Ok(DBManager { db }),
            Err(e) => Err(e),
        }
    }

    pub closed spec fn spec_db(&self) -> RocksDB {
        self.db
    }

    /// The managed store.
    pub fn db(&self) -> (r: &RocksDB)
        ensures
            *r == self.spec_db(),
    {
        &self.db
    }
}

} // verus!
