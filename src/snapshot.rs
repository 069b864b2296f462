//! Frozen views of a store.
use vstd::prelude::*;
use crate::column::Column;
use crate::error::StoreError;
use crate::families::ColumnFamilies;
use crate::iter::{select, yields, IteratorMode, RocksDBIterator};
use crate::store::RocksDB;
use crate::table::{opt_view, KeyMap};

verus! {

/// Every column of a store as it was when the snapshot was taken. The snapshot
/// owns its copy: later writes to the store do not reach it, and dropping it
/// releases everything it holds.
pub struct Snapshot {
    cfs: ColumnFamilies,
}

impl Snapshot {
    /// The contents of each column at the time the snapshot was taken.
    pub closed spec fn view(&self) -> Map<Column, KeyMap> {
        self.cfs@
    }

    pub closed spec fn wf(&self) -> bool {
        self.cfs.wf()
    }

    /// Takes a snapshot of `db` as it is now.
    pub fn new(db: &RocksDB) -> (r: Snapshot)
        requires
            db.wf(),
        ensures
            r.wf(),
            r@ == db@,
    {
        Snapshot { cfs: db.frozen_families() }
    }

    /// The value that `key` had in `column` when the snapshot was taken.
    pub fn get(&self, column: Column, key: &[u8]) -> (r: Result<Option<Vec<u8>>, StoreError>)
        requires
            self.wf(),
        ensures
            r.is_err() <==> !self@.contains_key(column),
            r.is_err() ==> r == Err::<Option<Vec<u8>>, StoreError>(StoreError::ColumnNotFoundError),
            r.is_ok() ==> opt_view(r.unwrap()) == self@[column].get(key@),
    {
        self.get_cf(column, key)
    }

    /// The value that `key` had in column `cf` when the snapshot was taken.
    pub fn get_cf(&self, cf: Column, key: &[u8]) -> (r: Result<Option<Vec<u8>>, StoreError>)
        requires
            self.wf(),
        ensures
            r.is_err() <==> !self@.contains_key(cf),
            r.is_err() ==> r == Err::<Option<Vec<u8>>, StoreError>(StoreError::ColumnNotFoundError),
            r.is_ok() ==> opt_view(r.unwrap()) == self@[cf].get(key@),
    {
        if !self.cfs.contains(cf) {
            return Err(StoreError::ColumnNotFoundError);
        }
        Ok(self.cfs.get(cf, key))
    }

    /// A one-pass cursor over `column` in `mode`, as of the snapshot.
    pub fn iterator(&self, column: Column, mode: &IteratorMode) -> (r: Result<RocksDBIterator, StoreError>)
        requires
            self.wf(),
        ensures
            !self@.contains_key(column) <==> r.is_err(),
            r.is_err() ==> r == Err::<RocksDBIterator, StoreError>(StoreError::ColumnNotFoundError),
            r.is_ok() ==> r.unwrap().wf() && yields(r.unwrap()@, self@[column], *mode),
    {
        if !self.cfs.contains(column) {
            return Err(StoreError::ColumnNotFoundError);
        }
        let pairs = self.cfs.pairs(column);
        let items = select(pairs, mode, Ghost(self@[column]));
        Ok(RocksDBIterator::new(items))
    }

    /// A cursor over every pair of `column` in ascending key order, as of the snapshot.
    pub fn raw_iterator(&self, column: Column) -> (r: Result<RocksDBIterator, StoreError>)
        requires
            self.wf(),
        ensures
            !self@.contains_key(column) <==> r.is_err(),
            r.is_err() ==> r == Err::<RocksDBIterator, StoreError>(StoreError::ColumnNotFoundError),
            r.is_ok() ==> r.unwrap().wf() && yields(r.unwrap()@, self@[column], IteratorMode::Start),
    {
        self.iterator(column, &IteratorMode::Start)
    }
}

} // verus!
