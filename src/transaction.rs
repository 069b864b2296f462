//! Optimistic transactions: reads see the store as it was when the transaction
//! began, with the transaction's own writes over it; writes are buffered until
//! commit, which fails with a conflict when another write committed since the
//! transaction began touched a key that it read or wrote (first committer wins).
use vstd::prelude::*;
use crate::column::Column;
use crate::error::StoreError;
use crate::families::ColumnFamilies;
use crate::store::{applied, RocksDB};
use crate::table::{bytes_of, opt_view, KeyMap};
use crate::write_batch::{
    apply_ops, columns_in, lemma_apply_ops_push, ops_bytes, OpView, RocksDBWriteBatch,
    MAX_KEY_LEN, MAX_VALUE_LEN,
};

verus! {

/// Where a transaction stands: `Active` until it ends in one of the other three.
#[derive(Debug, Clone, Copy, PartialEq, Eq, Structural)]
pub enum TransactionState {
    Active,
    Committed,
    RolledBack,
    Conflicted,
}

/// A transaction: a private copy of the store as it began with its own writes
/// applied, the buffered writes, the keys it read, and its state.
pub struct RocksDBTransaction {
    local: ColumnFamilies,
    base: Ghost<Map<Column, KeyMap>>,
    start: u64,
    writes: RocksDBWriteBatch,
    reads: Vec<(Column, Vec<u8>)>,
    state: TransactionState,
}

impl RocksDBTransaction {
    /// What the transaction reads now: the store as it began, with its own writes.
    pub closed spec fn view(&self) -> Map<Column, KeyMap> {
        self.local@
    }

    /// The store's contents when the transaction began.
    pub closed spec fn base(&self) -> Map<Column, KeyMap> {
        self.base@
    }

    /// The store's latest sequence number when the transaction began.
    pub closed spec fn start_seq(&self) -> u64 {
        self.start
    }

    /// The buffered writes, oldest first.
    pub closed spec fn writes(&self) -> Seq<OpView> {
        self.writes@
    }

    /// The keys read so far, with their columns.
    pub closed spec fn reads(&self) -> Seq<(Column, Seq<u8>)> {
        self.reads@.map_values(|r: (Column, Vec<u8>)| (r.0, r.1@))
    }

    pub closed spec fn spec_state(&self) -> TransactionState {
        self.state
    }

    pub closed spec fn wf(&self) -> bool {
        &&& self.writes.wf()
        &&& self.local.wf()
        &&& self.state == TransactionState::Active ==> {
            &&& self.local@ == apply_ops(self.base@, self.writes@)
            &&& columns_in(self.writes@, self.base@)
            &&& self.local@.dom() == self.base@.dom()
        }
    }

    /// The transaction has just begun on `db`.
    pub open spec fn begun_on(&self, db: &RocksDB) -> bool {
        &&& self.wf()
        &&& self.spec_state() == TransactionState::Active
        &&& self.base() == db@
        &&& self@ == db@
        &&& self.start_seq() == db.last_seq()
        &&& self.writes() == Seq::<OpView>::empty()
        &&& self.reads() == Seq::<(Column, Seq<u8>)>::empty()
    }

    /// Some key that the transaction read or wrote was written in `db` after the
    /// transaction began.
    pub open spec fn conflicts_with(&self, db: &RocksDB) -> bool {
        ||| exists|i: int| 0 <= i < self.reads().len() && db@.contains_key((#[trigger] self.reads()[i]).0)
            && db.version_of(self.reads()[i].0, self.reads()[i].1) > self.start_seq()
        ||| exists|i: int| 0 <= i < self.writes().len() && db@.contains_key((#[trigger] self.writes()[i]).0)
            && db.version_of(self.writes()[i].0, self.writes()[i].1) > self.start_seq()
    }

    /// Begins a transaction on `db` as it is now.
    pub fn begin(db: &RocksDB) -> (r: RocksDBTransaction)
        requires
            db.wf(),
        ensures
            r.begun_on(db),
    {
        let local = db.frozen_families();
        let writes = RocksDBWriteBatch::new();
        let r = RocksDBTransaction {
            local,
            base: Ghost(db@),
            start: db.latest_sequence(),
            writes,
            reads: Vec::new(),
            state: TransactionState::Active,
        };
        proof {
            assert(r.reads() =~= Seq::<(Column, Seq<u8>)>::empty());
        }
        r
    }

    /// The transaction's state.
    pub fn state(&self) -> (r: TransactionState)
        ensures
            r == self.spec_state(),
    {
        self.state
    }

    /// Reads `key` in `column`: the transaction's own last write of it, or else its
    /// value when the transaction began. The key joins the read set.
    pub fn get_pinned(&mut self, column: Column, key: &[u8]) -> (r: Result<Option<Vec<u8>>, StoreError>)
        requires
            old(self).wf(),
        ensures
            final(self).wf(),
            old(self).spec_state() != TransactionState::Active ==> r == Err::<Option<Vec<u8>>, StoreError>(StoreError::TransactionClosed)
                && *final(self) == *old(self),
            old(self).spec_state() == TransactionState::Active && !old(self)@.contains_key(column) ==> r == Err::<Option<Vec<u8>>, StoreError>(
                StoreError::ColumnNotFoundError) && *final(self) == *old(self),
            old(self).spec_state() == TransactionState::Active && old(self)@.contains_key(column) ==> {
                &&& r.is_ok()
                &&& opt_view(r.unwrap()) == old(self)@[column].get(key@)
                &&& final(self).reads() == old(self).reads().push((column, key@))
                &&& final(self)@ == old(self)@
                &&& final(self).base() == old(self).base()
                &&& final(self).writes() == old(self).writes()
                &&& final(self).start_seq() == old(self).start_seq()
                &&& final(self).spec_state() == old(self).spec_state()
            },
    {
        if self.state != TransactionState::Active {
            return Err(StoreError::TransactionClosed);
        }
        if !self.local.contains(column) {
            return Err(StoreError::ColumnNotFoundError);
        }
        let value = self.local.get(column, key);
        let ghost before = self.reads();
        self.reads.push((column, bytes_of(key)));
        proof {
            assert(self.reads() =~= before.push((column, key@)));
        }
        Ok(value)
    }

    fn buffer(&mut self, column: Column, key: &[u8], value: Option<&[u8]>) -> (r: Result<(), StoreError>)
        requires
            old(self).wf(),
            old(self).spec_state() == TransactionState::Active,
            old(self)@.contains_key(column),
        ensures
            final(self).wf(),
            ({
                let o: OpView = (column, key@, match value {
                    Some(v) => Some(v@),
                    None => None,
                });
                let value_len: nat = match value {
                    Some(v) => v@.len(),
                    None => 0,
                };
                &&& r.is_err() <==> (key@.len() > MAX_KEY_LEN || value_len > MAX_VALUE_LEN
                    || ops_bytes(old(self).writes()) + key@.len() + value_len > usize::MAX)
                &&& r.is_err() ==> r == Err::<(), StoreError>(StoreError::SerializationError) && *final(self) == *old(self)
                &&& r.is_ok() ==> {
                    &&& final(self).writes() == old(self).writes().push(o)
                    &&& final(self)@ == old(self)@.insert(column, crate::table::write_map(old(self)@[column], key@, o.2))
                    &&& final(self).base() == old(self).base()
                    &&& final(self).reads() == old(self).reads()
                    &&& final(self).start_seq() == old(self).start_seq()
                    &&& final(self).spec_state() == old(self).spec_state()
                }
            }),
    {
        let res = match value {
            Some(v) => self.writes.put(column, key, v),
            None => self.writes.delete(column, key),
        };
        match res {
            Ok(()) => {},
            Err(e) => {
                return Err(e);
            },
        }
        let ghost o: OpView = (column, key@, match value {
            Some(v) => Some(v@),
            None => None,
        });
        let stored = match value {
            Some(v) => Some(bytes_of(v)),
            None => None,
        };
        self.local.write(column, bytes_of(key), stored, self.start);
        proof {
            lemma_apply_ops_push(self.base@, old(self).writes@, o);
            assert(columns_in(self.writes@, self.base@)) by {
                assert forall|i: int| 0 <= i < self.writes@.len() implies self.base@.contains_key(#[trigger] self.writes@[i].0) by {
                    if i < old(self).writes@.len() {
                        assert(self.writes@[i] == old(self).writes@[i]);
                    }
                }
            }
            assert(self.local@.dom() =~= self.base@.dom());
        }
        Ok(())
    }

    /// Buffers a put of `value` under `key` in `column`; the transaction's own
    /// reads see it at once, the store only after commit.
    pub fn put(&mut self, column: Column, key: &[u8], value: &[u8]) -> (r: Result<(), StoreError>)
        requires
            old(self).wf(),
        ensures
            final(self).wf(),
            old(self).spec_state() != TransactionState::Active ==> r == Err::<(), StoreError>(StoreError::TransactionClosed)
                && *final(self) == *old(self),
            old(self).spec_state() == TransactionState::Active && !old(self)@.contains_key(column) ==> r == Err::<(), StoreError>(
                StoreError::ColumnNotFoundError) && *final(self) == *old(self),
            old(self).spec_state() == TransactionState::Active && old(self)@.contains_key(column) ==> {
                &&& r.is_err() <==> (key@.len() > MAX_KEY_LEN || value@.len() > MAX_VALUE_LEN
                    || ops_bytes(old(self).writes()) + key@.len() + value@.len() > usize::MAX)
                &&& r.is_err() ==> r == Err::<(), StoreError>(StoreError::SerializationError) && *final(self) == *old(self)
                &&& r.is_ok() ==> {
                    &&& final(self).writes() == old(self).writes().push((column, key@, Some(value@)))
                    &&& final(self)@ == old(self)@.insert(column, old(self)@[column].insert(key@, value@))
                    &&& final(self).base() == old(self).base()
                    &&& final(self).reads() == old(self).reads()
                    &&& final(self).start_seq() == old(self).start_seq()
                    &&& final(self).spec_state() == old(self).spec_state()
                }
            },
    {
        if self.state != TransactionState::Active {
            return Err(StoreError::TransactionClosed);
        }
        if !self.local.contains(column) {
            return Err(StoreError::ColumnNotFoundError);
        }
        self.buffer(column, key, Some(value))
    }

    /// Buffers a delete of `key` in `column`.
    pub fn delete(&mut self, column: Column, key: &[u8]) -> (r: Result<(), StoreError>)
        requires
            old(self).wf(),
        ensures
            final(self).wf(),
            old(self).spec_state() != TransactionState::Active ==> r == Err::<(), StoreError>(StoreError::TransactionClosed)
                && *final(self) == *old(self),
            old(self).spec_state() == TransactionState::Active && !old(self)@.contains_key(column) ==> r == Err::<(), StoreError>(
                StoreError::ColumnNotFoundError) && *final(self) == *old(self),
            old(self).spec_state() == TransactionState::Active && old(self)@.contains_key(column) ==> {
                &&& r.is_err() <==> (key@.len() > MAX_KEY_LEN || ops_bytes(old(self).writes()) + key@.len() > usize::MAX)
                &&& r.is_err() ==> r == Err::<(), StoreError>(StoreError::SerializationError) && *final(self) == *old(self)
                &&& r.is_ok() ==> {
                    &&& final(self).writes() == old(self).writes().push((column, key@, None::<Seq<u8>>))
                    &&& final(self)@ == old(self)@.insert(column, old(self)@[column].remove(key@))
                    &&& final(self).base() == old(self).base()
                    &&& final(self).reads() == old(self).reads()
                    &&& final(self).start_seq() == old(self).start_seq()
                    &&& final(self).spec_state() == old(self).spec_state()
                }
            },
    {
        if self.state != TransactionState::Active {
            return Err(StoreError::TransactionClosed);
        }
        if !self.local.contains(column) {
            return Err(StoreError::ColumnNotFoundError);
        }
        self.buffer(column, key, None)
    }

    /// Applies the buffered writes to `db` as one write, unless another write
    /// committed since the transaction began touched a key it read or wrote: then
    /// the transaction is `Conflicted` and `db` is left as it was. A commit that
    /// `db` refuses as a whole (`ApplyFailure`) leaves both as they were.
    pub fn commit(&mut self, db: &mut RocksDB) -> (r: Result<(), StoreError>)
        requires
            old(self).wf(),
            old(db).wf(),
        ensures
            final(self).wf(),
            final(db).wf(),
            old(self).spec_state() != TransactionState::Active ==> r == Err::<(), StoreError>(StoreError::TransactionClosed)
                && *final(self) == *old(self) && *final(db) == *old(db),
            old(self).spec_state() == TransactionState::Active && old(self).conflicts_with(old(db)) ==> {
                &&& r == Err::<(), StoreError>(StoreError::ConflictError)
                &&& final(self).spec_state() == TransactionState::Conflicted
                &&& *final(db) == *old(db)
            },
            old(self).spec_state() == TransactionState::Active && !old(self).conflicts_with(old(db)) && (!columns_in(
                old(self).writes(),
                old(db)@,
            ) || old(db).last_seq() == u64::MAX) ==> {
                &&& r == Err::<(), StoreError>(StoreError::ApplyFailure)
                &&& *final(self) == *old(self)
                &&& *final(db) == *old(db)
            },
            old(self).spec_state() == TransactionState::Active && !old(self).conflicts_with(old(db)) && columns_in(
                old(self).writes(),
                old(db)@,
            ) && old(db).last_seq() < u64::MAX ==> {
                &&& r.is_ok()
                &&& final(self).spec_state() == TransactionState::Committed
                &&& applied(*old(db), *final(db), old(self).writes())
            },
    {
        if self.state != TransactionState::Active {
            return Err(StoreError::TransactionClosed);
        }
        let n = self.reads.len();
        let mut i: usize = 0;
        while i < n
            invariant
                n == self.reads@.len(),
                i <= n,
                *self == *old(self),
                *db == *old(db),
                old(self).wf(),
                old(self).spec_state() == TransactionState::Active,
                db.wf(),
                forall|j: int| 0 <= j < i ==> !(db@.contains_key((#[trigger] self.reads()[j]).0)
                    && db.version_of(self.reads()[j].0, self.reads()[j].1) > self.start_seq()),
            decreases n - i,
        {
            let column = self.reads[i].0;
            assert(self.reads()[i as int] == (column, self.reads@[i as int].1@));
            if db.has_column(column) && db.version(column, self.reads[i].1.as_slice()) > self.start {
                self.state = TransactionState::Conflicted;
                return Err(StoreError::ConflictError);
            }
            i = i + 1;
        }
        let m = self.writes.len();
        let mut i: usize = 0;
        while i < m
            invariant
                m == self.writes@.len(),
                i <= m,
                *self == *old(self),
                *db == *old(db),
                old(self).wf(),
                old(self).spec_state() == TransactionState::Active,
                n == self.reads@.len(),
                db.wf(),
                forall|j: int| 0 <= j < n ==> !(db@.contains_key((#[trigger] self.reads()[j]).0)
                    && db.version_of(self.reads()[j].0, self.reads()[j].1) > self.start_seq()),
                forall|j: int| 0 <= j < i ==> !(db@.contains_key((#[trigger] self.writes()[j]).0)
                    && db.version_of(self.writes()[j].0, self.writes()[j].1) > self.start_seq()),
            decreases m - i,
        {
            let op = self.writes.op(i);
            if db.has_column(op.column) && db.version(op.column, op.key.as_slice()) > self.start {
                self.state = TransactionState::Conflicted;
                return Err(StoreError::ConflictError);
            }
            i = i + 1;
        }
        match db.write(&self.writes) {
            Ok(()) => {
                self.state = TransactionState::Committed;
                Ok(())
            },
            Err(e) => Err(e),
        }
    }

    /// Ends an active transaction without touching the store, discarding what it
    /// buffered. On a transaction that has already ended it changes nothing.
    pub fn rollback(&mut self) -> (r: Result<(), StoreError>)
        requires
            old(self).wf(),
        ensures
            final(self).wf(),
            r.is_ok(),
            old(self).spec_state() == TransactionState::Active ==> {
                &&& final(self).spec_state() == TransactionState::RolledBack
                &&& final(self).writes() == Seq::<OpView>::empty()
                &&& final(self).reads() == Seq::<(Column, Seq<u8>)>::empty()
            },
            old(self).spec_state() != TransactionState::Active ==> *final(self) == *old(self),
    {
        if self.state == TransactionState::Active {
            self.state = TransactionState::RolledBack;
            self.writes = RocksDBWriteBatch::new();
            self.reads = Vec::new();
            proof {
                assert(self.reads() =~= Seq::<(Column, Seq<u8>)>::empty());
            }
        }
        Ok(())
    }
}

} // verus!
