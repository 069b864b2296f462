//! The store: column families, a write sequence counter and the engine settings,
//! with its durable image (`flush`, `restore`).
//!
//! Every write (a single put or delete, a batch, a transaction's commit) takes the
//! next sequence number, and each key remembers the number of its last write;
//! transactions compare these against the number current when they began.
use vstd::prelude::*;
use vstd::string::StrSliceExecFns;
use crate::column::Column;
use crate::config::{Options, StoreConfig};
use crate::error::StoreError;
use crate::families::{lists, ColumnFamilies};
use crate::image::{
    append_column, as_ops, column_section, decode, empty_columns, image_records, is_image_of, parse,
    records_bytes, records_in, records_view, tagged, Record,
};
use crate::iter::{select, yields, IteratorMode, RocksDBIterator};
use crate::snapshot::Snapshot;
use crate::table::{bytes_of, opt_view, pairs_view, write_map, KeyMap};
use crate::transaction::RocksDBTransaction;
use crate::write_batch::{
    apply_ops, columns_in, lemma_apply_ops_dom, lemma_apply_ops_push, touches, touches_before, OpView,
    RocksDBWriteBatch, MAX_KEY_LEN, MAX_VALUE_LEN,
};

verus! {

/// Where a store lives when its configuration names no path.
pub const DEFAULT_PATH: &'static str = "default_db_path";

/// The columns `m` after a put of `v` under `k` in column `c`.
pub open spec fn after_put(m: Map<Column, KeyMap>, c: Column, k: Seq<u8>, v: Seq<u8>) -> Map<Column, KeyMap> {
    m.insert(c, m[c].insert(k, v))
}

/// The columns `m` after a delete of `k` in column `c`.
pub open spec fn after_delete(m: Map<Column, KeyMap>, c: Column, k: Seq<u8>) -> Map<Column, KeyMap> {
    m.insert(c, m[c].remove(k))
}

/// `new` is `old` after a successful write of `ops` as one unit: the contents
/// carry the operations, applied in order, and every key they touch is stamped
/// with the new sequence number.
pub open spec fn applied(old: RocksDB, new: RocksDB, ops: Seq<OpView>) -> bool {
    &&& new@ == apply_ops(old@, ops)
    &&& new.last_seq() == old.last_seq() + 1
    &&& new.spec_options() == old.spec_options()
    &&& new.spec_path() == old.spec_path()
    &&& forall|c: Column, k: Seq<u8>| #[trigger] new.version_of(c, k) == if touches(ops, c, k) {
        new.last_seq()
    } else {
        old.version_of(c, k)
    }
}

/// Some column occurs twice in `columns`.
pub open spec fn has_duplicates(columns: Seq<Column>) -> bool {
    exists|i: int, j: int| 0 <= i < j < columns.len() && columns[i] == columns[j]
}

/// A store can be opened at `path` with `options` and `columns`: the path is not
/// empty, blocks have a size, and no column is listed twice.
pub open spec fn can_open(path: Seq<char>, options: Options, columns: Seq<Column>) -> bool {
    path.len() > 0 && options.block_size > 0 && !has_duplicates(columns)
}

fn find_duplicate(columns: &[Column]) -> (r: bool)
    ensures
        r == has_duplicates(columns@),
{
    let mut i: usize = 0;
    while i < columns.len()
        invariant
            i <= columns@.len(),
            forall|a: int, b: int| 0 <= a < b < i ==> columns@[a] != columns@[b],
        decreases columns@.len() - i,
    {
        let mut j: usize = 0;
        while j < i
            invariant
                j <= i < columns@.len(),
                forall|a: int| 0 <= a < j ==> columns@[a] != columns@[i as int],
            decreases i - j,
        {
            if columns[j] == columns[i] {
                return true;
            }
            j = j + 1;
        }
        i = i + 1;
    }
    false
}

/// An open store: its columns, the sequence number of its latest write, and the
/// path and settings it was opened with.
pub struct RocksDB {
    pub(crate) cfs: ColumnFamilies,
    seq: u64,
    options: Options,
    path: String,
}

impl RocksDB {
    /// The contents of each configured column.
    pub closed spec fn view(&self) -> Map<Column, KeyMap> {
        self.cfs@
    }

    /// The sequence number of the latest write.
    pub closed spec fn last_seq(&self) -> u64 {
        self.seq
    }

    /// The sequence number of the latest write of `k` in column `c`; 0 for a key
    /// never written.
    pub closed spec fn version_of(&self, c: Column, k: Seq<u8>) -> u64 {
        self.cfs.version_of(c, k)
    }

    pub closed spec fn spec_options(&self) -> Options {
        self.options
    }

    pub closed spec fn spec_path(&self) -> Seq<char> {
        self.path@
    }

    pub closed spec fn wf(&self) -> bool {
        &&& self.cfs.wf()
        &&& forall|c: Column, k: Seq<u8>| self@.contains_key(c) ==> #[trigger] self.version_of(c, k) <= self.seq
    }

    /// What a write of `key` in `column`, carrying `value_len` bytes of value,
    /// fails with, if it fails.
    pub open spec fn write_error(&self, column: Column, key: Seq<u8>, value_len: nat) -> Option<StoreError> {
        if !self@.contains_key(column) {
            Some(StoreError::ColumnNotFoundError)
        } else if key.len() > MAX_KEY_LEN || value_len > MAX_VALUE_LEN {
            Some(StoreError::SerializationError)
        } else if self.last_seq() == u64::MAX {
            Some(StoreError::IOError)
        } else {
            None
        }
    }

    /// Opens an empty store at the configured path (or `DEFAULT_PATH`) with the
    /// configured settings and the given columns.
    pub fn open(config: &StoreConfig, columns: &[Column]) -> (r: Result<RocksDB, StoreError>)
        ensures
            ({
                let path = match config.path {
                    Some(p) => p@,
                    None => DEFAULT_PATH@,
                };
                let options = Options {
                    max_open_files: config.max_open_files,
                    cache_capacity: config.cache_size,
                    block_size: config.block_size,
                };
                &&& r.is_err() <==> !can_open(path, options, columns@)
                &&& r.is_err() ==> r == Err::<RocksDB, StoreError>(StoreError::OpenError)
                &&& r.is_ok() ==> r.unwrap().opened(path, options, columns@)
            }),
    {
        let options = config.to_options();
        let path = match &config.path {
            Some(p) => p.clone(),
            None => DEFAULT_PATH.to_owned(),
        };
        Self::open_with_options(path, options, columns)
    }

    /// The store is freshly opened at `path` with `options` and `columns`.
    pub open spec fn opened(&self, path: Seq<char>, options: Options, columns: Seq<Column>) -> bool {
        &&& self.wf()
        &&& self.spec_path() == path
        &&& self.spec_options() == options
        &&& self@.dom() == Set::new(|c: Column| columns.contains(c))
        &&& forall|c: Column| #[trigger] self@.contains_key(c) ==> self@[c] == KeyMap::empty()
        &&& self.last_seq() == 0
    }

    /// Opens an empty store at `path` with `options` and the given columns.
    pub fn open_with_options(path: String, options: Options, columns: &[Column]) -> (r: Result<RocksDB, StoreError>)
        ensures
            r.is_err() <==> !can_open(path@, options, columns@),
            r.is_err() ==> r == Err::<RocksDB, StoreError>(StoreError::OpenError),
            r.is_ok() ==> r.unwrap().opened(path@, options, columns@),
    {
        match Self::open_db(&path, &options, columns) {
            Ok(cfs) => {
                let r = RocksDB { cfs, seq: 0, options, path };
                Ok(r)
            },
            Err(e) => Err(e),
        }
    }

    fn open_db(path: &String, options: &Options, columns: &[Column]) -> (r: Result<ColumnFamilies, StoreError>)
        ensures
            r.is_err() <==> !can_open(path@, *options, columns@),
            r.is_err() ==> r == Err::<ColumnFamilies, StoreError>(StoreError::OpenError),
            r.is_ok() ==> {
                let cfs = r.unwrap();
                &&& cfs.wf()
                &&& cfs@.dom() == Set::new(|c: Column| columns@.contains(c))
                &&& forall|c: Column| #[trigger] cfs@.contains_key(c) ==> cfs@[c] == KeyMap::empty()
                &&& forall|c: Column, k: Seq<u8>| cfs@.contains_key(c) ==> #[trigger] cfs.version_of(c, k) == 0
            },
    {
        if path.as_str().unicode_len() == 0 || options.block_size == 0 || find_duplicate(columns) {
            return Err(StoreError::OpenError);
        }
        Ok(ColumnFamilies::new(columns))
    }

    /// No key of a configured column was written after the latest sequence number.
    pub proof fn lemma_versions_bounded(&self)
        requires
            self.wf(),
        ensures
            forall|c: Column, k: Seq<u8>| self@.contains_key(c) ==> #[trigger] self.version_of(c, k) <= self.last_seq(),
    {
    }

    /// An independent copy of every column.
    pub(crate) fn frozen_families(&self) -> (r: ColumnFamilies)
        requires
            self.wf(),
        ensures
            r.wf(),
            r@ == self@,
    {
        self.cfs.duplicate()
    }

    /// Whether the store was opened with `column`.
    pub fn has_column(&self, column: Column) -> (r: bool)
        ensures
            r == self@.contains_key(column),
    {
        self.cfs.contains(column)
    }

    /// The sequence number of the latest write of `key` in `column`.
    pub fn version(&self, column: Column, key: &[u8]) -> (r: u64)
        requires
            self.wf(),
            self@.contains_key(column),
        ensures
            r == self.version_of(column, key@),
    {
        self.cfs.version(column, key)
    }

    /// The engine settings the store was opened with.
    pub fn options(&self) -> (r: Options)
        ensures
            r == self.spec_options(),
    {
        self.options
    }

    /// The sequence number of the latest write.
    pub fn latest_sequence(&self) -> (r: u64)
        ensures
            r == self.last_seq(),
    {
        self.seq
    }

    /// The value stored under `key` in `column`, or `None` when there is none.
    pub fn get(&self, column: Column, key: &[u8]) -> (r: Result<Option<Vec<u8>>, StoreError>)
        requires
            self.wf(),
        ensures
            r.is_err() <==> !self@.contains_key(column),
            r.is_err() ==> r == Err::<Option<Vec<u8>>, StoreError>(StoreError::ColumnNotFoundError),
            r.is_ok() ==> opt_view(r.unwrap()) == self@[column].get(key@),
    {
        if !self.cfs.contains(column) {
            return Err(StoreError::ColumnNotFoundError);
        }
        Ok(self.cfs.get(column, key))
    }

    fn write_one(&mut self, column: Column, key: &[u8], value: Option<&[u8]>) -> (r: Result<(), StoreError>)
        requires
            old(self).wf(),
        ensures
            final(self).wf(),
            ({
                let v = match value {
                    Some(v) => Some(v@),
                    None => None,
                };
                let value_len: nat = match value {
                    Some(v) => v@.len(),
                    None => 0,
                };
                match old(self).write_error(column, key@, value_len) {
                    Some(e) => r == Err::<(), StoreError>(e) && *final(self) == *old(self),
                    None => {
                        &&& r.is_ok()
                        &&& final(self)@ == old(self)@.insert(column, write_map(old(self)@[column], key@, v))
                        &&& final(self).last_seq() == old(self).last_seq() + 1
                        &&& final(self).spec_options() == old(self).spec_options()
                        &&& final(self).spec_path() == old(self).spec_path()
                        &&& forall|c: Column, k: Seq<u8>| #[trigger] final(self).version_of(c, k) == if c == column && k == key@ {
                            final(self).last_seq()
                        } else {
                            old(self).version_of(c, k)
                        }
                    },
                }
            }),
    {
        if !self.cfs.contains(column) {
            return Err(StoreError::ColumnNotFoundError);
        }
        let value_len: usize = match value {
            Some(v) => v.len(),
            None => 0,
        };
        if key.len() > MAX_KEY_LEN || value_len > MAX_VALUE_LEN {
            return Err(StoreError::SerializationError);
        }
        if self.seq == u64::MAX {
            return Err(StoreError::IOError);
        }
        let seq = self.seq + 1;
        let stored = match value {
            Some(v) => Some(bytes_of(v)),
            None => None,
        };
        self.cfs.write(column, bytes_of(key), stored, seq);
        self.seq = seq;
        proof {
            assert(self@.dom() =~= old(self)@.dom());
            assert forall|c: Column, k: Seq<u8>| self@.contains_key(c) implies #[trigger] self.version_of(c, k) <= self.seq by {
                if !(c == column && k == key@) {
                    assert(old(self).version_of(c, k) <= old(self).seq);
                }
            }
        }
        Ok(())
    }

    /// Stores `value` under `key` in `column`; later reads, and snapshots taken
    /// later, see it.
    pub fn put(&mut self, column: Column, key: &[u8], value: &[u8]) -> (r: Result<(), StoreError>)
        requires
            old(self).wf(),
        ensures
            final(self).wf(),
            match old(self).write_error(column, key@, value@.len()) {
                Some(e) => r == Err::<(), StoreError>(e) && *final(self) == *old(self),
                None => {
                    &&& r.is_ok()
                    &&& final(self)@ == after_put(old(self)@, column, key@, value@)
                    &&& final(self).last_seq() == old(self).last_seq() + 1
                    &&& final(self).spec_options() == old(self).spec_options()
                    &&& final(self).spec_path() == old(self).spec_path()
                    &&& forall|c: Column, k: Seq<u8>| #[trigger] final(self).version_of(c, k) == if c == column && k == key@ {
                        final(self).last_seq()
                    } else {
                        old(self).version_of(c, k)
                    }
                },
            },
    {
        self.write_one(column, key, Some(value))
    }

    /// Removes `key` from `column`.
    pub fn delete(&mut self, column: Column, key: &[u8]) -> (r: Result<(), StoreError>)
        requires
            old(self).wf(),
        ensures
            final(self).wf(),
            match old(self).write_error(column, key@, 0) {
                Some(e) => r == Err::<(), StoreError>(e) && *final(self) == *old(self),
                None => {
                    &&& r.is_ok()
                    &&& final(self)@ == after_delete(old(self)@, column, key@)
                    &&& final(self).last_seq() == old(self).last_seq() + 1
                    &&& final(self).spec_options() == old(self).spec_options()
                    &&& final(self).spec_path() == old(self).spec_path()
                    &&& forall|c: Column, k: Seq<u8>| #[trigger] final(self).version_of(c, k) == if c == column && k == key@ {
                        final(self).last_seq()
                    } else {
                        old(self).version_of(c, k)
                    }
                },
            },
    {
        self.write_one(column, key, None)
    }

    /// Applies every operation of `batch`, in order, as one write: all of them
    /// or, with `ApplyFailure`, none (when an operation names a column the store
    /// lacks, or no sequence number is left).
    pub fn write(&mut self, batch: &RocksDBWriteBatch) -> (r: Result<(), StoreError>)
        requires
            old(self).wf(),
            batch.wf(),
        ensures
            final(self).wf(),
            r.is_err() <==> (!columns_in(batch@, old(self)@) || old(self).last_seq() == u64::MAX),
            r.is_err() ==> r == Err::<(), StoreError>(StoreError::ApplyFailure) && *final(self) == *old(self),
            r.is_ok() ==> applied(*old(self), *final(self), batch@),
    {
        let n = batch.len();
        let mut i: usize = 0;
        while i < n
            invariant
                n == batch@.len(),
                i <= n,
                *self == *old(self),
                self.wf(),
                forall|j: int| 0 <= j < i ==> self@.contains_key(#[trigger] batch@[j].0),
            decreases n - i,
        {
            if !self.cfs.contains(batch.op(i).column) {
                proof {
                    assert(!old(self)@.contains_key(batch@[i as int].0));
                }
                return Err(StoreError::ApplyFailure);
            }
            i = i + 1;
        }
        if self.seq == u64::MAX {
            return Err(StoreError::ApplyFailure);
        }
        let seq = self.seq + 1;
        let ghost start = self@;
        let ghost ops = batch@;
        proof {
            lemma_apply_ops_dom(start, ops);
            assert(ops.take(0) =~= Seq::<OpView>::empty());
            assert(self.cfs.wf());
        }
        let mut i: usize = 0;
        while i < n
            invariant
                n == ops.len(),
                ops == batch@,
                i <= n,
                columns_in(ops, start),
                self.cfs.wf(),
                self.seq == old(self).seq,
                self.options == old(self).options,
                self.path == old(self).path,
                start == old(self)@,
                self@ == apply_ops(start, ops.take(i as int)),
                self@.dom() == start.dom(),
                old(self).wf(),
                old(self).seq < u64::MAX,
                seq == old(self).seq + 1,
                forall|c: Column, k: Seq<u8>| #[trigger] self.version_of(c, k) == if touches_before(ops, i as int, c, k) {
                    seq
                } else {
                    old(self).version_of(c, k)
                },
            decreases n - i,
        {
            let op = batch.op(i);
            let value = match &op.value {
                Some(v) => Some(bytes_of(v.as_slice())),
                None => None,
            };
            proof {
                assert(start.contains_key(ops[i as int].0));
            }
            let ghost prev = *self;
            self.cfs.write(op.column, bytes_of(op.key.as_slice()), value, seq);
            proof {
                let o = ops[i as int];
                assert(ops.take(i + 1) =~= ops.take(i as int).push(o));
                lemma_apply_ops_push(start, ops.take(i as int), o);
                assert(self@.dom() =~= start.dom());
                assert forall|c: Column, k: Seq<u8>| #[trigger] self.version_of(c, k) == if touches_before(ops, i + 1, c, k) {
                    seq
                } else {
                    old(self).version_of(c, k)
                } by {
                    assert(prev.version_of(c, k) == if touches_before(ops, i as int, c, k) {
                        seq
                    } else {
                        old(self).version_of(c, k)
                    });
                    if touches_before(ops, i as int, c, k) {
                        let w = choose|w: int| 0 <= w < i && (#[trigger] ops[w]).0 == c && ops[w].1 == k;
                        assert(0 <= w < i + 1 && ops[w].0 == c && ops[w].1 == k);
                    }
                    if c == o.0 && k == o.1 {
                        assert(ops[i as int].0 == c && ops[i as int].1 == k);
                    }
                }
            }
            i = i + 1;
        }
        let ghost fin = *self;
        self.seq = seq;
        proof {
            assert(ops.take(n as int) =~= ops);
            assert forall|c: Column, k: Seq<u8>| #[trigger] self.version_of(c, k) == if touches(ops, c, k) {
                seq
            } else {
                old(self).version_of(c, k)
            } by {
                assert(fin.version_of(c, k) == if touches_before(ops, n as int, c, k) {
                    seq
                } else {
                    old(self).version_of(c, k)
                });
            }
            assert forall|c: Column, k: Seq<u8>| self@.contains_key(c) implies #[trigger] self.version_of(c, k) <= self.seq by {
                assert(old(self)@.contains_key(c));
                if !touches_before(ops, n as int, c, k) {
                    assert(old(self).version_of(c, k) <= old(self).seq);
                }
            }
        }
        Ok(())
    }

    /// The durable image of the store: every present pair of every column, the
    /// columns in a fixed order and each in ascending key order. Writing it out
    /// is left to the caller; `restore` reads it back.
    pub fn flush(&self) -> (image: Vec<u8>)
        requires
            self.wf(),
        ensures
            is_image_of(image@, self@),
    {
        let h = if self.cfs.contains(Column::BlockHeader) { self.cfs.pairs(Column::BlockHeader) } else { Vec::new() };
        let b = if self.cfs.contains(Column::BlockBody) { self.cfs.pairs(Column::BlockBody) } else { Vec::new() };
        let t = if self.cfs.contains(Column::Transaction) { self.cfs.pairs(Column::Transaction) } else { Vec::new() };
        let mut out: Vec<u8> = Vec::new();
        let ghost hs = tagged(Column::BlockHeader, pairs_view(h@));
        let ghost bs = tagged(Column::BlockBody, pairs_view(b@));
        proof {
            assert(Seq::<Record>::empty() + hs =~= hs);
            assert(out@ =~= records_bytes(Seq::<Record>::empty()));
        }
        append_column(&mut out, Column::BlockHeader, &h, Ghost(Seq::empty()));
        append_column(&mut out, Column::BlockBody, &b, Ghost(hs));
        append_column(&mut out, Column::Transaction, &t, Ghost(hs + bs));
        proof {
            assert(Seq::<Record>::empty() + hs =~= hs);
            assert(pairs_view(h@).len() == h@.len());
            let (hv, bv, tv) = (pairs_view(h@), pairs_view(b@), pairs_view(t@));
            assert(column_section(self@, Column::BlockHeader, hv));
            assert(column_section(self@, Column::BlockBody, bv));
            assert(column_section(self@, Column::Transaction, tv));
            assert(out@ == records_bytes(image_records(hv, bv, tv)));
        }
        out
    }

    /// Opens a store at the configured path (or `DEFAULT_PATH`) with the
    /// configured settings and the given columns, holding what `image` holds.
    /// Fails with `OpenError` where `open` would, and where `image` is not a
    /// well-formed image or names a column not among `columns`.
    pub fn restore(config: &StoreConfig, columns: &[Column], image: &[u8]) -> (r: Result<RocksDB, StoreError>)
        ensures
            ({
                let path = match config.path {
                    Some(p) => p@,
                    None => DEFAULT_PATH@,
                };
                let options = Options {
                    max_open_files: config.max_open_files,
                    cache_capacity: config.cache_size,
                    block_size: config.block_size,
                };
                &&& r.is_err() <==> (!can_open(path, options, columns@) || parse(image@).is_none()
                    || !records_in(parse(image@).unwrap(), columns@))
                &&& r.is_err() ==> r == Err::<RocksDB, StoreError>(StoreError::OpenError)
                &&& r.is_ok() ==> {
                    let db = r.unwrap();
                    &&& db.wf()
                    &&& db.spec_path() == path
                    &&& db.spec_options() == options
                    &&& db.last_seq() == 0
                    &&& db@ == apply_ops(empty_columns(columns@), as_ops(parse(image@).unwrap()))
                }
            }),
    {
        let options = config.to_options();
        let path = match &config.path {
            Some(p) => p.clone(),
            None => DEFAULT_PATH.to_owned(),
        };
        let mut cfs = match Self::open_db(&path, &options, columns) {
            Ok(cfs) => cfs,
            Err(e) => {
                return Err(e);
            },
        };
        let records = match decode(image) {
            Some(v) => v,
            None => {
                return Err(StoreError::OpenError);
            },
        };
        let ghost rs = records_view(records@);
        let ghost ops = as_ops(rs);
        let ghost start = cfs@;
        proof {
            assert(start =~= empty_columns(columns@));
        }
        let n = records.len();
        let mut i: usize = 0;
        while i < n
            invariant
                n == records@.len(),
                i <= n,
                rs == records_view(records@),
                parse(image@) == Some(rs),
                can_open(path@, options, columns@),
                forall|j: int| 0 <= j < i ==> columns@.contains(#[trigger] rs[j].0),
            decreases n - i,
        {
            if !lists(columns, records[i].0) {
                proof {
                    assert(rs[i as int].0 == records@[i as int].0);
                }
                return Err(StoreError::OpenError);
            }
            i = i + 1;
        }
        proof {
            assert(columns_in(ops, start)) by {
                assert forall|j: int| 0 <= j < ops.len() implies start.contains_key(#[trigger] ops[j].0) by {
                    assert(ops[j].0 == rs[j].0);
                }
            }
            lemma_apply_ops_dom(start, ops);
            assert(ops.take(0) =~= Seq::<OpView>::empty());
        }
        let mut i: usize = 0;
        while i < n
            invariant
                n == records@.len(),
                n == ops.len(),
                i <= n,
                rs == records_view(records@),
                ops == as_ops(rs),
                columns_in(ops, start),
                parse(image@) == Some(rs),
                can_open(path@, options, columns@),
                records_in(rs, columns@),
                start == empty_columns(columns@),
                cfs.wf(),
                cfs@ == apply_ops(start, ops.take(i as int)),
                cfs@.dom() == start.dom(),
                forall|c: Column, k: Seq<u8>| cfs@.contains_key(c) ==> #[trigger] cfs.version_of(c, k) == 0,
            decreases n - i,
        {
            let (c, key, value) = (records[i].0, &records[i].1, &records[i].2);
            proof {
                assert(ops[i as int] == (c, key@, Some(value@)));
                assert(start.contains_key(ops[i as int].0));
            }
            cfs.write(c, bytes_of(key.as_slice()), Some(bytes_of(value.as_slice())), 0);
            proof {
                let o = ops[i as int];
                assert(ops.take(i + 1) =~= ops.take(i as int).push(o));
                lemma_apply_ops_push(start, ops.take(i as int), o);
                assert(cfs@.dom() =~= start.dom());
            }
            i = i + 1;
        }
        proof {
            assert(ops.take(n as int) =~= ops);
        }
        Ok(RocksDB { cfs, seq: 0, options, path })
    }

    /// Rebuilds the column tables into storage sized to their entries. Nothing a
    /// read, an iteration or a commit decides changes: the contents, the sequence
    /// number and the record of when each key was last written stay as they were.
    pub fn compact(&mut self) -> (r: Result<(), StoreError>)
        requires
            old(self).wf(),
        ensures
            final(self).wf(),
            r.is_ok(),
            final(self)@ == old(self)@,
            final(self).last_seq() == old(self).last_seq(),
            final(self).spec_options() == old(self).spec_options(),
            final(self).spec_path() == old(self).spec_path(),
            forall|c: Column, k: Seq<u8>| #[trigger] final(self).version_of(c, k) == old(self).version_of(c, k),
    {
        self.cfs.compact();
        proof {
            assert forall|c: Column, k: Seq<u8>| self@.contains_key(c) implies #[trigger] self.version_of(c, k) <= self.seq by {
                assert(old(self).version_of(c, k) <= old(self).seq);
            }
        }
        Ok(())
    }

    /// A one-pass cursor over `column` in `mode`, over the contents as they are now.
    pub fn iter(&self, column: Column, mode: &IteratorMode) -> (r: Result<RocksDBIterator, StoreError>)
        requires
            self.wf(),
        ensures
            !self@.contains_key(column) <==> r.is_err(),
            r.is_err() ==> r == Err::<RocksDBIterator, StoreError>(StoreError::ColumnNotFoundError),
            r.is_ok() ==> r.unwrap().wf() && yields(r.unwrap()@, self@[column], *mode),
    {
        if !self.cfs.contains(column) {
            return Err(StoreError::ColumnNotFoundError);
        }
        let pairs = self.cfs.pairs(column);
        let items = select(pairs, mode, Ghost(self@[column]));
        Ok(RocksDBIterator::new(items))
    }

    /// A frozen view of every column as it is now.
    pub fn snapshot(&self) -> (r: Snapshot)
        requires
            self.wf(),
        ensures
            r.wf(),
            r@ == self@,
    {
        Snapshot::new(self)
    }

    /// Begins a transaction that reads the store as it is now.
    pub fn transaction(&self) -> (r: RocksDBTransaction)
        requires
            self.wf(),
        ensures
            r.begun_on(self),
    {
        RocksDBTransaction::begin(self)
    }
}

} // verus!
