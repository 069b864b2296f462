//! A detached buffer of puts and deletes, applied to a store as one unit.
use vstd::prelude::*;
use crate::column::Column;
use crate::error::StoreError;
use crate::table::{bytes_of, opt_view, write_map, KeyMap};

verus! {

/// Longest key the engine accepts, in bytes.
pub const MAX_KEY_LEN: usize = 8 * 1024 * 1024;

/// Longest value the engine accepts, in bytes.
pub const MAX_VALUE_LEN: usize = 1024 * 1024 * 1024;

/// One buffered operation: a put of `value` under `key`, or a delete where
/// `value` is `None`.
pub struct BatchOp {
    pub column: Column,
    pub key: Vec<u8>,
    pub value: Option<Vec<u8>>,
}

/// The view of an operation: its column, its key, and the value it writes.
pub type OpView = (Column, Seq<u8>, Option<Seq<u8>>);

impl BatchOp {
    pub open spec fn view(&self) -> OpView {
        (self.column, self.key@, opt_view(self.value))
    }
}

/// The bytes an operation carries: its key and its value.
pub open spec fn op_bytes(o: OpView) -> nat {
    o.1.len() + match o.2 {
        Some(v) => v.len(),
        None => 0,
    }
}

/// The bytes that a list of operations carries.
pub open spec fn ops_bytes(ops: Seq<OpView>) -> nat
    decreases ops.len(),
{
    if ops.len() == 0 {
        0
    } else {
        ops_bytes(ops.drop_last()) + op_bytes(ops.last())
    }
}

/// The column contents after the operations, applied in order to `m`.
pub open spec fn apply_ops(m: Map<Column, KeyMap>, ops: Seq<OpView>) -> Map<Column, KeyMap>
    decreases ops.len(),
{
    if ops.len() == 0 {
        m
    } else {
        let before = apply_ops(m, ops.drop_last());
        let o = ops.last();
        before.insert(o.0, write_map(before[o.0], o.1, o.2))
    }
}

/// What `k` holds in column `c` after the operations are applied to `m`: the value
/// of the last operation on it, or what `m` held when none touches it.
pub open spec fn lookup_ops(m: Map<Column, KeyMap>, ops: Seq<OpView>, c: Column, k: Seq<u8>) -> Option<Seq<u8>>
    decreases ops.len(),
{
    if ops.len() == 0 {
        m[c].get(k)
    } else if ops.last().0 == c && ops.last().1 == k {
        ops.last().2
    } else {
        lookup_ops(m, ops.drop_last(), c, k)
    }
}

/// Every operation names a column of `m`.
pub open spec fn columns_in(ops: Seq<OpView>, m: Map<Column, KeyMap>) -> bool {
    forall|i: int| 0 <= i < ops.len() ==> m.contains_key(#[trigger] ops[i].0)
}

/// Some operation writes `k` in column `c`.
pub open spec fn touches(ops: Seq<OpView>, c: Column, k: Seq<u8>) -> bool {
    touches_before(ops, ops.len() as int, c, k)
}

/// One of the first `n` operations writes `k` in column `c`.
pub open spec fn touches_before(ops: Seq<OpView>, n: int, c: Column, k: Seq<u8>) -> bool {
    exists|i: int| 0 <= i < n && (#[trigger] ops[i]).0 == c && ops[i].1 == k
}

pub proof fn lemma_apply_ops_push(m: Map<Column, KeyMap>, ops: Seq<OpView>, o: OpView)
    ensures
        apply_ops(m, ops.push(o)) == apply_ops(m, ops).insert(o.0, write_map(apply_ops(m, ops)[o.0], o.1, o.2)),
{
    assert(ops.push(o).drop_last() =~= ops);
}

pub proof fn lemma_apply_ops_dom(m: Map<Column, KeyMap>, ops: Seq<OpView>)
    requires
        columns_in(ops, m),
    ensures
        apply_ops(m, ops).dom() == m.dom(),
    decreases ops.len(),
{
    if ops.len() > 0 {
        assert(columns_in(ops.drop_last(), m)) by {
            assert forall|i: int| 0 <= i < ops.drop_last().len() implies m.contains_key(#[trigger] ops.drop_last()[i].0) by {
                assert(ops.drop_last()[i] == ops[i]);
            }
        }
        lemma_apply_ops_dom(m, ops.drop_last());
        assert(m.contains_key(ops[ops.len() - 1].0));
        assert(apply_ops(m, ops).dom() =~= m.dom());
    }
}

/// Buffered operations, oldest first, with the bytes they carry.
pub struct RocksDBWriteBatch {
    ops: Vec<BatchOp>,
    bytes: usize,
}

impl RocksDBWriteBatch {
    /// The buffered operations, oldest first.
    pub closed spec fn view(&self) -> Seq<OpView> {
        self.ops@.map_values(|o: BatchOp| o.view())
    }

    pub closed spec fn wf(&self) -> bool {
        self.bytes == ops_bytes(self@)
    }

    /// An empty batch.
    pub fn new() -> (r: RocksDBWriteBatch)
        ensures
            r.wf(),
            r@ == Seq::<OpView>::empty(),
    {
        let r = RocksDBWriteBatch { ops: Vec::new(), bytes: 0 };
        proof {
            assert(r@ =~= Seq::<OpView>::empty());
        }
        r
    }

    /// The number of buffered operations.
    pub fn len(&self) -> (r: usize)
        ensures
            r == self@.len(),
    {
        self.ops.len()
    }

    /// The bytes of keys and values buffered.
    pub fn size_in_bytes(&self) -> (r: usize)
        requires
            self.wf(),
        ensures
            r == ops_bytes(self@),
    {
        self.bytes
    }

    /// Whether no operation is buffered.
    pub fn is_empty(&self) -> (r: bool)
        ensures
            r == (self@.len() == 0),
    {
        self.ops.len() == 0
    }

    /// The operation at `i`.
    pub fn op(&self, i: usize) -> (r: &BatchOp)
        requires
            i < self@.len(),
        ensures
            r.view() == self@[i as int],
    {
        &self.ops[i]
    }

    fn push_op(&mut self, column: Column, key: &[u8], value: Option<&[u8]>) -> (r: Result<(), StoreError>)
        requires
            old(self).wf(),
        ensures
            final(self).wf(),
            ({
                let o: OpView = (column, key@, match value {
                    Some(v) => Some(v@),
                    None => None,
                });
                &&& r.is_err() <==> (key@.len() > MAX_KEY_LEN || (value.is_some() && value.unwrap()@.len() > MAX_VALUE_LEN)
                    || ops_bytes(old(self)@) + op_bytes(o) > usize::MAX)
                &&& r.is_err() ==> r == Err::<(), StoreError>(StoreError::SerializationError) && *final(self) == *old(self)
                &&& r.is_ok() ==> final(self)@ == old(self)@.push(o)
            }),
    {
        let ghost o: OpView = (column, key@, match value {
            Some(v) => Some(v@),
            None => None,
        });
        if key.len() > MAX_KEY_LEN {
            return Err(StoreError::SerializationError);
        }
        let value_len: usize = match value {
            Some(v) => v.len(),
            None => 0,
        };
        if value_len > MAX_VALUE_LEN {
            return Err(StoreError::SerializationError);
        }
        if self.bytes > usize::MAX - key.len() || self.bytes + key.len() > usize::MAX - value_len {
            return Err(StoreError::SerializationError);
        }
        let stored = match value {
            Some(v) => Some(bytes_of(v)),
            None => None,
        };
        let op = BatchOp { column, key: bytes_of(key), value: stored };
        let ghost before = self@;
        self.ops.push(op);
        self.bytes = self.bytes + key.len() + value_len;
        proof {
            assert(self@ =~= before.push(o));
            assert(self@.drop_last() =~= before);
        }
        Ok(())
    }

    /// Buffers a put of `value` under `key` in `column`. A key longer than
    /// `MAX_KEY_LEN`, a value longer than `MAX_VALUE_LEN`, or a batch whose size
    /// would no longer fit in a `usize`, is refused and leaves the batch as it was.
    pub fn put(&mut self, column: Column, key: &[u8], value: &[u8]) -> (r: Result<(), StoreError>)
        requires
            old(self).wf(),
        ensures
            final(self).wf(),
            r.is_err() <==> (key@.len() > MAX_KEY_LEN || value@.len() > MAX_VALUE_LEN
                || ops_bytes(old(self)@) + key@.len() + value@.len() > usize::MAX),
            r.is_err() ==> r == Err::<(), StoreError>(StoreError::SerializationError) && *final(self) == *old(self),
            r.is_ok() ==> final(self)@ == old(self)@.push((column, key@, Some(value@))),
    {
        self.push_op(column, key, Some(value))
    }

    /// Buffers a delete of `key` in `column`. A key longer than `MAX_KEY_LEN`, or a
    /// batch whose size would no longer fit in a `usize`, is refused and leaves the
    /// batch as it was.
    pub fn delete(&mut self, column: Column, key: &[u8]) -> (r: Result<(), StoreError>)
        requires
            old(self).wf(),
        ensures
            final(self).wf(),
            r.is_err() <==> (key@.len() > MAX_KEY_LEN || ops_bytes(old(self)@) + key@.len() > usize::MAX),
            r.is_err() ==> r == Err::<(), StoreError>(StoreError::SerializationError) && *final(self) == *old(self),
            r.is_ok() ==> final(self)@ == old(self)@.push((column, key@, None::<Seq<u8>>)),
    {
        self.push_op(column, key, None)
    }
}

} // verus!
