//! Properties that hold across several operations of the store.
use vstd::prelude::*;
use crate::column::Column;
use crate::iter::{yields, IteratorMode};
use crate::keys::{key_lt, lemma_key_lt_asymmetric, lemma_key_lt_irreflexive};
use crate::config::{Options, StoreConfig, DEFAULT_BLOCK_SIZE, DEFAULT_CACHE_SIZE, DEFAULT_MAX_OPEN_FILES};
use crate::snapshot::Snapshot;
use crate::store::{after_delete, after_put, applied, RocksDB};
use crate::image::{
    as_ops, column_section, empty_columns, image_records, is_image_of, lemma_parse_records_bytes, parse,
    record_fits, records_bytes, records_in, tagged,
};
use crate::table::{enumerates, write_map, KeyMap};
use crate::transaction::RocksDBTransaction;
use crate::write_batch::{
    apply_ops, columns_in, lemma_apply_ops_dom, lemma_apply_ops_push, lookup_ops, touches, OpView,
};

verus! {

/// Reading a key right after putting a value under it returns exactly that value;
/// after the key is then deleted, reading it returns nothing.
pub proof fn law_put_get_delete(db: RocksDB, column: Column, key: Seq<u8>, value: Seq<u8>)
    requires
        db@.contains_key(column),
    ensures
        after_put(db@, column, key, value)[column].get(key) == Some(value),
        after_delete(after_put(db@, column, key, value), column, key)[column].get(key) == None::<Seq<u8>>,
{
}

/// A snapshot keeps the value a key had when it was taken, while a later put of a
/// new value under that key changes what the store itself returns.
pub proof fn law_snapshot_isolation(db: RocksDB, snap: Snapshot, column: Column, key: Seq<u8>, old_value: Seq<u8>, new_value: Seq<u8>)
    requires
        snap@ == db@,
        db@.contains_key(column),
        db@[column].get(key) == Some(old_value),
    ensures
        snap@[column].get(key) == Some(old_value),
        after_put(db@, column, key, new_value)[column].get(key) == Some(new_value),
{
}

/// After a batch is applied, each key holds the value of the last operation of
/// the batch on it (none for a delete), and keys the batch does not touch keep
/// their values.
pub proof fn law_batch_last_write_wins(m: Map<Column, KeyMap>, ops: Seq<OpView>, c: Column, k: Seq<u8>)
    requires
        columns_in(ops, m),
        m.contains_key(c),
    ensures
        apply_ops(m, ops)[c].get(k) == lookup_ops(m, ops, c, k),
    decreases ops.len(),
{
    if ops.len() > 0 {
        let rest = ops.drop_last();
        assert(columns_in(rest, m)) by {
            assert forall|i: int| 0 <= i < rest.len() implies m.contains_key(#[trigger] rest[i].0) by {
                assert(rest[i] == ops[i]);
            }
        }
        law_batch_last_write_wins(m, rest, c, k);
        lemma_apply_ops_dom(m, rest);
        let o = ops.last();
        assert(m.contains_key(ops[ops.len() - 1].0));
        if o.0 == c && o.1 == k {
            match o.2 {
                Some(v) => {},
                None => {},
            }
        } else if o.0 == c {
            let before = apply_ops(m, rest);
            assert(write_map(before[c], o.1, o.2).get(k) == before[c].get(k));
        }
    }
}

/// A batch of puts under distinct keys, in any columns, makes every one of its
/// values visible once it is applied. (A batch that fails leaves the store as it
/// was: see `RocksDB::write`.)
pub proof fn law_batch_all_visible(db0: RocksDB, db1: RocksDB, ops: Seq<OpView>)
    requires
        columns_in(ops, db0@),
        applied(db0, db1, ops),
        forall|i: int| 0 <= i < ops.len() ==> (#[trigger] ops[i]).2.is_some(),
        forall|i: int, j: int| 0 <= i < j < ops.len() ==> !((#[trigger] ops[i]).0 == (#[trigger] ops[j]).0 && ops[i].1 == ops[j].1),
    ensures
        forall|i: int| 0 <= i < ops.len() ==> db1@[(#[trigger] ops[i]).0].get(ops[i].1) == ops[i].2,
{
    assert forall|i: int| 0 <= i < ops.len() implies db1@[(#[trigger] ops[i]).0].get(ops[i].1) == ops[i].2 by {
        law_batch_last_write_wins(db0@, ops, ops[i].0, ops[i].1);
        lemma_lookup_last(db0@, ops, i);
    }
}

proof fn lemma_lookup_last(m: Map<Column, KeyMap>, ops: Seq<OpView>, i: int)
    requires
        0 <= i < ops.len(),
        forall|a: int, b: int| 0 <= a < b < ops.len() ==> !((#[trigger] ops[a]).0 == (#[trigger] ops[b]).0 && ops[a].1 == ops[b].1),
    ensures
        lookup_ops(m, ops, ops[i].0, ops[i].1) == ops[i].2,
    decreases ops.len(),
{
    if i < ops.len() - 1 {
        let rest = ops.drop_last();
        assert(rest[i] == ops[i]);
        assert(!(ops[i].0 == ops[ops.len() - 1].0 && ops[i].1 == ops[ops.len() - 1].1));
        lemma_lookup_last(m, rest, i);
    }
}

/// Once a write touching a key has committed after a transaction began, that
/// transaction, having read the key, conflicts: its commit fails with
/// `ConflictError` (first committer wins).
pub proof fn law_first_committer_wins(
    db0: RocksDB,
    db1: RocksDB,
    ops: Seq<OpView>,
    txn: RocksDBTransaction,
    column: Column,
    key: Seq<u8>,
)
    requires
        txn.start_seq() == db0.last_seq(),
        txn.reads().contains((column, key)),
        touches(ops, column, key),
        db0@.contains_key(column),
        columns_in(ops, db0@),
        applied(db0, db1, ops),
    ensures
        txn.conflicts_with(&db1),
{
    lemma_apply_ops_dom(db0@, ops);
    let i = choose|i: int| 0 <= i < txn.reads().len() && txn.reads()[i] == (column, key);
    assert(db1@.contains_key(txn.reads()[i].0));
    assert(db1.version_of(txn.reads()[i].0, txn.reads()[i].1) > txn.start_seq());
}

/// A transaction conflicts with nothing as long as no write has committed since
/// it began, so the first of several transactions to commit succeeds.
pub proof fn law_first_commit_free_of_conflict(db: RocksDB, txn: RocksDBTransaction)
    requires
        db.wf(),
        txn.start_seq() == db.last_seq(),
    ensures
        !txn.conflicts_with(&db),
{
    db.lemma_versions_bounded();
}

/// Compaction changes no commit's outcome: a transaction conflicts with the
/// compacted store exactly when it conflicted with the store before.
pub proof fn law_compaction_keeps_conflicts(db0: RocksDB, db1: RocksDB, txn: RocksDBTransaction)
    requires
        db1@ == db0@,
        forall|c: Column, k: Seq<u8>| #[trigger] db1.version_of(c, k) == db0.version_of(c, k),
    ensures
        txn.conflicts_with(&db1) == txn.conflicts_with(&db0),
{
    assert(txn.conflicts_with(&db1) ==> txn.conflicts_with(&db0)) by {
        if exists|i: int| 0 <= i < txn.reads().len() && db1@.contains_key((#[trigger] txn.reads()[i]).0)
            && db1.version_of(txn.reads()[i].0, txn.reads()[i].1) > txn.start_seq() {
            let i = choose|i: int| 0 <= i < txn.reads().len() && db1@.contains_key((#[trigger] txn.reads()[i]).0)
                && db1.version_of(txn.reads()[i].0, txn.reads()[i].1) > txn.start_seq();
            assert(db0.version_of(txn.reads()[i].0, txn.reads()[i].1) > txn.start_seq());
        }
        if exists|i: int| 0 <= i < txn.writes().len() && db1@.contains_key((#[trigger] txn.writes()[i]).0)
            && db1.version_of(txn.writes()[i].0, txn.writes()[i].1) > txn.start_seq() {
            let i = choose|i: int| 0 <= i < txn.writes().len() && db1@.contains_key((#[trigger] txn.writes()[i]).0)
                && db1.version_of(txn.writes()[i].0, txn.writes()[i].1) > txn.start_seq();
            assert(db0.version_of(txn.writes()[i].0, txn.writes()[i].1) > txn.start_seq());
        }
    }
    assert(txn.conflicts_with(&db0) ==> txn.conflicts_with(&db1)) by {
        if exists|i: int| 0 <= i < txn.reads().len() && db0@.contains_key((#[trigger] txn.reads()[i]).0)
            && db0.version_of(txn.reads()[i].0, txn.reads()[i].1) > txn.start_seq() {
            let i = choose|i: int| 0 <= i < txn.reads().len() && db0@.contains_key((#[trigger] txn.reads()[i]).0)
                && db0.version_of(txn.reads()[i].0, txn.reads()[i].1) > txn.start_seq();
            assert(db1.version_of(txn.reads()[i].0, txn.reads()[i].1) > txn.start_seq());
        }
        if exists|i: int| 0 <= i < txn.writes().len() && db0@.contains_key((#[trigger] txn.writes()[i]).0)
            && db0.version_of(txn.writes()[i].0, txn.writes()[i].1) > txn.start_seq() {
            let i = choose|i: int| 0 <= i < txn.writes().len() && db0@.contains_key((#[trigger] txn.writes()[i]).0)
                && db0.version_of(txn.writes()[i].0, txn.writes()[i].1) > txn.start_seq();
            assert(db1.version_of(txn.writes()[i].0, txn.writes()[i].1) > txn.start_seq());
        }
    }
}

/// Deleting a key in one column leaves the same key in another column as it was.
pub proof fn law_column_isolation(db: RocksDB, a: Column, b: Column, key: Seq<u8>, v1: Seq<u8>, v2: Seq<u8>)
    requires
        db@.contains_key(a),
        db@.contains_key(b),
        a != b,
    ensures
        after_delete(after_put(after_put(db@, a, key, v1), b, key, v2), a, key)[b].get(key) == Some(v2),
{
}

/// A store opened with the default configuration runs with at most 1000 open
/// files, a 160 MiB block cache and 16 KiB blocks.
pub proof fn law_default_options(config: StoreConfig, db: RocksDB, path: Seq<char>, columns: Seq<Column>)
    requires
        config.max_open_files == DEFAULT_MAX_OPEN_FILES,
        config.cache_size == DEFAULT_CACHE_SIZE,
        config.block_size == DEFAULT_BLOCK_SIZE,
        db.opened(path, Options {
            max_open_files: config.max_open_files,
            cache_capacity: config.cache_size,
            block_size: config.block_size,
        }, columns),
    ensures
        db.spec_options().max_open_files == 1000,
        db.spec_options().cache_capacity == 160 * 1024 * 1024,
        db.spec_options().block_size == 16 * 1024,
{
}

proof fn lemma_apply_ops_concat(m: Map<Column, KeyMap>, a: Seq<OpView>, b: Seq<OpView>)
    ensures
        apply_ops(m, a + b) == apply_ops(apply_ops(m, a), b),
    decreases b.len(),
{
    if b.len() == 0 {
        assert(a + b =~= a);
    } else {
        lemma_apply_ops_concat(m, a, b.drop_last());
        assert((a + b).drop_last() =~= a + b.drop_last());
        assert((a + b).last() == b.last());
    }
}

/// The keys of `m` that occur among the first `j` pairs of `s`, with their values in `m`.
spec fn seen(m: KeyMap, s: Seq<(Seq<u8>, Seq<u8>)>, j: int) -> KeyMap {
    Map::new(|k: Seq<u8>| exists|i: int| 0 <= i < j && (#[trigger] s[i]).0 == k, |k: Seq<u8>| m[k])
}

proof fn lemma_load_section(m0: Map<Column, KeyMap>, c: Column, s: Seq<(Seq<u8>, Seq<u8>)>, m: KeyMap, j: int)
    requires
        m0.contains_key(c),
        m0[c] == KeyMap::empty(),
        enumerates(s, m),
        0 <= j <= s.len(),
    ensures
        apply_ops(m0, as_ops(tagged(c, s.take(j)))) == m0.insert(c, seen(m, s, j)),
    decreases j,
{
    if j == 0 {
        assert(as_ops(tagged(c, s.take(0))) =~= Seq::<OpView>::empty());
        assert(seen(m, s, 0) =~= KeyMap::empty());
        assert(m0.insert(c, seen(m, s, 0)) =~= m0);
    } else {
        lemma_load_section(m0, c, s, m, j - 1);
        let o: OpView = (c, s[j - 1].0, Some(s[j - 1].1));
        assert(as_ops(tagged(c, s.take(j))) =~= as_ops(tagged(c, s.take(j - 1))).push(o));
        lemma_apply_ops_push(m0, as_ops(tagged(c, s.take(j - 1))), o);
        assert(m.contains_key(s[j - 1].0));
        assert(seen(m, s, j - 1).insert(s[j - 1].0, s[j - 1].1) =~= seen(m, s, j)) by {
            assert forall|k: Seq<u8>| #[trigger] seen(m, s, j).contains_key(k) implies seen(m, s, j - 1).insert(s[j - 1].0, s[j - 1].1).contains_key(k) by {
                let i = choose|i: int| 0 <= i < j && (#[trigger] s[i]).0 == k;
                if i < j - 1 {
                    assert(seen(m, s, j - 1).contains_key(k));
                }
            }
            assert forall|k: Seq<u8>| #[trigger] seen(m, s, j - 1).contains_key(k) implies seen(m, s, j).contains_key(k) by {
                let i = choose|i: int| 0 <= i < j - 1 && (#[trigger] s[i]).0 == k;
                assert(0 <= i < j && s[i].0 == k);
            }
            assert(0 <= j - 1 < j && s[j - 1].0 == s[j - 1].0);
            assert(seen(m, s, j).contains_key(s[j - 1].0));
        }
        assert(m0.insert(c, seen(m, s, j - 1)).insert(c, seen(m, s, j)) =~= m0.insert(c, seen(m, s, j)));
    }
}

proof fn lemma_load_column(m0: Map<Column, KeyMap>, c: Column, s: Seq<(Seq<u8>, Seq<u8>)>, whole: Map<Column, KeyMap>)
    requires
        m0.dom() == whole.dom(),
        m0.contains_key(c) ==> m0[c] == KeyMap::empty(),
        column_section(whole, c, s),
    ensures
        apply_ops(m0, as_ops(tagged(c, s))) == if whole.contains_key(c) {
            m0.insert(c, whole[c])
        } else {
            m0
        },
{
    if whole.contains_key(c) {
        lemma_load_section(m0, c, s, whole[c], s.len() as int);
        assert(s.take(s.len() as int) =~= s);
        assert(seen(whole[c], s, s.len() as int) =~= whole[c]) by {
            assert forall|k: Seq<u8>| whole[c].contains_key(k) implies #[trigger] seen(whole[c], s, s.len() as int).contains_key(k) by {
                let i = choose|i: int| 0 <= i < s.len() && #[trigger] s[i].0 == k;
                assert(0 <= i < s.len() && s[i].0 == k);
            }
            assert forall|k: Seq<u8>| #[trigger] seen(whole[c], s, s.len() as int).contains_key(k) implies whole[c].contains_key(k) by {
                let i = choose|i: int| 0 <= i < s.len() && (#[trigger] s[i]).0 == k;
            }
        }
    } else {
        assert(as_ops(tagged(c, s)) =~= Seq::<OpView>::empty());
    }
}

/// Restoring a store from its image gives back exactly the contents it had when
/// the image was taken, given the columns it was opened with.
pub proof fn law_image_round_trip(m: Map<Column, KeyMap>, columns: Seq<Column>, bytes: Seq<u8>)
    requires
        is_image_of(bytes, m),
        m.dom() == Set::new(|c: Column| columns.contains(c)),
        forall|c: Column, k: Seq<u8>| m.contains_key(c) && #[trigger] m[c].contains_key(k) ==> k.len() <= u64::MAX
            && m[c][k].len() <= u64::MAX,
    ensures
        parse(bytes).is_some(),
        records_in(parse(bytes).unwrap(), columns),
        apply_ops(empty_columns(columns), as_ops(parse(bytes).unwrap())) == m,
{
    let (h, b, t) = choose|h: Seq<(Seq<u8>, Seq<u8>)>, b: Seq<(Seq<u8>, Seq<u8>)>, t: Seq<(Seq<u8>, Seq<u8>)>|
        #![trigger image_records(h, b, t)]
        column_section(m, Column::BlockHeader, h) && column_section(m, Column::BlockBody, b)
            && column_section(m, Column::Transaction, t) && bytes == records_bytes(image_records(h, b, t));
    let rs = image_records(h, b, t);
    let th = tagged(Column::BlockHeader, h);
    let tb = tagged(Column::BlockBody, b);
    let tt = tagged(Column::Transaction, t);
    assert forall|i: int| 0 <= i < rs.len() implies record_fits(#[trigger] rs[i]) && columns.contains(rs[i].0) by {
        if i < th.len() {
            assert(rs[i] == th[i]);
            assert(m.contains_key(Column::BlockHeader));
            assert(m[Column::BlockHeader].contains_key(h[i].0));
        } else if i < th.len() + tb.len() {
            assert(rs[i] == tb[i - th.len()]);
            assert(m.contains_key(Column::BlockBody));
            assert(m[Column::BlockBody].contains_key(b[i - th.len()].0));
        } else {
            assert(rs[i] == tt[i - th.len() - tb.len()]);
            assert(m.contains_key(Column::Transaction));
            assert(m[Column::Transaction].contains_key(t[i - th.len() - tb.len()].0));
        }
    }
    lemma_parse_records_bytes(rs);
    let e = empty_columns(columns);
    assert(as_ops(rs) =~= as_ops(th) + as_ops(tb) + as_ops(tt));
    lemma_apply_ops_concat(e, as_ops(th) + as_ops(tb), as_ops(tt));
    lemma_apply_ops_concat(e, as_ops(th), as_ops(tb));
    assert(e.dom() =~= m.dom());
    lemma_load_column(e, Column::BlockHeader, h, m);
    let e1 = apply_ops(e, as_ops(th));
    assert(e1.dom() =~= m.dom());
    lemma_load_column(e1, Column::BlockBody, b, m);
    let e2 = apply_ops(e1, as_ops(tb));
    assert(e2.dom() =~= m.dom());
    lemma_load_column(e2, Column::Transaction, t, m);
    assert(apply_ops(e2, as_ops(tt)) =~= m);
}

proof fn lemma_enumeration_positions(s: Seq<(Seq<u8>, Seq<u8>)>, t: Seq<(Seq<u8>, Seq<u8>)>, m: KeyMap, i: int)
    requires
        enumerates(s, m),
        enumerates(t, m),
        0 <= i < s.len(),
        i < t.len(),
        forall|j: int| 0 <= j < i ==> s[j].0 == t[j].0,
    ensures
        s[i].0 == t[i].0,
{
    let a = s[i].0;
    let b = t[i].0;
    let ja = choose|j: int| 0 <= j < t.len() && #[trigger] t[j].0 == a;
    let jb = choose|j: int| 0 <= j < s.len() && #[trigger] s[j].0 == b;
    if ja < i {
        assert(s[ja].0 == t[ja].0);
        assert(key_lt(s[ja].0, s[i].0));
        lemma_key_lt_irreflexive(a);
    }
    if jb < i {
        assert(t[jb].0 == s[jb].0);
        assert(key_lt(t[jb].0, t[i].0));
        lemma_key_lt_irreflexive(b);
    }
    if ja > i && jb > i {
        assert(key_lt(b, a));
        assert(key_lt(a, b));
        lemma_key_lt_asymmetric(a, b);
    } else if ja > i {
        assert(jb == i);
        lemma_key_lt_irreflexive(b);
        assert(key_lt(b, a));
    } else if jb > i {
        assert(ja == i);
        lemma_key_lt_irreflexive(a);
        assert(key_lt(a, b));
    }
}

/// Two lists that both enumerate `m` in ascending key order are the same list.
pub proof fn lemma_enumeration_unique(s: Seq<(Seq<u8>, Seq<u8>)>, t: Seq<(Seq<u8>, Seq<u8>)>, m: KeyMap)
    requires
        enumerates(s, m),
        enumerates(t, m),
    ensures
        s == t,
{
    let n = if s.len() < t.len() { s.len() } else { t.len() };
    assert forall|i: int| 0 <= i < n implies s[i].0 == t[i].0 by {
        lemma_enumeration_prefix(s, t, m, i);
    }
    if s.len() != t.len() {
        if s.len() > t.len() {
            let k = s[n as int].0;
            let j = choose|j: int| 0 <= j < t.len() && #[trigger] t[j].0 == k;
            assert(s[j].0 == t[j].0);
            assert(key_lt(s[j].0, s[n as int].0));
            lemma_key_lt_irreflexive(k);
        } else {
            let k = t[n as int].0;
            let j = choose|j: int| 0 <= j < s.len() && #[trigger] s[j].0 == k;
            assert(s[j].0 == t[j].0);
            assert(key_lt(t[j].0, t[n as int].0));
            lemma_key_lt_irreflexive(k);
        }
    }
    assert forall|i: int| 0 <= i < s.len() implies s[i] == t[i] by {
        assert(m[s[i].0] == s[i].1);
        assert(m[t[i].0] == t[i].1);
    }
    assert(s =~= t);
}

proof fn lemma_enumeration_prefix(s: Seq<(Seq<u8>, Seq<u8>)>, t: Seq<(Seq<u8>, Seq<u8>)>, m: KeyMap, i: int)
    requires
        enumerates(s, m),
        enumerates(t, m),
        0 <= i < s.len(),
        i < t.len(),
    ensures
        forall|j: int| 0 <= j <= i ==> s[j].0 == t[j].0,
    decreases i,
{
    if i > 0 {
        lemma_enumeration_prefix(s, t, m, i - 1);
    }
    lemma_enumeration_positions(s, t, m, i);
}

/// Iterating a column from its end yields exactly the reverse of iterating it
/// from its start.
pub proof fn law_iteration_order(forward: Seq<(Seq<u8>, Seq<u8>)>, backward: Seq<(Seq<u8>, Seq<u8>)>, m: KeyMap)
    requires
        yields(forward, m, IteratorMode::Start),
        yields(backward, m, IteratorMode::End),
    ensures
        backward == forward.reverse(),
{
    lemma_enumeration_unique(backward.reverse(), forward, m);
    assert(backward =~= backward.reverse().reverse());
}

} // verus!
