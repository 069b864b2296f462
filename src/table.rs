//! One column's keyspace: entries kept in ascending key order.
//!
//! A deleted key leaves a tombstone (an entry without a value) that still records
//! when it was written, so that transactions can tell whether it changed under them.
//! A key with no entry has never been written.
use vstd::prelude::*;
use crate::keys::{
    compare_keys, key_lt, lemma_key_lt_irreflexive, lemma_key_lt_total,
    lemma_key_lt_transitive,
};

verus! {

/// A stored entry: its key, its value (`None` for a tombstone) and the sequence
/// number of the write that produced it.
pub struct Entry {
    pub key: Vec<u8>,
    pub value: Option<Vec<u8>>,
    pub seq: u64,
}

/// The live contents of a table, or of one column as seen by a reader.
pub type KeyMap = Map<Seq<u8>, Seq<u8>>;

/// A list of pairs that enumerates `m` in ascending key order.
pub open spec fn enumerates(s: Seq<(Seq<u8>, Seq<u8>)>, m: KeyMap) -> bool {
    &&& forall|i: int, j: int| 0 <= i < j < s.len() ==> key_lt(s[i].0, s[j].0)
    &&& forall|i: int| 0 <= i < s.len() ==> m.contains_key(#[trigger] s[i].0) && m[s[i].0] == s[i].1
    &&& forall|k: Seq<u8>| m.contains_key(k) ==> exists|i: int| 0 <= i < s.len() && #[trigger] s[i].0 == k
}

/// The view of a list of owned pairs.
pub open spec fn pairs_view(v: Seq<(Vec<u8>, Vec<u8>)>) -> Seq<(Seq<u8>, Seq<u8>)> {
    v.map_values(|p: (Vec<u8>, Vec<u8>)| (p.0@, p.1@))
}

/// The view of an optional value.
pub open spec fn opt_view(o: Option<Vec<u8>>) -> Option<Seq<u8>> {
    match o {
        Some(v) => Some(v@),
        None => None,
    }
}

/// `m` after a write of `k`: a put of the value, or a delete where there is none.
pub open spec fn write_map(m: KeyMap, k: Seq<u8>, v: Option<Seq<u8>>) -> KeyMap {
    match v {
        Some(x) => m.insert(k, x),
        None => m.remove(k),
    }
}

/// Copies a byte slice into a new vector.
pub fn bytes_of(s: &[u8]) -> (r: Vec<u8>)
    ensures
        r@ == s@,
{
    let mut r: Vec<u8> = Vec::with_capacity(s.len());
    let mut i: usize = 0;
    while i < s.len()
        invariant
            i <= s@.len(),
            r@ == s@.subrange(0, i as int),
        decreases s@.len() - i,
    {
        r.push(s[i]);
        i = i + 1;
        proof {
            assert(r@ =~= s@.subrange(0, i as int));
        }
    }
    proof {
        assert(r@ =~= s@);
    }
    r
}

/// Copies a byte vector.
pub fn copy_bytes(v: &Vec<u8>) -> (r: Vec<u8>)
    ensures
        r@ == v@,
{
    let r = v.clone();
    proof {
        assert(r@ =~= v@);
    }
    r
}

/// A column's entries in strictly ascending key order, with ghost maps of the
/// present pairs and of each key's last write.
pub struct Table {
    entries: Vec<Entry>,
    live: Ghost<KeyMap>,
    versions: Ghost<Map<Seq<u8>, u64>>,
}

impl Table {
    /// The key-value pairs that are present (not deleted).
    pub closed spec fn live(&self) -> KeyMap {
        self.live@
    }

    /// The sequence number of the last recorded write of each key that has an entry.
    pub closed spec fn versions(&self) -> Map<Seq<u8>, u64> {
        self.versions@
    }

    /// The sequence number of the last write of `k`; 0 for a key never written.
    pub open spec fn version_of(&self, k: Seq<u8>) -> u64 {
        if self.versions().contains_key(k) {
            self.versions()[k]
        } else {
            0
        }
    }

    pub closed spec fn key_at(&self, i: int) -> Seq<u8> {
        self.entries@[i].key@
    }

    pub closed spec fn wf(&self) -> bool {
        let e = self.entries@;
        &&& forall|i: int, j: int| 0 <= i < j < e.len() ==> key_lt(#[trigger] self.key_at(i), #[trigger] self.key_at(j))
        &&& forall|i: int| 0 <= i < e.len() ==> self.versions@.contains_key(#[trigger] self.key_at(i))
            && self.versions@[self.key_at(i)] == e[i].seq
        &&& forall|k: Seq<u8>| self.versions@.contains_key(k) ==> exists|i: int| 0 <= i < e.len() && #[trigger] self.key_at(i) == k
        &&& forall|i: int| 0 <= i < e.len() ==> (self.live@.contains_key(#[trigger] self.key_at(i)) <==> e[i].value.is_some())
        &&& forall|i: int| 0 <= i < e.len() && e[i].value.is_some() ==> self.live@[#[trigger] self.key_at(i)] == e[i].value.unwrap()@
        &&& forall|k: Seq<u8>| self.live@.contains_key(k) ==> self.versions@.contains_key(k)
    }

    pub fn new() -> (t: Table)
        ensures
            t.wf(),
            t.live() == KeyMap::empty(),
            t.versions() == Map::<Seq<u8>, u64>::empty(),
    {
        Table { entries: Vec::new(), live: Ghost(KeyMap::empty()), versions: Ghost(Map::empty()) }
    }

    /// Binary search: the position of `key`, or where it would be inserted.
    fn find(&self, key: &[u8]) -> (r: (usize, bool))
        requires
            self.wf(),
        ensures
            r.0 <= self.entries@.len(),
            r.1 ==> r.0 < self.entries@.len() && self.key_at(r.0 as int) == key@,
            forall|i: int| 0 <= i < r.0 ==> key_lt(#[trigger] self.key_at(i), key@),
            !r.1 ==> forall|i: int| r.0 <= i < self.entries@.len() ==> key_lt(key@, #[trigger] self.key_at(i)),
            r.1 <==> self.versions().contains_key(key@),
    {
        let mut lo: usize = 0;
        let mut hi: usize = self.entries.len();
        while lo < hi
            invariant
                self.wf(),
                lo <= hi <= self.entries@.len(),
                forall|i: int| 0 <= i < lo ==> key_lt(#[trigger] self.key_at(i), key@),
                forall|i: int| hi <= i < self.entries@.len() ==> !key_lt(#[trigger] self.key_at(i), key@),
            decreases hi - lo,
        {
            let mid: usize = lo + (hi - lo) / 2;
            let c = compare_keys(self.entries[mid].key.as_slice(), key);
            if matches!(c, core::cmp::Ordering::Less) {
                proof {
                    assert forall|i: int| 0 <= i <= mid implies key_lt(#[trigger] self.key_at(i), key@) by {
                        if i < mid {
                            lemma_key_lt_transitive(self.key_at(i), self.key_at(mid as int), key@);
                        }
                    }
                }
                lo = mid + 1;
            } else {
                proof {
                    assert forall|i: int| mid <= i < self.entries@.len() implies !key_lt(#[trigger] self.key_at(i), key@) by {
                        if mid < i && key_lt(self.key_at(i), key@) {
                            lemma_key_lt_transitive(self.key_at(mid as int), self.key_at(i), key@);
                        }
                    }
                }
                hi = mid;
            }
        }
        let found = lo < self.entries.len() && matches!(
            compare_keys(self.entries[lo].key.as_slice(), key),
            core::cmp::Ordering::Equal
        );
        proof {
            if !found {
                assert forall|i: int| lo <= i < self.entries@.len() implies key_lt(key@, #[trigger] self.key_at(i)) by {
                    lemma_key_lt_total(key@, self.key_at(lo as int));
                    if lo < i {
                        lemma_key_lt_transitive(key@, self.key_at(lo as int), self.key_at(i));
                    }
                }
                if self.versions().contains_key(key@) {
                    let w = choose|i: int| 0 <= i < self.entries@.len() && #[trigger] self.key_at(i) == key@;
                    lemma_key_lt_irreflexive(key@);
                    assert(key_lt(self.key_at(w), key@) || key_lt(key@, self.key_at(w)));
                }
            }
        }
        (lo, found)
    }

    /// The value stored under `key`, if it is present.
    pub fn get(&self, key: &[u8]) -> (r: Option<Vec<u8>>)
        requires
            self.wf(),
        ensures
            r.is_some() == self.live().contains_key(key@),
            r.is_some() ==> r.unwrap()@ == self.live()[key@],
    {
        let (pos, found) = self.find(key);
        if found {
            match &self.entries[pos].value {
                Some(v) => Some(copy_bytes(v)),
                None => None,
            }
        } else {
            None
        }
    }

    /// When `key` was last written.
    pub fn version(&self, key: &[u8]) -> (r: u64)
        requires
            self.wf(),
        ensures
            r == self.version_of(key@),
    {
        let (pos, found) = self.find(key);
        if found {
            self.entries[pos].seq
        } else {
            0
        }
    }

    /// Records a write of `key` at sequence number `seq`: a put of `value`, or a
    /// delete where `value` is `None`.
    pub fn write(&mut self, key: Vec<u8>, value: Option<Vec<u8>>, seq: u64)
        requires
            old(self).wf(),
        ensures
            final(self).wf(),
            final(self).live() == write_map(old(self).live(), key@, opt_view(value)),
            final(self).versions() == old(self).versions().insert(key@, seq),
    {
        let (pos, found) = self.find(key.as_slice());
        let ghost k = key@;
        let ghost old_entries = self.entries@;
        let ghost new_live = write_map(self.live@, k, opt_view(value));
        let ghost new_versions = self.versions@.insert(k, seq);
        let entry = Entry { key, value, seq };
        if found {
            self.entries.set(pos, entry);
            self.live = Ghost(new_live);
            self.versions = Ghost(new_versions);
            proof {
                assert(self.entries@ == old_entries.update(pos as int, self.entries@[pos as int]));
                assert forall|i: int| 0 <= i < self.entries@.len() implies #[trigger] self.key_at(i) == old(self).key_at(i) by {}
                assert forall|i: int, j: int| 0 <= i < j < self.entries@.len() implies key_lt(#[trigger] self.key_at(i), #[trigger] self.key_at(j)) by {
                    assert(key_lt(old(self).key_at(i), old(self).key_at(j)));
                }
                assert forall|i: int| 0 <= i < self.entries@.len() && i != pos implies #[trigger] self.key_at(i) != k by {
                    assert(self.key_at(i) == old(self).key_at(i));
                    lemma_key_lt_irreflexive(k);
                    if i < pos {
                        assert(key_lt(old(self).key_at(i), old(self).key_at(pos as int)));
                    } else {
                        assert(key_lt(old(self).key_at(pos as int), old(self).key_at(i)));
                    }
                }
                assert forall|kk: Seq<u8>| self.versions@.contains_key(kk) implies exists|i: int| 0 <= i < self.entries@.len() && #[trigger] self.key_at(i) == kk by {
                    if kk != k {
                        let w = choose|i: int| 0 <= i < old_entries.len() && #[trigger] old(self).key_at(i) == kk;
                        assert(self.key_at(w) == kk);
                    } else {
                        assert(self.key_at(pos as int) == kk);
                    }
                }
            }
        } else {
            self.entries.insert(pos, entry);
            self.live = Ghost(new_live);
            self.versions = Ghost(new_versions);
            proof {
                assert forall|i: int| 0 <= i < self.entries@.len() implies #[trigger] self.key_at(i) == (
                if i < pos {
                    old(self).key_at(i)
                } else if i == pos {
                    k
                } else {
                    old(self).key_at(i - 1)
                }) by {}
                assert forall|i: int| 0 <= i < self.entries@.len() && i != pos implies #[trigger] self.key_at(i) != k by {
                    lemma_key_lt_irreflexive(k);
                    if i > pos {
                        assert(key_lt(k, old(self).key_at(i - 1)));
                    }
                }
                assert forall|i: int, j: int| 0 <= i < j < self.entries@.len() implies key_lt(#[trigger] self.key_at(i), #[trigger] self.key_at(j)) by {
                    if j < pos {
                        assert(key_lt(old(self).key_at(i), old(self).key_at(j)));
                    } else if i < pos && j == pos {
                    } else if i < pos && j > pos {
                        assert(key_lt(old(self).key_at(i), old(self).key_at(j - 1)));
                    } else if i == pos {
                        assert(key_lt(k, old(self).key_at(j - 1)));
                    } else {
                        assert(key_lt(old(self).key_at(i - 1), old(self).key_at(j - 1)));
                    }
                }
                assert forall|kk: Seq<u8>| self.versions@.contains_key(kk) implies exists|i: int| 0 <= i < self.entries@.len() && #[trigger] self.key_at(i) == kk by {
                    if kk != k {
                        let w = choose|i: int| 0 <= i < old_entries.len() && #[trigger] old(self).key_at(i) == kk;
                        if w < pos {
                            assert(self.key_at(w) == kk);
                        } else {
                            assert(self.key_at(w + 1) == kk);
                        }
                    } else {
                        assert(self.key_at(pos as int) == kk);
                    }
                }
                assert forall|i: int| 0 <= i < self.entries@.len() implies self.versions@.contains_key(#[trigger] self.key_at(i))
                    && self.versions@[self.key_at(i)] == self.entries@[i].seq by {
                    if i > pos {
                        assert(self.entries@[i] == old_entries[i - 1]);
                    } else if i < pos {
                        assert(self.entries@[i] == old_entries[i]);
                    }
                }
                assert forall|i: int| 0 <= i < self.entries@.len() implies (self.live@.contains_key(#[trigger] self.key_at(i)) <==> self.entries@[i].value.is_some()) by {
                    if i > pos {
                        assert(self.entries@[i] == old_entries[i - 1]);
                    } else if i < pos {
                        assert(self.entries@[i] == old_entries[i]);
                    }
                }
                assert forall|i: int| 0 <= i < self.entries@.len() && self.entries@[i].value.is_some() implies self.live@[#[trigger] self.key_at(i)] == self.entries@[i].value.unwrap()@ by {
                    if i > pos {
                        assert(self.entries@[i] == old_entries[i - 1]);
                    } else if i < pos {
                        assert(self.entries@[i] == old_entries[i]);
                    }
                }
            }
        }
    }

    /// An independent copy of the table.
    pub fn duplicate(&self) -> (r: Table)
        requires
            self.wf(),
        ensures
            r.wf(),
            r.live() == self.live(),
            r.versions() == self.versions(),
    {
        let mut entries: Vec<Entry> = Vec::with_capacity(self.entries.len());
        let mut i: usize = 0;
        while i < self.entries.len()
            invariant
                i <= self.entries@.len(),
                entries@.len() == i,
                forall|j: int| 0 <= j < i ==> (#[trigger] entries@[j]).key@ == self.entries@[j].key@
                    && entries@[j].seq == self.entries@[j].seq
                    && opt_view(entries@[j].value) == opt_view(self.entries@[j].value),
            decreases self.entries@.len() - i,
        {
            let e = &self.entries[i];
            let value = match &e.value {
                Some(v) => Some(copy_bytes(v)),
                None => None,
            };
            entries.push(Entry { key: copy_bytes(&e.key), value, seq: e.seq });
            i = i + 1;
        }
        let r = Table { entries, live: Ghost(self.live@), versions: Ghost(self.versions@) };
        proof {
            assert forall|j: int| 0 <= j < r.entries@.len() implies #[trigger] r.key_at(j) == self.key_at(j)
                && r.entries@[j].seq == self.entries@[j].seq
                && r.entries@[j].value.is_some() == self.entries@[j].value.is_some()
                && (r.entries@[j].value.is_some() ==> r.entries@[j].value.unwrap()@ == self.entries@[j].value.unwrap()@) by {
                assert(entries@[j].key@ == self.entries@[j].key@);
            }
            assert forall|k: Seq<u8>| r.versions@.contains_key(k) implies exists|j: int| 0 <= j < r.entries@.len() && #[trigger] r.key_at(j) == k by {
                let w = choose|j: int| 0 <= j < self.entries@.len() && #[trigger] self.key_at(j) == k;
                assert(r.key_at(w) == k);
            }
        }
        r
    }

    /// The present key-value pairs, in ascending key order.
    pub fn pairs(&self) -> (r: Vec<(Vec<u8>, Vec<u8>)>)
        requires
            self.wf(),
        ensures
            enumerates(pairs_view(r@), self.live()),
    {
        let mut out: Vec<(Vec<u8>, Vec<u8>)> = Vec::new();
        let mut i: usize = 0;
        while i < self.entries.len()
            invariant
                self.wf(),
                i <= self.entries@.len(),
                forall|a: int, b: int| 0 <= a < b < out@.len() ==> key_lt(#[trigger] out@[a].0@, #[trigger] out@[b].0@),
                forall|a: int, j: int| 0 <= a < out@.len() && i <= j < self.entries@.len() ==> key_lt(#[trigger] out@[a].0@, #[trigger] self.key_at(j)),
                forall|a: int| 0 <= a < out@.len() ==> self.live().contains_key(#[trigger] out@[a].0@)
                    && self.live()[out@[a].0@] == out@[a].1@,
                forall|j: int| 0 <= j < i && self.entries@[j].value.is_some() ==> exists|a: int| 0 <= a < out@.len() && #[trigger] out@[a].0@ == self.key_at(j),
            decreases self.entries@.len() - i,
        {
            let e = &self.entries[i];
            match &e.value {
                Some(v) => {
                    let ghost before = out@;
                    out.push((copy_bytes(&e.key), copy_bytes(v)));
                    proof {
                        assert forall|a: int| 0 <= a < before.len() implies #[trigger] out@[a] == before[a] by {}
                        assert forall|a: int, j: int| 0 <= a < out@.len() && i + 1 <= j < self.entries@.len() implies key_lt(#[trigger] out@[a].0@, #[trigger] self.key_at(j)) by {
                            if a < before.len() {
                                assert(key_lt(before[a].0@, self.key_at(j)));
                            } else {
                                assert(key_lt(self.key_at(i as int), self.key_at(j)));
                            }
                        }
                        assert forall|j: int| 0 <= j < i + 1 && self.entries@[j].value.is_some() implies exists|a: int| 0 <= a < out@.len() && #[trigger] out@[a].0@ == self.key_at(j) by {
                            if j < i {
                                let w = choose|a: int| 0 <= a < before.len() && #[trigger] before[a].0@ == self.key_at(j);
                                assert(out@[w].0@ == self.key_at(j));
                            } else {
                                assert(out@[before.len() as int].0@ == self.key_at(j));
                            }
                        }
                    }
                },
                None => {
                    proof {
                        assert forall|a: int, j: int| 0 <= a < out@.len() && i + 1 <= j < self.entries@.len() implies key_lt(#[trigger] out@[a].0@, #[trigger] self.key_at(j)) by {
                            assert(key_lt(out@[a].0@, self.key_at(j)));
                        }
                    }
                },
            }
            i = i + 1;
        }
        proof {
            let s = pairs_view(out@);
            assert forall|a: int| 0 <= a < s.len() implies #[trigger] s[a] == (out@[a].0@, out@[a].1@) by {}
            assert forall|a: int, b: int| 0 <= a < b < s.len() implies key_lt(s[a].0, s[b].0) by {
                assert(key_lt(out@[a].0@, out@[b].0@));
            }
            assert forall|k: Seq<u8>| self.live().contains_key(k) implies exists|a: int| 0 <= a < s.len() && #[trigger] s[a].0 == k by {
                let w = choose|j: int| 0 <= j < self.entries@.len() && #[trigger] self.key_at(j) == k;
                let a = choose|a: int| 0 <= a < out@.len() && #[trigger] out@[a].0@ == self.key_at(w);
                assert(s[a].0 == k);
            }
            assert forall|a: int| 0 <= a < s.len() implies self.live().contains_key(#[trigger] s[a].0) && self.live()[s[a].0] == s[a].1 by {
                assert(self.live().contains_key(out@[a].0@));
            }
        }
        out
    }

    /// Rebuilds the table into storage sized to its entries. Tombstones stay: they
    /// record when their keys were deleted, which commits check.
    pub fn compact(&mut self)
        requires
            old(self).wf(),
        ensures
            final(self).wf(),
            final(self).live() == old(self).live(),
            final(self).versions() == old(self).versions(),
    {
        let t = self.duplicate();
        *self = t;
    }
}

} // verus!
