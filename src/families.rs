//! The column families of a store or of a frozen view of it: one table per
//! configured column.
use vstd::prelude::*;
use crate::column::Column;
use crate::table::{enumerates, opt_view, pairs_view, write_map, KeyMap, Table};

verus! {

/// Whether `c` occurs in `columns`.
pub fn lists(columns: &[Column], c: Column) -> (r: bool)
    ensures
        r == columns@.contains(c),
{
    let mut i: usize = 0;
    while i < columns.len()
        invariant
            i <= columns@.len(),
            forall|j: int| 0 <= j < i ==> columns@[j] != c,
        decreases columns@.len() - i,
    {
        if columns[i] == c {
            return true;
        }
        i = i + 1;
    }
    false
}

/// One table for each configured column, none for the others.
pub struct ColumnFamilies {
    header: Option<Table>,
    body: Option<Table>,
    transaction: Option<Table>,
}

impl ColumnFamilies {
    pub closed spec fn slot(&self, c: Column) -> Option<Table> {
        match c {
            Column::BlockHeader => self.header,
            Column::BlockBody => self.body,
            Column::Transaction => self.transaction,
        }
    }

    pub closed spec fn wf(&self) -> bool {
        &&& (self.header.is_some() ==> self.header.unwrap().wf())
        &&& (self.body.is_some() ==> self.body.unwrap().wf())
        &&& (self.transaction.is_some() ==> self.transaction.unwrap().wf())
    }

    /// The contents of each configured column.
    pub closed spec fn view(&self) -> Map<Column, KeyMap> {
        Map::new(|c: Column| self.slot(c).is_some(), |c: Column| self.slot(c).unwrap().live())
    }

    /// When `k` was last written in column `c`, as far as the tables remember.
    pub closed spec fn version_of(&self, c: Column, k: Seq<u8>) -> u64 {
        self.slot(c).unwrap().version_of(k)
    }

    /// Empty tables for the listed columns.
    pub fn new(columns: &[Column]) -> (r: ColumnFamilies)
        ensures
            r.wf(),
            r@.dom() == Set::new(|c: Column| columns@.contains(c)),
            forall|c: Column| #[trigger] r@.contains_key(c) ==> r@[c] == KeyMap::empty(),
            forall|c: Column, k: Seq<u8>| r@.contains_key(c) ==> #[trigger] r.version_of(c, k) == 0,
    {
        let header = if lists(columns, Column::BlockHeader) { Some(Table::new()) } else { None };
        let body = if lists(columns, Column::BlockBody) { Some(Table::new()) } else { None };
        let transaction = if lists(columns, Column::Transaction) { Some(Table::new()) } else { None };
        let r = ColumnFamilies { header, body, transaction };
        proof {
            assert(r@.dom() =~= Set::new(|c: Column| columns@.contains(c)));
        }
        r
    }

    /// Whether column `c` is configured.
    pub fn contains(&self, c: Column) -> (r: bool)
        ensures
            r == self@.contains_key(c),
    {
        match c {
            Column::BlockHeader => self.header.is_some(),
            Column::BlockBody => self.body.is_some(),
            Column::Transaction => self.transaction.is_some(),
        }
    }

    fn table(&self, c: Column) -> (r: &Table)
        requires
            self@.contains_key(c),
        ensures
            Some(*r) == self.slot(c),
    {
        match c {
            Column::BlockHeader => self.header.as_ref().unwrap(),
            Column::BlockBody => self.body.as_ref().unwrap(),
            Column::Transaction => self.transaction.as_ref().unwrap(),
        }
    }

    /// The value stored under `key` in column `c`.
    pub fn get(&self, c: Column, key: &[u8]) -> (r: Option<Vec<u8>>)
        requires
            self.wf(),
            self@.contains_key(c),
        ensures
            opt_view(r) == self@[c].get(key@),
    {
        let r = self.table(c).get(key);
        proof {
            if r.is_some() {
                assert(self@[c].contains_key(key@));
            }
        }
        r
    }

    /// When `key` was last written in column `c`.
    pub fn version(&self, c: Column, key: &[u8]) -> (r: u64)
        requires
            self.wf(),
            self@.contains_key(c),
        ensures
            r == self.version_of(c, key@),
    {
        self.table(c).version(key)
    }

    /// The pairs of column `c`, in ascending key order.
    pub fn pairs(&self, c: Column) -> (r: Vec<(Vec<u8>, Vec<u8>)>)
        requires
            self.wf(),
            self@.contains_key(c),
        ensures
            enumerates(pairs_view(r@), self@[c]),
    {
        self.table(c).pairs()
    }

    /// Records a write of `key` in column `c` at sequence number `seq`.
    pub fn write(&mut self, c: Column, key: Vec<u8>, value: Option<Vec<u8>>, seq: u64)
        requires
            old(self).wf(),
            old(self)@.contains_key(c),
        ensures
            final(self).wf(),
            final(self)@ == old(self)@.insert(c, write_map(old(self)@[c], key@, opt_view(value))),
            forall|c2: Column, k2: Seq<u8>| #[trigger] final(self).version_of(c2, k2) == if c2 == c && k2 == key@ {
                seq
            } else {
                old(self).version_of(c2, k2)
            },
    {
        match c {
            Column::BlockHeader => match &mut self.header {
                Some(t) => t.write(key, value, seq),
                None => {},
            },
            Column::BlockBody => match &mut self.body {
                Some(t) => t.write(key, value, seq),
                None => {},
            },
            Column::Transaction => match &mut self.transaction {
                Some(t) => t.write(key, value, seq),
                None => {},
            },
        }
        proof {
            assert(self@ =~= old(self)@.insert(c, write_map(old(self)@[c], key@, opt_view(value))));
        }
    }

    /// An independent copy of every column.
    pub fn duplicate(&self) -> (r: ColumnFamilies)
        requires
            self.wf(),
        ensures
            r.wf(),
            r@ == self@,
            forall|c: Column, k: Seq<u8>| #[trigger] r.version_of(c, k) == self.version_of(c, k),
    {
        let header = match &self.header {
            Some(t) => Some(t.duplicate()),
            None => None,
        };
        let body = match &self.body {
            Some(t) => Some(t.duplicate()),
            None => None,
        };
        let transaction = match &self.transaction {
            Some(t) => Some(t.duplicate()),
            None => None,
        };
        let r = ColumnFamilies { header, body, transaction };
        proof {
            assert(r@ =~= self@);
        }
        r
    }

    /// Rebuilds every table into storage sized to its entries; contents and the
    /// record of when each key was last written stay as they were.
    pub fn compact(&mut self)
        requires
            old(self).wf(),
        ensures
            final(self).wf(),
            final(self)@ == old(self)@,
            forall|c: Column, k: Seq<u8>| #[trigger] final(self).version_of(c, k) == old(self).version_of(c, k),
    {
        match &mut self.header {
            Some(t) => t.compact(),
            None => {},
        }
        match &mut self.body {
            Some(t) => t.compact(),
            None => {},
        }
        match &mut self.transaction {
            Some(t) => t.compact(),
            None => {},
        }
        proof {
            assert(self@ =~= old(self)@);
        }
    }
}

} // verus!
