//! The closed set of column tags, each naming one disjoint keyspace.
use vstd::prelude::*;

verus! {

/// A column: a keyspace of its own, so that equal keys in two columns are unrelated.
#[derive(Debug, Clone, Copy, PartialEq, Eq, Hash, Structural)]
pub enum Column {
    BlockHeader,
    BlockBody,
    Transaction,
}

impl Column {
    /// The column's name.
    pub open spec fn name(self) -> Seq<char> {
        match self {
            Column::BlockHeader => "BlockHeader"@,
            Column::BlockBody => "BlockBody"@,
            Column::Transaction => "Transaction"@,
        }
    }

    /// Whether `column_type` is this column's name.
    pub fn is_type(&self, column_type: &str) -> (r: bool)
        ensures
            r == (column_type@ == self.name()),
    {
        let given = column_type.to_owned();
        let own = self.to_string();
        given == own
    }

    /// The column's name as an owned string.
    pub fn to_string(&self) -> (r: String)
        ensures
            r@ == self.name(),
    {
        proof {
            reveal_strlit("BlockHeader");
            reveal_strlit("BlockBody");
            reveal_strlit("Transaction");
        }
        match self {
            Column::BlockHeader => "BlockHeader".to_owned(),
            Column::BlockBody => "BlockBody".to_owned(),
            Column::Transaction => "Transaction".to_owned(),
        }
    }
}

} // verus!
