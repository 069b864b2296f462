//! The failures that storage operations report.
use vstd::prelude::*;

verus! {

#[derive(Debug, Clone, Copy, PartialEq, Eq, Structural)]
pub enum StoreError {
    /// The store could not be opened: a bad path, a bad setting, or a column
    /// listed twice.
    OpenError,
    /// The operation names a column that the store was not opened with.
    ColumnNotFoundError,
    /// The engine cannot take another write.
    IOError,
    /// A key or value is larger than the engine accepts.
    SerializationError,
    /// A transaction's commit found a key it used written by another commit
    /// since it began.
    ConflictError,
    /// A batch or commit failed as a whole; nothing of it was applied.
    ApplyFailure,
    /// The transaction has already committed, rolled back or conflicted.
    TransactionClosed,
}

} // verus!
