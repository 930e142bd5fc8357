use vstd::prelude::*;
use crate::row_result::RowResult;

verus! {

/// What a command that succeeded gives back.
#[derive(Debug, PartialEq)]
pub enum QueryResult {
    /// The message of a command that changed the catalog.
    CommandSuccessMessage(String),
    /// The number of rows that were inserted.
    InsertSuccess { count: usize },
    /// The rows that were selected.
    RowResult(RowResult),
}

} // verus!
