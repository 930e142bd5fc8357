use vstd::prelude::*;
use crate::value::Value;

verus! {

/// The values of one row, one for each column of the result. `None` stands
/// where the row has no value for the column.
pub type RowValues = Vec<Option<Value>>;

/// What a list of strings holds.
pub open spec fn texts(strings: Seq<String>) -> Seq<Seq<char>> {
    strings.map_values(|text: String| text@)
}

/// What a list of rows holds.
pub open spec fn row_views(rows: Seq<RowValues>) -> Seq<Seq<Option<Value>>> {
    rows.map_values(|row: RowValues| row@)
}

/// What a list of records holds.
pub open spec fn record_views(records: Seq<Vec<Value>>) -> Seq<Seq<Value>> {
    records.map_values(|record: Vec<Value>| record@)
}

/// The rows that a query selected, with the names of their columns.
#[derive(Debug, PartialEq)]
pub struct RowResult {
    count: usize,
    columns: Vec<String>,
    rows: Vec<RowValues>,
}

impl RowResult {
    /// The names of the columns.
    pub closed spec fn column_names(&self) -> Seq<Seq<char>> {
        texts(self.columns@)
    }

    /// The rows.
    pub closed spec fn row_values(&self) -> Seq<Seq<Option<Value>>> {
        row_views(self.rows@)
    }

    /// The number of rows as it was recorded when the result was made.
    pub closed spec fn recorded_count(&self) -> usize {
        self.count
    }

    pub fn new(columns: Vec<String>, rows: Vec<RowValues>) -> (result: Self)
        ensures
            result.column_names() == texts(columns@),
            result.row_values() == row_views(rows@),
            result.recorded_count() == rows@.len(),
    {
        Self { count: rows.len(), columns, rows }
    }

    pub fn columns(&self) -> (columns: &Vec<String>)
        ensures
            texts(columns@) == self.column_names(),
    {
        &self.columns
    }

    pub fn rows(&self) -> (rows: &[RowValues])
        ensures
            row_views(rows@) == self.row_values(),
    {
        self.rows.as_slice()
    }

    pub fn count(&self) -> (count: &usize)
        ensures
            *count == self.recorded_count(),
    {
        &self.count
    }
}

} // verus!
