//! Tables: rows of named metric values under a row index, and the history
//! that follows one column of each row.

use crate::history::History;
use crate::keyed::Keyed;
use crate::metric::MetricValue;
use crate::model;
use crate::record::{Entry, Record};
use vstd::prelude::*;

verus! {

/// The columns of one table row, by name.
pub type Row = Keyed<MetricValue>;

/// A table as the store hands it out: its identifier and its rows by row index.
#[derive(Debug)]
pub struct Table {
    pub id: String,
    pub rows: Keyed<Row>,
}

/// The row histories of a table as the store hands them out, by row index.
#[derive(Debug)]
pub struct TableHistory {
    pub id: String,
    pub rows: Keyed<History>,
}

impl Entry for Table {
    type Held = Keyed<Row>;

    open spec fn id(&self) -> Seq<char> {
        self.id@
    }

    open spec fn held(&self) -> Keyed<Row> {
        self.rows
    }

    fn entry(id: String, held: Keyed<Row>) -> (out: Self) {
        Table { id, rows: held }
    }
}

impl Entry for TableHistory {
    type Held = Keyed<History>;

    open spec fn id(&self) -> Seq<char> {
        self.id@
    }

    open spec fn held(&self) -> Keyed<History> {
        self.rows
    }

    fn entry(id: String, held: Keyed<History>) -> (out: Self) {
        TableHistory { id, rows: held }
    }
}

/// The counter in the tracked column of `row`, if the row has that column
/// and it holds a counter.
pub fn tracked_count(row: &Row) -> (count: Option<u64>)
    requires
        row.wf(),
    ensures
        count == model::tracked_count(row@),
{
    match row.get("reqs") {
        Some(MetricValue::Counter(n)) => Some(*n),
        _ => None,
    }
}

} // verus!
