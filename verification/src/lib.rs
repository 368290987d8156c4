//! An in-process store of telemetry.
//!
//! Instrumented code writes counters, gauges and table rows under
//! identifiers. The store keeps the latest value of each and a bounded
//! history of its recent samples, and hands out copies of both for export
//! and for charts.
//!
//! An identifier is a string, and two identifiers are the same when they are
//! the same sequence of characters. A gauge reading is carried as the bit
//! pattern of an IEEE 754 double, so that it leaves the store exactly as it
//! came. Every write takes the store by exclusive reference: the writes to a
//! store form one sequence, and each is complete when its call returns.
//!
//! [`model`] states what the store holds and what each write does to it as
//! plain mathematics, together with what follows for every sequence of
//! writes; [`metric_store`] is the store itself, whose contracts speak of
//! that model.

mod clock;
pub mod history;
pub mod keyed;
pub mod metric;
pub mod metric_store;
pub mod model;
pub mod record;
pub mod registry;
pub mod table;

pub use history::{History, MetricHistory, Sample, SampleValue, HISTORY_CAPACITY};
pub use keyed::Keyed;
pub use metric::{Metric, MetricKind, MetricValue};
pub use metric_store::MetricStore;
pub use record::{Entry, Record};
pub use table::{tracked_count, Row, Table, TableHistory};
