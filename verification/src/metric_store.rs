//! The metric store: scalar metrics, tables, and a bounded history of each.

use crate::clock::unix_millis;
use crate::history::{appended, History, MetricHistory, Sample, SampleValue};
use crate::keyed::{is_snapshot, Keyed};
use crate::metric::{Metric, MetricValue};
use crate::model::{
    history_after, history_of, lemma_add_table_row_valid, lemma_increment_counter_valid,
    lemma_set_gauge_valid, rows_in, StoreState,
};
use crate::record::{ids, views, Record};
use crate::registry::{snapshot, Registry};
use crate::table::{tracked_count, Row, Table, TableHistory};
use vstd::prelude::*;

verus! {

/// Appends `sample` to the history under `key`, which begins empty where
/// there was none.
fn record_sample(histories: &mut Registry<History>, key: &str, sample: Sample)
    requires
        old(histories).wf(),
    ensures
        final(histories).wf(),
        final(histories)@ == old(histories)@.insert(
            key@,
            appended(history_of(old(histories)@, key@), sample),
        ),
{
    match histories.find(key) {
        Some(i) => {
            histories.value_mut(i).append(sample);
        },
        None => {
            let mut history = History::new();
            history.append(sample);
            histories.add(key, history);
        },
    }
}

/// The position of the table `table_id`, which begins without rows where
/// it did not exist.
fn table_slot<V: Record>(tables: &mut Registry<Keyed<V>>, table_id: &str) -> (at: usize)
    requires
        old(tables).wf(),
    ensures
        final(tables).wf(),
        at < final(tables).entries().keys().len(),
        final(tables).entries().keys()[at as int] == table_id@,
        final(tables)@ == old(tables)@.insert(table_id@, rows_in(old(tables)@, table_id@)),
{
    match tables.find(table_id) {
        Some(at) => at,
        None => tables.add(table_id, Keyed::new()),
    }
}

/// Puts `row_data` in the place of the row `row_index` of the table `table_id`.
fn write_row(tables: &mut Registry<Keyed<Row>>, table_id: &str, row_index: &str, row_data: Row)
    requires
        old(tables).wf(),
        row_data.wf(),
    ensures
        final(tables).wf(),
        final(tables)@ == old(tables)@.insert(
            table_id@,
            rows_in(old(tables)@, table_id@).insert(row_index@, row_data@),
        ),
{
    let t = table_slot(tables, table_id);
    tables.value_mut(t).insert(row_index, row_data);
}

/// Lets the history of the row `row_index` of the table `table_id` follow a
/// write of the row: with the tracked counter at `count`, or without it.
fn follow_row(
    histories: &mut Registry<Keyed<History>>,
    table_id: &str,
    row_index: &str,
    count: Option<u64>,
    now_ms: i64,
)
    requires
        old(histories).wf(),
    ensures
        final(histories).wf(),
        final(histories)@ == old(histories)@.insert(
            table_id@,
            rows_in(old(histories)@, table_id@).insert(
                row_index@,
                history_after(
                    history_of(rows_in(old(histories)@, table_id@), row_index@),
                    count,
                    now_ms,
                ),
            ),
        ),
{
    let h = table_slot(histories, table_id);
    record_row_sample(histories.value_mut(h), row_index, count, now_ms);
}

/// Gets or creates the history of `row` and, where the row was written
/// with the tracked counter at `count`, appends that count at time `now_ms`.
fn record_row_sample(histories: &mut Keyed<History>, row: &str, count: Option<u64>, now_ms: i64)
    requires
        old(histories).wf(),
    ensures
        final(histories).wf(),
        final(histories)@ == old(histories)@.insert(
            row@,
            history_after(history_of(old(histories)@, row@), count, now_ms),
        ),
{
    match histories.find(row) {
        Some(i) => {
            match count {
                Some(n) => {
                    histories.value_mut(i).append(
                        Sample { timestamp_ms: now_ms, value: SampleValue::Count(n) },
                    );
                },
                None => {},
            }
        },
        None => {
            let mut history = History::new();
            if let Some(n) = count {
                history.append(Sample { timestamp_ms: now_ms, value: SampleValue::Count(n) });
            }
            histories.push(row.to_owned(), history);
        },
    }
}

/// The aggregator: the latest value of every scalar metric and table row
/// written to it, and the recent samples of each series.
pub struct MetricStore {
    metrics: Registry<MetricValue>,
    metric_histories: Registry<History>,
    tables: Registry<Keyed<Row>>,
    table_histories: Registry<Keyed<History>>,
}

impl View for MetricStore {
    type V = StoreState;

    closed spec fn view(&self) -> StoreState {
        StoreState {
            metrics: self.metrics@,
            histories: self.metric_histories@,
            tables: self.tables@,
            table_histories: self.table_histories@,
        }
    }
}

impl MetricStore {
    /// The four collections are sound, and together they form a valid store.
    pub closed spec fn wf(&self) -> bool {
        &&& self.metrics.wf()
        &&& self.metric_histories.wf()
        &&& self.tables.wf()
        &&& self.table_histories.wf()
        &&& self@.valid()
    }

    /// Whatever was written to a store, every history has its metric or its
    /// table row, and none is longer than its capacity.
    pub proof fn lemma_valid(&self)
        requires
            self.wf(),
        ensures
            self@.valid(),
    {
    }

    /// A store that nothing was written to.
    pub fn new() -> (out: Self)
        ensures
            out.wf(),
            out@ == StoreState::empty(),
    {
        MetricStore {
            metrics: Registry::new(),
            metric_histories: Registry::new(),
            tables: Registry::new(),
            table_histories: Registry::new(),
        }
    }

    /// Adds `value` to the counter `key` at time `now_ms` and appends the new
    /// count to the key's history. A key that was never written starts at
    /// zero; the sum wraps as unsigned addition does. Where `key` holds a
    /// value of another kind, the store is left as it was.
    pub fn increment_counter_at(&mut self, key: &str, value: u64, now_ms: i64)
        requires
            old(self).wf(),
        ensures
            final(self).wf(),
            final(self)@ == old(self)@.increment_counter(key@, value, now_ms),
    {
        let sum: u64 = match self.metrics.find(key) {
            Some(i) => match self.metrics.value_at(i) {
                MetricValue::Counter(n) => {
                    let sum = n.wrapping_add(value);
                    self.metrics.replace(i, MetricValue::Counter(sum));
                    sum
                },
                _ => {
                    return ;
                },
            },
            None => {
                self.metrics.add(key, MetricValue::Counter(value));
                value
            },
        };
        record_sample(
            &mut self.metric_histories,
            key,
            Sample { timestamp_ms: now_ms, value: SampleValue::Count(sum) },
        );
        proof {
            lemma_increment_counter_valid(old(self)@, key@, value, now_ms);
        }
    }

    /// Adds `value` to the counter `key` now. The sample carries the time
    /// that the system clock shows.
    pub fn increment_counter(&mut self, key: &str, value: u64)
        requires
            old(self).wf(),
        ensures
            final(self).wf(),
            exists|now_ms: i64| final(self)@ == old(self)@.increment_counter(key@, value, now_ms),
    {
        let now_ms = unix_millis();
        self.increment_counter_at(key, value, now_ms);
    }

    /// Sets the gauge `key` to the reading `bits` at time `now_ms`, whatever
    /// `key` held before, and appends the reading to the key's history.
    pub fn set_gauge_at(&mut self, key: &str, bits: u64, now_ms: i64)
        requires
            old(self).wf(),
        ensures
            final(self).wf(),
            final(self)@ == old(self)@.set_gauge(key@, bits, now_ms),
    {
        match self.metrics.find(key) {
            Some(i) => {
                self.metrics.replace(i, MetricValue::Gauge(bits));
            },
            None => {
                self.metrics.add(key, MetricValue::Gauge(bits));
            },
        }
        record_sample(
            &mut self.metric_histories,
            key,
            Sample { timestamp_ms: now_ms, value: SampleValue::Gauge(bits) },
        );
        proof {
            lemma_set_gauge_valid(old(self)@, key@, bits, now_ms);
        }
    }

    /// Sets the gauge `key` to the reading `bits` now. The sample carries the
    /// time that the system clock shows.
    pub fn set_gauge(&mut self, key: &str, bits: u64)
        requires
            old(self).wf(),
        ensures
            final(self).wf(),
            exists|now_ms: i64| final(self)@ == old(self)@.set_gauge(key@, bits, now_ms),
    {
        let now_ms = unix_millis();
        self.set_gauge_at(key, bits, now_ms);
    }

    /// Writes the row `row_index` of the table `table_id` at time `now_ms`.
    /// The row becomes exactly `row_data`: columns of an earlier write that
    /// `row_data` does not repeat are gone. The row's history gains a sample
    /// if `row_data` has a counter in the tracked column, and is otherwise
    /// left as it was.
    pub fn add_table_row_at(&mut self, table_id: &str, row_index: &str, row_data: Row, now_ms: i64)
        requires
            old(self).wf(),
            row_data.wf(),
        ensures
            final(self).wf(),
            final(self)@ == old(self)@.add_table_row(table_id@, row_index@, row_data@, now_ms),
    {
        let count = tracked_count(&row_data);
        write_row(&mut self.tables, table_id, row_index, row_data);
        follow_row(&mut self.table_histories, table_id, row_index, count, now_ms);
        proof {
            lemma_add_table_row_valid(old(self)@, table_id@, row_index@, row_data@, now_ms);
        }
    }

    /// Writes the row `row_index` of the table `table_id` now. A sample, if
    /// one is recorded, carries the time that the system clock shows.
    pub fn add_table_row(&mut self, table_id: &str, row_index: &str, row_data: Row)
        requires
            old(self).wf(),
            row_data.wf(),
        ensures
            final(self).wf(),
            exists|now_ms: i64|
                final(self)@ == old(self)@.add_table_row(table_id@, row_index@, row_data@, now_ms),
    {
        let now_ms = unix_millis();
        self.add_table_row_at(table_id, row_index, row_data, now_ms);
    }

    /// The metric under `name`, or `None` if it was never written.
    pub fn get(&self, name: &str) -> (found: Option<Metric>)
        requires
            self.wf(),
        ensures
            match found {
                Some(metric) => self@.metrics.dom().contains(name@) && metric.key@ == name@
                    && metric.value@ == self@.metrics[name@],
                None => !self@.metrics.dom().contains(name@),
            },
    {
        match self.metrics.find(name) {
            Some(i) => Some(
                Metric { key: name.to_owned(), value: self.metrics.value_at(i).duplicate() },
            ),
            None => None,
        }
    }

    /// Every scalar metric with its current value, each once.
    pub fn get_all(&self) -> (out: Vec<Metric>)
        requires
            self.wf(),
        ensures
            is_snapshot(ids(out@), views(out@), self@.metrics),
    {
        snapshot(&self.metrics)
    }

    /// Every table with its rows, each once.
    pub fn get_tables(&self) -> (out: Vec<Table>)
        requires
            self.wf(),
        ensures
            is_snapshot(ids(out@), views(out@), self@.tables),
            forall|i: int| 0 <= i < out@.len() ==> (#[trigger] out@[i]).rows.wf(),
    {
        snapshot(&self.tables)
    }

    /// Every scalar history and every table's row histories, each once.
    pub fn get_histories(&self) -> (out: (Vec<MetricHistory>, Vec<TableHistory>))
        requires
            self.wf(),
        ensures
            is_snapshot(ids(out.0@), views(out.0@), self@.histories),
            forall|i: int| 0 <= i < out.0@.len() ==> (#[trigger] out.0@[i]).samples.wf(),
            is_snapshot(ids(out.1@), views(out.1@), self@.table_histories),
            forall|i: int| 0 <= i < out.1@.len() ==> (#[trigger] out.1@[i]).rows.wf(),
    {
        (snapshot(&self.metric_histories), snapshot(&self.table_histories))
    }
}

} // verus!
