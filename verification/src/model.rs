//! The store as mathematics: four maps, the three writes as functions on
//! them, and what holds of every store that the writes can reach.

use crate::history::{
    appended, appended_all, keep_recent, lemma_appended_all_keeps_recent,
    lemma_keep_recent_absorbs, Sample, SampleValue, HISTORY_CAPACITY,
};
use crate::metric::MetricValueView;
use vstd::prelude::*;

verus! {

/// The columns of one table row, by name.
pub type RowView = Map<Seq<char>, MetricValueView>;

/// The column whose counter a table row's history follows.
pub open spec fn tracked_column() -> Seq<char> {
    "reqs"@
}

/// `n` reduced to the range of a counter, as unsigned addition wraps.
pub open spec fn wrapped(n: int) -> u64 {
    (n % 0x1_0000_0000_0000_0000) as u64
}

/// The sum of `deltas`.
pub open spec fn total(deltas: Seq<u64>) -> int
    decreases deltas.len(),
{
    if deltas.len() == 0 {
        0
    } else {
        deltas.first() + total(deltas.drop_first())
    }
}

/// The history under `name`, or the empty history where there is none yet.
pub open spec fn history_of(histories: Map<Seq<char>, Seq<Sample>>, name: Seq<char>) -> Seq<
    Sample,
> {
    if histories.dom().contains(name) {
        histories[name]
    } else {
        Seq::empty()
    }
}

/// What `tables` holds under `table`, or nothing where the table does not exist yet.
pub open spec fn rows_in<T>(tables: Map<Seq<char>, Map<Seq<char>, T>>, table: Seq<char>) -> Map<
    Seq<char>,
    T,
> {
    if tables.dom().contains(table) {
        tables[table]
    } else {
        Map::empty()
    }
}

/// The counter that a row's history follows, if the row has one.
pub open spec fn tracked_count(columns: RowView) -> Option<u64> {
    if columns.dom().contains(tracked_column()) {
        match columns[tracked_column()] {
            MetricValueView::Counter(n) => Some(n),
            _ => None,
        }
    } else {
        None
    }
}

/// A row's history after a write of the row at time `now`: one more sample
/// if the row was written with the tracked counter at `count`, and unchanged
/// if it was written without.
pub open spec fn history_after(before: Seq<Sample>, count: Option<u64>, now: i64) -> Seq<Sample> {
    match count {
        Some(n) => appended(before, Sample { timestamp_ms: now, value: SampleValue::Count(n) }),
        None => before,
    }
}

/// Everything a store holds.
pub struct StoreState {
    /// The current value of each scalar metric.
    pub metrics: Map<Seq<char>, MetricValueView>,
    /// The recent samples of each scalar metric, oldest first.
    pub histories: Map<Seq<char>, Seq<Sample>>,
    /// The rows of each table, by row index.
    pub tables: Map<Seq<char>, Map<Seq<char>, RowView>>,
    /// The recent samples of the tracked column of each table row.
    pub table_histories: Map<Seq<char>, Map<Seq<char>, Seq<Sample>>>,
}

impl StoreState {
    /// The store that nothing was written to.
    pub open spec fn empty() -> StoreState {
        StoreState {
            metrics: Map::empty(),
            histories: Map::empty(),
            tables: Map::empty(),
            table_histories: Map::empty(),
        }
    }

    /// What every reachable store satisfies: a history exists only for what
    /// was written, and no history is longer than its capacity.
    pub open spec fn valid(self) -> bool {
        &&& self.metrics.dom().finite()
        &&& self.histories.dom().finite()
        &&& self.tables.dom().finite()
        &&& self.table_histories.dom().finite()
        &&& forall|key: Seq<char>| #[trigger]
            self.histories.dom().contains(key) ==> self.metrics.dom().contains(key)
                && self.histories[key].len() <= HISTORY_CAPACITY
        &&& forall|table: Seq<char>| #[trigger]
            self.table_histories.dom().contains(table) ==> self.tables.dom().contains(table)
        &&& forall|table: Seq<char>, row: Seq<char>|
            self.table_histories.dom().contains(table)
                && #[trigger] self.table_histories[table].dom().contains(row)
                ==> self.tables[table].dom().contains(row)
                && self.table_histories[table][row].len() <= HISTORY_CAPACITY
    }

    /// The counter that an increment of `key` starts from: zero where `key`
    /// is new, and nothing where `key` holds a value of another kind.
    pub open spec fn counter_before(self, key: Seq<char>) -> Option<u64> {
        if self.metrics.dom().contains(key) {
            match self.metrics[key] {
                MetricValueView::Counter(n) => Some(n),
                _ => None,
            }
        } else {
            Some(0)
        }
    }

    /// The store after `delta` was added to the counter `key` at time `now`.
    /// Where `key` holds a value of another kind, nothing changes.
    pub open spec fn increment_counter(self, key: Seq<char>, delta: u64, now: i64) -> StoreState {
        match self.counter_before(key) {
            Some(n) => {
                let sum = wrapped(n + delta);
                let sample = Sample { timestamp_ms: now, value: SampleValue::Count(sum) };
                StoreState {
                    metrics: self.metrics.insert(key, MetricValueView::Counter(sum)),
                    histories: self.histories.insert(
                        key,
                        appended(history_of(self.histories, key), sample),
                    ),
                    ..self
                }
            },
            None => self,
        }
    }

    /// The store after the gauge `key` was set to the reading `bits` at time
    /// `now`, whatever `key` held before.
    pub open spec fn set_gauge(self, key: Seq<char>, bits: u64, now: i64) -> StoreState {
        let sample = Sample { timestamp_ms: now, value: SampleValue::Gauge(bits) };
        StoreState {
            metrics: self.metrics.insert(key, MetricValueView::Gauge(bits)),
            histories: self.histories.insert(
                key,
                appended(history_of(self.histories, key), sample),
            ),
            ..self
        }
    }

    /// The rows of `table`, or none where the table does not exist yet.
    pub open spec fn rows_of(self, table: Seq<char>) -> Map<Seq<char>, RowView> {
        rows_in(self.tables, table)
    }

    /// The row histories of `table`, or none where there are none yet.
    pub open spec fn row_histories_of(self, table: Seq<char>) -> Map<Seq<char>, Seq<Sample>> {
        rows_in(self.table_histories, table)
    }

    /// The store after the row `row` of `table` was written at time `now`:
    /// the row is exactly `columns`, and its history follows the tracked
    /// counter.
    pub open spec fn add_table_row(
        self,
        table: Seq<char>,
        row: Seq<char>,
        columns: RowView,
        now: i64,
    ) -> StoreState {
        let histories = self.row_histories_of(table);
        StoreState {
            tables: self.tables.insert(table, self.rows_of(table).insert(row, columns)),
            table_histories: self.table_histories.insert(
                table,
                histories.insert(
                    row,
                    history_after(history_of(histories, row), tracked_count(columns), now),
                ),
            ),
            ..self
        }
    }

    /// The store after each of `deltas` was added to the counter `key`, the
    /// i-th at time `times[i]`.
    pub open spec fn increment_counter_each(
        self,
        key: Seq<char>,
        deltas: Seq<u64>,
        times: Seq<i64>,
    ) -> StoreState
        decreases deltas.len(),
    {
        if deltas.len() == 0 {
            self
        } else {
            self.increment_counter(key, deltas.first(), times.first()).increment_counter_each(
                key,
                deltas.drop_first(),
                times.drop_first(),
            )
        }
    }

    /// The store after the gauge `key` was set to `bits` once at each of `times`.
    pub open spec fn set_gauge_each(self, key: Seq<char>, bits: u64, times: Seq<i64>) -> StoreState
        decreases times.len(),
    {
        if times.len() == 0 {
            self
        } else {
            self.set_gauge(key, bits, times.first()).set_gauge_each(key, bits, times.drop_first())
        }
    }
}

/// What has a history: a scalar metric, or a row of a table.
pub enum Series {
    /// The scalar metric `key`.
    Scalar { key: Seq<char> },
    /// The row `row` of `table`.
    Row { table: Seq<char>, row: Seq<char> },
}

/// One write to a store.
pub enum Write {
    /// `delta` is added to the counter `key` at time `now`.
    Increment { key: Seq<char>, delta: u64, now: i64 },
    /// The gauge `key` is set to the reading `bits` at time `now`.
    SetGauge { key: Seq<char>, bits: u64, now: i64 },
    /// The row `row` of `table` is written as `columns` at time `now`.
    AddRow { table: Seq<char>, row: Seq<char>, columns: RowView, now: i64 },
}

impl StoreState {
    /// The store after the write `w`.
    pub open spec fn apply(self, w: Write) -> StoreState {
        match w {
            Write::Increment { key, delta, now } => self.increment_counter(key, delta, now),
            Write::SetGauge { key, bits, now } => self.set_gauge(key, bits, now),
            Write::AddRow { table, row, columns, now } => self.add_table_row(
                table,
                row,
                columns,
                now,
            ),
        }
    }

    /// The store after the writes `ws`, in their order.
    pub open spec fn apply_all(self, ws: Seq<Write>) -> StoreState
        decreases ws.len(),
    {
        if ws.len() == 0 {
            self
        } else {
            self.apply(ws.first()).apply_all(ws.drop_first())
        }
    }

    /// The history of `series`, or the empty history where there is none yet.
    pub open spec fn history(self, series: Series) -> Seq<Sample> {
        match series {
            Series::Scalar { key } => history_of(self.histories, key),
            Series::Row { table, row } => history_of(self.row_histories_of(table), row),
        }
    }

    /// The samples that the write `w` appends to the history of `series`:
    /// one, or none.
    pub open spec fn samples_of(self, w: Write, series: Series) -> Seq<Sample> {
        match (w, series) {
            (Write::Increment { key: to, delta, now }, Series::Scalar { key }) => {
                match self.counter_before(key) {
                    Some(n) if to == key => seq![
                        Sample { timestamp_ms: now, value: SampleValue::Count(wrapped(n + delta)) },
                    ],
                    _ => seq![],
                }
            },
            (Write::SetGauge { key: to, bits, now }, Series::Scalar { key }) => if to == key {
                seq![Sample { timestamp_ms: now, value: SampleValue::Gauge(bits) }]
            } else {
                seq![]
            },
            (
                Write::AddRow { table: to_table, row: to_row, columns, now },
                Series::Row { table, row },
            ) => match tracked_count(columns) {
                Some(n) if to_table == table && to_row == row => seq![
                    Sample { timestamp_ms: now, value: SampleValue::Count(n) },
                ],
                _ => seq![],
            },
            _ => seq![],
        }
    }

    /// The samples that the writes `ws` append to the history of `series`,
    /// in the order written.
    pub open spec fn samples(self, ws: Seq<Write>, series: Series) -> Seq<Sample>
        decreases ws.len(),
    {
        if ws.len() == 0 {
            seq![]
        } else {
            self.samples_of(ws.first(), series) + self.apply(ws.first()).samples(
                ws.drop_first(),
                series,
            )
        }
    }
}

/// Every store that writes can reach from a valid store is valid: each
/// history has its metric or its table row, and none exceeds its capacity.
pub proof fn lemma_writes_keep_valid(s: StoreState, ws: Seq<Write>)
    requires
        s.valid(),
    ensures
        s.apply_all(ws).valid(),
    decreases ws.len(),
{
    if ws.len() > 0 {
        lemma_write_keeps_valid(s, ws.first());
        lemma_writes_keep_valid(s.apply(ws.first()), ws.drop_first());
    }
}

/// One write keeps a valid store valid.
pub proof fn lemma_write_keeps_valid(s: StoreState, w: Write)
    requires
        s.valid(),
    ensures
        s.apply(w).valid(),
{
    match w {
        Write::Increment { key, delta, now } => lemma_increment_counter_valid(s, key, delta, now),
        Write::SetGauge { key, bits, now } => lemma_set_gauge_valid(s, key, bits, now),
        Write::AddRow { table, row, columns, now } => lemma_add_table_row_valid(
            s,
            table,
            row,
            columns,
            now,
        ),
    }
}

/// Whatever is written to a store, and however much, the history of each
/// series is exactly the most recent `HISTORY_CAPACITY` of the samples
/// written to it, in the order in which they were written.
pub proof fn lemma_history_is_most_recent(s: StoreState, ws: Seq<Write>, series: Series)
    requires
        s.valid(),
    ensures
        s.apply_all(ws).history(series) == keep_recent(s.history(series) + s.samples(ws, series)),
        s.apply_all(ws).history(series).len() <= HISTORY_CAPACITY,
    decreases ws.len(),
{
    let before = s.history(series);
    if ws.len() == 0 {
        assert(before + s.samples(ws, series) =~= before);
    } else {
        let next = s.apply(ws.first());
        let written = s.samples_of(ws.first(), series);
        let rest = next.samples(ws.drop_first(), series);
        lemma_write_keeps_valid(s, ws.first());
        lemma_history_is_most_recent(next, ws.drop_first(), series);
        assert(next.history(series) == keep_recent(before + written)) by {
            if written.len() == 0 {
                assert(before + written =~= before);
            } else {
                assert(before + written =~= before.push(written[0]));
            }
        }
        lemma_keep_recent_absorbs(before + written, rest);
        assert((before + written) + rest =~= before + (written + rest));
    }
}

/// The samples that setting a gauge to `bits` at each of `times` records.
pub open spec fn gauge_samples(bits: u64, times: Seq<i64>) -> Seq<Sample> {
    Seq::new(
        times.len(),
        |i: int| Sample { timestamp_ms: times[i], value: SampleValue::Gauge(bits) },
    )
}

/// The empty store is valid.
pub proof fn lemma_empty_valid()
    ensures
        StoreState::empty().valid(),
{
}

/// An increment keeps a valid store valid.
pub proof fn lemma_increment_counter_valid(s: StoreState, key: Seq<char>, delta: u64, now: i64)
    requires
        s.valid(),
    ensures
        s.increment_counter(key, delta, now).valid(),
{
}

/// Setting a gauge keeps a valid store valid.
pub proof fn lemma_set_gauge_valid(s: StoreState, key: Seq<char>, bits: u64, now: i64)
    requires
        s.valid(),
    ensures
        s.set_gauge(key, bits, now).valid(),
{
}

/// Writing a table row keeps a valid store valid.
pub proof fn lemma_add_table_row_valid(
    s: StoreState,
    table: Seq<char>,
    row: Seq<char>,
    columns: RowView,
    now: i64,
)
    requires
        s.valid(),
    ensures
        s.add_table_row(table, row, columns, now).valid(),
{
}

/// Wrapping a partial sum early does not change the wrapped total.
pub proof fn lemma_wrapped_absorbs(n: int, delta: int)
    ensures
        wrapped(wrapped(n) + delta) == wrapped(n + delta),
{
}

/// After any sequence of increments of a key that held the counter `start`
/// (zero for a key that was never written), the key holds the counter
/// `start` plus the sum of all the deltas, reduced as unsigned addition wraps.
pub proof fn lemma_increments_add_up(
    s: StoreState,
    key: Seq<char>,
    deltas: Seq<u64>,
    times: Seq<i64>,
    start: u64,
)
    requires
        s.counter_before(key) == Some(start),
        deltas.len() == times.len(),
    ensures
        deltas.len() > 0 ==> s.increment_counter_each(key, deltas, times).metrics.dom().contains(
            key,
        ),
        s.increment_counter_each(key, deltas, times).counter_before(key) == Some(
            wrapped(start + total(deltas)),
        ),
    decreases deltas.len(),
{
    if deltas.len() > 0 {
        let next = s.increment_counter(key, deltas.first(), times.first());
        let sum = wrapped(start + deltas.first());
        assert(next.counter_before(key) == Some(sum));
        lemma_increments_add_up(next, key, deltas.drop_first(), times.drop_first(), sum);
        lemma_wrapped_absorbs(start + deltas.first(), total(deltas.drop_first()));
        if deltas.len() == 1 {
            assert(deltas.drop_first().len() == 0);
        }
    }
}

/// On a key that was never written, any sequence of increments leaves the
/// counter at the sum of the deltas, reduced as unsigned addition wraps.
pub proof fn lemma_increments_on_fresh_key(
    s: StoreState,
    key: Seq<char>,
    deltas: Seq<u64>,
    times: Seq<i64>,
)
    requires
        !s.metrics.dom().contains(key),
        deltas.len() == times.len(),
        deltas.len() > 0,
    ensures
        s.increment_counter_each(key, deltas, times).metrics.dom().contains(key),
        s.increment_counter_each(key, deltas, times).metrics[key] == MetricValueView::Counter(
            wrapped(total(deltas)),
        ),
{
    lemma_increments_add_up(s, key, deltas, times, 0);
}

/// `n` increments by one, in whatever order their callers took their turns,
/// leave a counter that was never written before at exactly `n`: no update
/// is lost.
pub proof fn lemma_unit_increments_count(s: StoreState, key: Seq<char>, times: Seq<i64>)
    requires
        !s.metrics.dom().contains(key),
        0 < times.len() <= u64::MAX,
    ensures
        s.increment_counter_each(
            key,
            Seq::new(times.len(), |i: int| 1u64),
            times,
        ).metrics[key] == MetricValueView::Counter(times.len() as u64),
{
    let ones = Seq::new(times.len(), |i: int| 1u64);
    lemma_total_of_ones(times.len());
    lemma_increments_on_fresh_key(s, key, ones, times);
}

/// `n` ones add up to `n`.
proof fn lemma_total_of_ones(n: nat)
    ensures
        total(Seq::new(n, |i: int| 1u64)) == n,
    decreases n,
{
    if n > 0 {
        lemma_total_of_ones((n - 1) as nat);
        assert(Seq::new(n, |i: int| 1u64).drop_first() =~= Seq::new((n - 1) as nat, |i: int| 1u64));
    }
}

/// No write forgets anything: whatever had an entry before a write has one after it.
pub proof fn lemma_writes_keep_entries(
    s: StoreState,
    key: Seq<char>,
    delta: u64,
    bits: u64,
    row: Seq<char>,
    columns: RowView,
    now: i64,
)
    ensures
        s.metrics.dom().subset_of(s.increment_counter(key, delta, now).metrics.dom()),
        s.histories.dom().subset_of(s.increment_counter(key, delta, now).histories.dom()),
        s.metrics.dom().subset_of(s.set_gauge(key, bits, now).metrics.dom()),
        s.histories.dom().subset_of(s.set_gauge(key, bits, now).histories.dom()),
        s.tables.dom().subset_of(s.add_table_row(key, row, columns, now).tables.dom()),
        s.table_histories.dom().subset_of(
            s.add_table_row(key, row, columns, now).table_histories.dom(),
        ),
        forall|table: Seq<char>| #[trigger]
            s.tables.dom().contains(table) ==> s.tables[table].dom().subset_of(
                s.add_table_row(key, row, columns, now).tables[table].dom(),
            ),
{
}

/// Setting a gauge to the same reading again and again leaves that reading
/// as the key's value, and the key's history is what it was with one sample
/// per call appended: the most recent `HISTORY_CAPACITY` of them all, in the
/// order written. Until the capacity is reached, the history grows by one
/// sample per call.
pub proof fn lemma_set_gauge_repeated(s: StoreState, key: Seq<char>, bits: u64, times: Seq<i64>)
    requires
        s.valid(),
        times.len() > 0,
    ensures
        s.set_gauge_each(key, bits, times).metrics.dom().contains(key),
        s.set_gauge_each(key, bits, times).metrics[key] == MetricValueView::Gauge(bits),
        s.set_gauge_each(key, bits, times).histories.dom().contains(key),
        s.set_gauge_each(key, bits, times).histories[key] == keep_recent(
            history_of(s.histories, key) + gauge_samples(bits, times),
        ),
        history_of(s.histories, key).len() + times.len() <= HISTORY_CAPACITY ==> s.set_gauge_each(
            key,
            bits,
            times,
        ).histories[key].len() == history_of(s.histories, key).len() + times.len(),
    decreases times.len(),
{
    let before = history_of(s.histories, key);
    let samples = gauge_samples(bits, times);
    lemma_set_gauge_appends(s, key, bits, times);
    lemma_appended_all_keeps_recent(before, samples);
}

/// Repeated writes of a gauge append their samples to the key's history one by one.
proof fn lemma_set_gauge_appends(s: StoreState, key: Seq<char>, bits: u64, times: Seq<i64>)
    requires
        times.len() > 0,
    ensures
        s.set_gauge_each(key, bits, times).metrics.dom().contains(key),
        s.set_gauge_each(key, bits, times).metrics[key] == MetricValueView::Gauge(bits),
        s.set_gauge_each(key, bits, times).histories.dom().contains(key),
        s.set_gauge_each(key, bits, times).histories[key] == appended_all(
            history_of(s.histories, key),
            gauge_samples(bits, times),
        ),
    decreases times.len(),
{
    let next = s.set_gauge(key, bits, times.first());
    let samples = gauge_samples(bits, times);
    assert(samples.drop_first() =~= gauge_samples(bits, times.drop_first()));
    assert(samples.first() == Sample {
        timestamp_ms: times.first(),
        value: SampleValue::Gauge(bits),
    });
    if times.len() == 1 {
        assert(times.drop_first().len() == 0);
        assert(next.set_gauge_each(key, bits, times.drop_first()) == next);
        assert(appended_all(next.histories[key], samples.drop_first()) == next.histories[key]);
    } else {
        lemma_set_gauge_appends(next, key, bits, times.drop_first());
    }
}

/// Writing a row again replaces it whole: the row is exactly the columns of
/// the last write, and a column that only the earlier write had is gone.
pub proof fn lemma_row_replaced(
    s: StoreState,
    table: Seq<char>,
    row: Seq<char>,
    first: RowView,
    first_time: i64,
    second: RowView,
    second_time: i64,
)
    ensures
        ({
            let after = s.add_table_row(table, row, first, first_time).add_table_row(
                table,
                row,
                second,
                second_time,
            );
            &&& after.tables.dom().contains(table)
            &&& after.tables[table].dom().contains(row)
            &&& after.tables[table][row] == second
            &&& forall|column: Seq<char>|
                first.dom().contains(column) && !second.dom().contains(column)
                    ==> !after.tables[table][row].dom().contains(column)
        }),
{
}

/// A write of a row without the tracked counter leaves the row's history as it was.
pub proof fn lemma_untracked_row_keeps_history(
    s: StoreState,
    table: Seq<char>,
    row: Seq<char>,
    columns: RowView,
    now: i64,
)
    requires
        tracked_count(columns) is None,
    ensures
        ({
            let after = s.add_table_row(table, row, columns, now);
            &&& after.table_histories.dom().contains(table)
            &&& after.table_histories[table].dom().contains(row)
            &&& after.table_histories[table][row] == history_of(s.row_histories_of(table), row)
        }),
{
}

} // verus!
