//! The bounded history of a series: the most recent samples, oldest first.

use crate::record::{Entry, Record};
use vstd::prelude::*;

verus! {

/// How many samples a history keeps.
pub const HISTORY_CAPACITY: usize = 100;

/// What was measured when a sample was taken.
#[derive(Clone, Copy, Debug, PartialEq, Eq)]
pub enum SampleValue {
    /// The value of a counter.
    Count(u64),
    /// A gauge reading, as the bits of a double.
    Gauge(u64),
}

/// One point of a series.
#[derive(Clone, Copy, Debug, PartialEq, Eq)]
pub struct Sample {
    /// Milliseconds since the Unix epoch.
    pub timestamp_ms: i64,
    pub value: SampleValue,
}

/// The most recent `HISTORY_CAPACITY` samples of `samples`, in their order.
pub open spec fn keep_recent(samples: Seq<Sample>) -> Seq<Sample> {
    if samples.len() <= HISTORY_CAPACITY {
        samples
    } else {
        samples.subrange(samples.len() - HISTORY_CAPACITY, samples.len() as int)
    }
}

/// A history after one more sample: the sample joins at the tail, and the
/// oldest sample leaves once the capacity is exceeded.
pub open spec fn appended(samples: Seq<Sample>, sample: Sample) -> Seq<Sample> {
    keep_recent(samples.push(sample))
}

/// A history after each sample of `more` was appended in turn.
pub open spec fn appended_all(samples: Seq<Sample>, more: Seq<Sample>) -> Seq<Sample>
    decreases more.len(),
{
    if more.len() == 0 {
        samples
    } else {
        appended_all(appended(samples, more.first()), more.drop_first())
    }
}

/// Trimming before more samples arrive changes nothing about what is kept in the end.
pub proof fn lemma_keep_recent_absorbs(earlier: Seq<Sample>, later: Seq<Sample>)
    ensures
        keep_recent(keep_recent(earlier) + later) == keep_recent(earlier + later),
{
    let trimmed = keep_recent(earlier);
    if earlier.len() > HISTORY_CAPACITY {
        let cut = earlier.len() - HISTORY_CAPACITY;
        assert(trimmed.len() == HISTORY_CAPACITY);
        assert((trimmed + later).len() == HISTORY_CAPACITY + later.len());
        assert((earlier + later).len() == earlier.len() + later.len());
        assert forall|i: int| 0 <= i < HISTORY_CAPACITY implies #[trigger] keep_recent(
            trimmed + later,
        )[i] == keep_recent(earlier + later)[i] by {
            let j = later.len() + i;
            assert(keep_recent(trimmed + later)[i] == (trimmed + later)[j]);
            assert(keep_recent(earlier + later)[i] == (earlier + later)[cut + j]);
            if j < HISTORY_CAPACITY {
                assert((trimmed + later)[j] == trimmed[j]);
                assert(trimmed[j] == earlier[cut + j]);
            } else {
                assert((trimmed + later)[j] == later[j - HISTORY_CAPACITY]);
            }
        }
        assert(keep_recent(trimmed + later) =~= keep_recent(earlier + later));
    }
}

/// However many samples are appended to a history, what is kept is exactly
/// the most recent `HISTORY_CAPACITY` of all of them, in the order in which
/// they were written.
pub proof fn lemma_appended_all_keeps_recent(samples: Seq<Sample>, more: Seq<Sample>)
    requires
        samples.len() <= HISTORY_CAPACITY,
    ensures
        appended_all(samples, more) == keep_recent(samples + more),
        appended_all(samples, more).len() <= HISTORY_CAPACITY,
        appended_all(samples, more).len() == if samples.len() + more.len() <= HISTORY_CAPACITY {
            samples.len() + more.len()
        } else {
            HISTORY_CAPACITY as nat
        },
    decreases more.len(),
{
    if more.len() == 0 {
        assert(samples + more =~= samples);
    } else {
        let next = appended(samples, more.first());
        lemma_appended_all_keeps_recent(next, more.drop_first());
        lemma_keep_recent_absorbs(samples.push(more.first()), more.drop_first());
        assert(samples.push(more.first()) + more.drop_first() =~= samples + more);
    }
}

/// A bounded, ordered buffer of samples. Appending is constant time: once the
/// buffer is full, the newest sample overwrites the oldest in place.
#[derive(Debug)]
pub struct History {
    slots: Vec<Sample>,
    head: usize,
}

impl View for History {
    type V = Seq<Sample>;

    /// The samples held, oldest first.
    closed spec fn view(&self) -> Seq<Sample> {
        Seq::new(
            self.slots@.len(),
            |i: int| self.slots@[slot_of(self.head as int, i, self.slots@.len() as int)],
        )
    }
}

/// Where the sample at position `i` from the oldest lies in a buffer of `len`
/// slots whose oldest sample lies at `head`.
spec fn slot_of(head: int, i: int, len: int) -> int {
    if head + i < len {
        head + i
    } else {
        head + i - len
    }
}

impl Record for History {
    /// The buffer's shape: it never outgrows its capacity, and it wraps only when full.
    closed spec fn wf(&self) -> bool {
        &&& self.slots@.len() <= HISTORY_CAPACITY
        &&& if self.slots@.len() < HISTORY_CAPACITY {
            self.head == 0
        } else {
            self.head < HISTORY_CAPACITY
        }
    }

    fn duplicate(&self) -> (out: Self) {
        self.clone()
    }
}

impl History {
    /// A well-formed history never holds more than its capacity.
    pub proof fn lemma_bounded(&self)
        requires
            self.wf(),
        ensures
            self@.len() <= HISTORY_CAPACITY,
    {
    }

    /// An empty history.
    pub fn new() -> (out: Self)
        ensures
            out.wf(),
            out@ == Seq::<Sample>::empty(),
    {
        let out = History { slots: Vec::new(), head: 0 };
        assert(out@ =~= Seq::<Sample>::empty());
        out
    }

    /// The number of samples held.
    pub fn len(&self) -> (n: usize)
        requires
            self.wf(),
        ensures
            n == self@.len(),
            n <= HISTORY_CAPACITY,
    {
        self.slots.len()
    }

    /// Whether no sample is held.
    pub fn is_empty(&self) -> (b: bool)
        requires
            self.wf(),
        ensures
            b == (self@.len() == 0),
    {
        self.slots.len() == 0
    }

    /// The sample at position `i`, counting from the oldest.
    pub fn get(&self, i: usize) -> (sample: Sample)
        requires
            self.wf(),
            i < self@.len(),
        ensures
            sample == self@[i as int],
    {
        self.slots[self.slot(i)]
    }

    fn slot(&self, i: usize) -> (at: usize)
        requires
            self.wf(),
            i < self.slots@.len(),
        ensures
            at == slot_of(self.head as int, i as int, self.slots@.len() as int),
            at < self.slots@.len(),
    {
        let len = self.slots.len();
        if i < len - self.head {
            self.head + i
        } else {
            i - (len - self.head)
        }
    }

    /// Appends `sample` at the tail and, if the history was full, drops the oldest.
    pub fn append(&mut self, sample: Sample)
        requires
            old(self).wf(),
        ensures
            final(self).wf(),
            final(self)@ == appended(old(self)@, sample),
    {
        if self.slots.len() < HISTORY_CAPACITY {
            self.slots.push(sample);
            assert(self@ =~= old(self)@.push(sample));
        } else {
            let at = self.head;
            self.slots.set(at, sample);
            self.head = if at + 1 == HISTORY_CAPACITY {
                0
            } else {
                at + 1
            };
            assert forall|i: int| 0 <= i < HISTORY_CAPACITY implies #[trigger] self@[i] == appended(
                old(self)@,
                sample,
            )[i] by {
                if i < HISTORY_CAPACITY - 1 {
                    assert(appended(old(self)@, sample)[i] == old(self)@[i + 1]);
                }
            }
            assert(self@ =~= appended(old(self)@, sample));
        }
    }

    /// The samples held, oldest first.
    pub fn samples(&self) -> (out: Vec<Sample>)
        requires
            self.wf(),
        ensures
            out@ == self@,
    {
        let n = self.slots.len();
        let mut out: Vec<Sample> = Vec::new();
        let mut i: usize = 0;
        while i < n
            invariant
                self.wf(),
                n == self.slots@.len(),
                i <= n,
                out@ == self@.subrange(0, i as int),
            decreases n - i,
        {
            out.push(self.slots[self.slot(i)]);
            i = i + 1;
            assert(out@ =~= self@.subrange(0, i as int));
        }
        assert(out@ =~= self@);
        out
    }
}

impl Clone for History {
    fn clone(&self) -> (out: Self)
        ensures
            out@ == self@,
            self.wf() ==> out.wf(),
    {
        let out = History { slots: self.slots.clone(), head: self.head };
        assert(out.slots@ =~= self.slots@);
        out
    }
}

/// The history of a scalar metric as the store hands it out.
#[derive(Debug)]
pub struct MetricHistory {
    pub id: String,
    pub samples: History,
}

impl Entry for MetricHistory {
    type Held = History;

    open spec fn id(&self) -> Seq<char> {
        self.id@
    }

    open spec fn held(&self) -> History {
        self.samples
    }

    fn entry(id: String, held: History) -> (out: Self) {
        MetricHistory { id, samples: held }
    }
}

} // verus!
