//! The value model: what a metric can hold.

use crate::record::{Entry, Record};
use vstd::prelude::*;

verus! {

/// The value of a metric. Exactly one variant is active; no variant is ever
/// coerced into another.
///
/// A gauge reading is held as the bit pattern of an IEEE 754 double, so that
/// it passes through the store unchanged and exactly.
#[derive(Debug, PartialEq, Eq)]
pub enum MetricValue {
    /// An accumulator that is only ever added to.
    Counter(u64),
    /// A reading that may go up or down, as the bits of a double.
    Gauge(u64),
    /// Bucket counts.
    Histogram(Vec<u64>),
    /// A duration in hundredths of a second.
    TimeTicks(u64),
    /// A status code.
    Integer(i32),
    /// Free text.
    OctetString(String),
}

/// The mathematical value of a [`MetricValue`].
pub enum MetricValueView {
    Counter(u64),
    Gauge(u64),
    Histogram(Seq<u64>),
    TimeTicks(u64),
    Integer(i32),
    OctetString(Seq<char>),
}

impl View for MetricValue {
    type V = MetricValueView;

    open spec fn view(&self) -> MetricValueView {
        match *self {
            MetricValue::Counter(n) => MetricValueView::Counter(n),
            MetricValue::Gauge(bits) => MetricValueView::Gauge(bits),
            MetricValue::Histogram(buckets) => MetricValueView::Histogram(buckets@),
            MetricValue::TimeTicks(t) => MetricValueView::TimeTicks(t),
            MetricValue::Integer(i) => MetricValueView::Integer(i),
            MetricValue::OctetString(s) => MetricValueView::OctetString(s@),
        }
    }
}

impl Clone for MetricValue {
    fn clone(&self) -> (out: Self)
        ensures
            out@ == self@,
    {
        match self {
            MetricValue::Counter(n) => MetricValue::Counter(*n),
            MetricValue::Gauge(bits) => MetricValue::Gauge(*bits),
            MetricValue::Histogram(buckets) => MetricValue::Histogram(buckets.clone()),
            MetricValue::TimeTicks(t) => MetricValue::TimeTicks(*t),
            MetricValue::Integer(i) => MetricValue::Integer(*i),
            MetricValue::OctetString(s) => MetricValue::OctetString(s.clone()),
        }
    }
}

/// The kind of a metric value, without what it holds.
#[derive(Clone, Copy, Debug, PartialEq, Eq)]
pub enum MetricKind {
    Counter,
    Gauge,
    Histogram,
    TimeTicks,
    Integer,
    OctetString,
}

impl MetricKind {
    /// The tag under which a value of this kind goes on the wire. A reader
    /// learns the kind from the tag alone, before it looks at the payload.
    pub open spec fn tag(self) -> Seq<char> {
        match self {
            MetricKind::Counter => "cntr"@,
            MetricKind::Gauge => "gauge"@,
            MetricKind::Histogram => "hist"@,
            MetricKind::TimeTicks => "ticks"@,
            MetricKind::Integer => "int"@,
            MetricKind::OctetString => "string"@,
        }
    }

    /// The tag of this kind.
    pub fn wire_tag(self) -> (tag: &'static str)
        ensures
            tag@ == self.tag(),
    {
        match self {
            MetricKind::Counter => "cntr",
            MetricKind::Gauge => "gauge",
            MetricKind::Histogram => "hist",
            MetricKind::TimeTicks => "ticks",
            MetricKind::Integer => "int",
            MetricKind::OctetString => "string",
        }
    }

    /// The kind that goes under `tag`, or `None` where no kind does.
    pub fn from_wire_tag(tag: &str) -> (kind: Option<MetricKind>)
        ensures
            match kind {
                Some(k) => k.tag() == tag@,
                None => forall|k: MetricKind| k.tag() != tag@,
            },
    {
        let probe = tag.to_owned();
        if probe == MetricKind::Counter.wire_tag().to_owned() {
            Some(MetricKind::Counter)
        } else if probe == MetricKind::Gauge.wire_tag().to_owned() {
            Some(MetricKind::Gauge)
        } else if probe == MetricKind::Histogram.wire_tag().to_owned() {
            Some(MetricKind::Histogram)
        } else if probe == MetricKind::TimeTicks.wire_tag().to_owned() {
            Some(MetricKind::TimeTicks)
        } else if probe == MetricKind::Integer.wire_tag().to_owned() {
            Some(MetricKind::Integer)
        } else if probe == MetricKind::OctetString.wire_tag().to_owned() {
            Some(MetricKind::OctetString)
        } else {
            None
        }
    }
}

impl MetricValueView {
    /// The kind of this value.
    pub open spec fn kind(self) -> MetricKind {
        match self {
            MetricValueView::Counter(_) => MetricKind::Counter,
            MetricValueView::Gauge(_) => MetricKind::Gauge,
            MetricValueView::Histogram(_) => MetricKind::Histogram,
            MetricValueView::TimeTicks(_) => MetricKind::TimeTicks,
            MetricValueView::Integer(_) => MetricKind::Integer,
            MetricValueView::OctetString(_) => MetricKind::OctetString,
        }
    }

    /// The tag under which this value goes on the wire: that of its kind.
    pub open spec fn wire_tag(self) -> Seq<char> {
        self.kind().tag()
    }
}

/// Two kinds carry the same wire tag exactly when they are the same kind, so
/// the kind found under a tag is the only one that goes under it.
pub proof fn lemma_wire_tag_tells_kind(a: MetricKind, b: MetricKind)
    ensures
        a.tag() == b.tag() <==> a == b,
{
    reveal_strlit("cntr");
    reveal_strlit("gauge");
    reveal_strlit("hist");
    reveal_strlit("ticks");
    reveal_strlit("int");
    reveal_strlit("string");
    assert("cntr"@.len() == 4 && "hist"@.len() == 4 && "cntr"@[0] != "hist"@[0]);
    assert("gauge"@.len() == 5 && "ticks"@.len() == 5 && "gauge"@[0] != "ticks"@[0]);
    assert("int"@.len() == 3 && "string"@.len() == 6);
}

impl MetricValue {
    /// The kind of this value.
    pub fn kind(&self) -> (kind: MetricKind)
        ensures
            kind == self@.kind(),
    {
        match self {
            MetricValue::Counter(_) => MetricKind::Counter,
            MetricValue::Gauge(_) => MetricKind::Gauge,
            MetricValue::Histogram(_) => MetricKind::Histogram,
            MetricValue::TimeTicks(_) => MetricKind::TimeTicks,
            MetricValue::Integer(_) => MetricKind::Integer,
            MetricValue::OctetString(_) => MetricKind::OctetString,
        }
    }

    /// The tag under which this value goes on the wire.
    pub fn wire_tag(&self) -> (tag: &'static str)
        ensures
            tag@ == self@.wire_tag(),
    {
        self.kind().wire_tag()
    }
}

/// A metric as the store hands it out: its identifier and its current value.
#[derive(Debug, PartialEq, Eq)]
pub struct Metric {
    pub key: String,
    pub value: MetricValue,
}

impl Entry for Metric {
    type Held = MetricValue;

    open spec fn id(&self) -> Seq<char> {
        self.key@
    }

    open spec fn held(&self) -> MetricValue {
        self.value
    }

    fn entry(id: String, held: MetricValue) -> (out: Self) {
        Metric { key: id, value: held }
    }
}

impl Clone for Metric {
    fn clone(&self) -> (out: Self)
        ensures
            out.key@ == self.key@,
            out.value@ == self.value@,
    {
        Metric { key: self.key.clone(), value: self.value.clone() }
    }
}

impl Record for MetricValue {
    /// Every metric value is sound as it stands.
    open spec fn wf(&self) -> bool {
        true
    }

    fn duplicate(&self) -> (out: Self) {
        self.clone()
    }
}

} // verus!
