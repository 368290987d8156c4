use telemetry_poc::{
    Entry, History, Keyed, Metric, MetricKind, MetricValue, Record, Sample, SampleValue,
    HISTORY_CAPACITY,
};

fn count(t: i64) -> Sample {
    Sample { timestamp_ms: t, value: SampleValue::Count(t as u64) }
}

#[test]
fn history_starts_empty() {
    let h = History::new();
    assert_eq!(h.len(), 0);
    assert!(h.is_empty());
    assert!(h.samples().is_empty());
}

#[test]
fn history_below_capacity_keeps_everything() {
    let mut h = History::new();
    for t in 0..100 {
        h.append(count(t));
        assert_eq!(h.len(), t as usize + 1);
    }
    assert_eq!(h.len(), HISTORY_CAPACITY);
    let samples = h.samples();
    for t in 0..100 {
        assert_eq!(samples[t as usize], count(t));
        assert_eq!(h.get(t as usize), count(t));
    }
}

#[test]
fn history_at_capacity_drops_the_oldest() {
    let mut h = History::new();
    for t in 0..100 {
        h.append(count(t));
    }
    h.append(count(100));
    assert_eq!(h.len(), 100);
    assert_eq!(h.get(0), count(1));
    assert_eq!(h.get(99), count(100));
}

#[test]
fn history_wraps_more_than_once() {
    let mut h = History::new();
    for t in 0..357 {
        h.append(count(t));
    }
    let samples = h.samples();
    assert_eq!(samples.len(), 100);
    for i in 0..100usize {
        assert_eq!(samples[i], count(257 + i as i64));
        assert_eq!(h.get(i), count(257 + i as i64));
    }
}

#[test]
fn history_copies_are_faithful() {
    let mut h = History::new();
    for t in 0..123 {
        h.append(count(t));
    }
    let a = h.clone();
    let b = h.duplicate();
    h.append(count(500));
    assert_eq!(a.samples(), b.samples());
    assert_eq!(a.get(0), count(23));
    assert_eq!(h.get(0), count(24));
    assert_eq!(h.get(99), count(500));
}

#[test]
fn keyed_insert_replaces_in_place() {
    let mut k: Keyed<MetricValue> = Keyed::new();
    assert_eq!(k.len(), 0);
    k.insert("a", MetricValue::Counter(1));
    k.insert("b", MetricValue::Integer(-2));
    k.insert("a", MetricValue::TimeTicks(3));
    assert_eq!(k.len(), 2);
    assert_eq!(k.find("a"), Some(0));
    assert_eq!(k.find("b"), Some(1));
    assert_eq!(k.find("c"), None);
    assert_eq!(k.key_at(0), "a");
    assert_eq!(*k.value_at(0), MetricValue::TimeTicks(3));
    assert_eq!(k.get("b"), Some(&MetricValue::Integer(-2)));
    assert_eq!(k.get("c"), None);
    *k.value_mut(1) = MetricValue::Integer(7);
    assert_eq!(k.get("b"), Some(&MetricValue::Integer(7)));
}

#[test]
fn keyed_copy_is_faithful() {
    let mut k: Keyed<MetricValue> = Keyed::new();
    k.insert("h", MetricValue::Histogram(vec![1, 2, 3]));
    k.insert("s", MetricValue::OctetString("up".to_string()));
    let copy = k.duplicate();
    k.insert("h", MetricValue::Counter(0));
    assert_eq!(copy.len(), 2);
    assert_eq!(copy.get("h"), Some(&MetricValue::Histogram(vec![1, 2, 3])));
    assert_eq!(copy.get("s"), Some(&MetricValue::OctetString("up".to_string())));
}

#[test]
fn wire_tags_tell_the_kinds_apart() {
    let values = vec![
        (MetricValue::Counter(1), "cntr"),
        (MetricValue::Gauge(0), "gauge"),
        (MetricValue::Histogram(vec![]), "hist"),
        (MetricValue::TimeTicks(1), "ticks"),
        (MetricValue::Integer(1), "int"),
        (MetricValue::OctetString(String::new()), "string"),
    ];
    for (value, tag) in &values {
        assert_eq!(value.wire_tag(), *tag);
    }
    for (i, (a, _)) in values.iter().enumerate() {
        for (j, (b, _)) in values.iter().enumerate() {
            assert_eq!(a.wire_tag() == b.wire_tag(), i == j);
        }
    }
}

#[test]
fn kinds_are_found_again_under_their_tags() {
    let kinds = [
        (MetricKind::Counter, "cntr"),
        (MetricKind::Gauge, "gauge"),
        (MetricKind::Histogram, "hist"),
        (MetricKind::TimeTicks, "ticks"),
        (MetricKind::Integer, "int"),
        (MetricKind::OctetString, "string"),
    ];
    for (kind, tag) in kinds {
        assert_eq!(kind.wire_tag(), tag);
        assert_eq!(MetricKind::from_wire_tag(tag), Some(kind));
    }
    assert_eq!(MetricKind::from_wire_tag(""), None);
    assert_eq!(MetricKind::from_wire_tag("Cntr"), None);
    assert_eq!(MetricKind::from_wire_tag("cntr "), None);
    assert_eq!(MetricKind::from_wire_tag("counter"), None);
    assert_eq!(MetricValue::Gauge(0).kind(), MetricKind::Gauge);
    assert_eq!(MetricValue::OctetString("x".to_string()).kind(), MetricKind::OctetString);
    assert_eq!(MetricValue::Histogram(vec![1]).kind(), MetricKind::Histogram);
}

#[test]
fn an_entry_pairs_identifier_and_record() {
    let metric = Metric::entry("reqs".to_string(), MetricValue::Counter(4));
    assert_eq!(metric, Metric { key: "reqs".to_string(), value: MetricValue::Counter(4) });
}

#[test]
fn metric_values_copy_faithfully() {
    let values = vec![
        MetricValue::Counter(u64::MAX),
        MetricValue::Gauge((-0.0f64).to_bits()),
        MetricValue::Histogram(vec![5, 0, 9]),
        MetricValue::TimeTicks(12),
        MetricValue::Integer(i32::MIN),
        MetricValue::OctetString("free text".to_string()),
    ];
    for value in &values {
        assert_eq!(value.clone(), *value);
        assert_eq!(value.duplicate(), *value);
    }
}
