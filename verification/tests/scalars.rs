use telemetry_poc::{
    MetricStore, MetricValue, Sample, SampleValue, HISTORY_CAPACITY,
};

fn history_of(store: &MetricStore, key: &str) -> Option<Vec<Sample>> {
    let (scalars, _) = store.get_histories();
    scalars.into_iter().find(|h| h.id == key).map(|h| h.samples.samples())
}

#[test]
fn fresh_store_is_empty() {
    let store = MetricStore::new();
    assert!(store.get("reqs").is_none());
    assert!(store.get_all().is_empty());
    assert!(store.get_tables().is_empty());
    let (scalars, tables) = store.get_histories();
    assert!(scalars.is_empty());
    assert!(tables.is_empty());
}

#[test]
fn ten_increments_make_ten() {
    let mut store = MetricStore::new();
    for t in 0..10 {
        store.increment_counter_at("reqs", 1, t);
    }
    let got = store.get("reqs").unwrap();
    assert_eq!(got.key, "reqs");
    assert_eq!(got.value, MetricValue::Counter(10));
    assert_eq!(store.get_all().len(), 1);
}

#[test]
fn increments_add_up() {
    let deltas: [u64; 6] = [3, 0, 17, 1, 1_000_000, 42];
    let mut store = MetricStore::new();
    let mut now = 100;
    for d in deltas {
        store.increment_counter_at("bytes", d, now);
        now += 5;
    }
    assert_eq!(store.get("bytes").unwrap().value, MetricValue::Counter(1_000_063));
    let samples = history_of(&store, "bytes").unwrap();
    let counts: Vec<SampleValue> = samples.iter().map(|s| s.value).collect();
    assert_eq!(
        counts,
        vec![
            SampleValue::Count(3),
            SampleValue::Count(3),
            SampleValue::Count(20),
            SampleValue::Count(21),
            SampleValue::Count(1_000_021),
            SampleValue::Count(1_000_063),
        ]
    );
    let times: Vec<i64> = samples.iter().map(|s| s.timestamp_ms).collect();
    assert_eq!(times, vec![100, 105, 110, 115, 120, 125]);
}

#[test]
fn unit_increments_count_every_call() {
    let mut store = MetricStore::new();
    let writers = 8u64;
    let each = 250u64;
    for turn in 0..each {
        for writer in 0..writers {
            store.increment_counter_at("hits", 1, (turn * writers + writer) as i64);
        }
    }
    assert_eq!(store.get("hits").unwrap().value, MetricValue::Counter(writers * each));
    let samples = history_of(&store, "hits").unwrap();
    assert_eq!(samples.len(), 100);
    assert_eq!(samples[99], Sample { timestamp_ms: 1_999, value: SampleValue::Count(2_000) });
    assert_eq!(samples[0], Sample { timestamp_ms: 1_900, value: SampleValue::Count(1_901) });
}

#[test]
fn increment_wraps_around() {
    let mut store = MetricStore::new();
    store.increment_counter_at("wrap", u64::MAX, 1);
    assert_eq!(store.get("wrap").unwrap().value, MetricValue::Counter(u64::MAX));
    store.increment_counter_at("wrap", 2, 2);
    assert_eq!(store.get("wrap").unwrap().value, MetricValue::Counter(1));
    let samples = history_of(&store, "wrap").unwrap();
    assert_eq!(
        samples,
        vec![
            Sample { timestamp_ms: 1, value: SampleValue::Count(u64::MAX) },
            Sample { timestamp_ms: 2, value: SampleValue::Count(1) },
        ]
    );
}

#[test]
fn increment_by_zero_on_a_fresh_key_creates_it() {
    let mut store = MetricStore::new();
    store.increment_counter_at("idle", 0, 7);
    assert_eq!(store.get("idle").unwrap().value, MetricValue::Counter(0));
    assert_eq!(
        history_of(&store, "idle").unwrap(),
        vec![Sample { timestamp_ms: 7, value: SampleValue::Count(0) }]
    );
}

#[test]
fn gauge_set_twice_keeps_the_last_reading() {
    let mut store = MetricStore::new();
    store.set_gauge_at("temp", 21.5f64.to_bits(), 1_000);
    store.set_gauge_at("temp", 22.0f64.to_bits(), 2_000);
    let got = store.get("temp").unwrap();
    assert_eq!(got.value, MetricValue::Gauge(22.0f64.to_bits()));
    match got.value {
        MetricValue::Gauge(bits) => assert_eq!(f64::from_bits(bits), 22.0),
        _ => unreachable!(),
    }
    let samples = history_of(&store, "temp").unwrap();
    assert_eq!(
        samples,
        vec![
            Sample { timestamp_ms: 1_000, value: SampleValue::Gauge(21.5f64.to_bits()) },
            Sample { timestamp_ms: 2_000, value: SampleValue::Gauge(22.0f64.to_bits()) },
        ]
    );
}

#[test]
fn same_gauge_reading_grows_history_by_one_per_call() {
    let mut store = MetricStore::new();
    let bits = 3.25f64.to_bits();
    for n in 1..=7usize {
        store.set_gauge_at("load", bits, n as i64);
        assert_eq!(store.get("load").unwrap().value, MetricValue::Gauge(bits));
        assert_eq!(history_of(&store, "load").unwrap().len(), n);
    }
}

#[test]
fn history_keeps_the_most_recent_hundred() {
    let mut store = MetricStore::new();
    for t in 0..150i64 {
        store.set_gauge_at("g", (t as f64).to_bits(), t);
        let len = history_of(&store, "g").unwrap().len();
        assert!(len <= HISTORY_CAPACITY);
        assert_eq!(len, std::cmp::min(t as usize + 1, 100));
    }
    let samples = history_of(&store, "g").unwrap();
    assert_eq!(samples.len(), 100);
    for (i, sample) in samples.iter().enumerate() {
        let t = 50 + i as i64;
        let expected = Sample { timestamp_ms: t, value: SampleValue::Gauge((t as f64).to_bits()) };
        assert_eq!(*sample, expected);
    }
}

#[test]
fn counter_history_keeps_the_most_recent_hundred() {
    let mut store = MetricStore::new();
    for t in 0..101i64 {
        store.increment_counter_at("c", 2, t);
    }
    let samples = history_of(&store, "c").unwrap();
    assert_eq!(samples.len(), 100);
    assert_eq!(samples[0], Sample { timestamp_ms: 1, value: SampleValue::Count(4) });
    assert_eq!(samples[99], Sample { timestamp_ms: 100, value: SampleValue::Count(202) });
}

#[test]
fn increment_of_a_gauge_changes_nothing() {
    let mut store = MetricStore::new();
    store.set_gauge_at("temp", 1.5f64.to_bits(), 10);
    store.increment_counter_at("temp", 4, 20);
    assert_eq!(store.get("temp").unwrap().value, MetricValue::Gauge(1.5f64.to_bits()));
    assert_eq!(
        history_of(&store, "temp").unwrap(),
        vec![Sample { timestamp_ms: 10, value: SampleValue::Gauge(1.5f64.to_bits()) }]
    );
    assert_eq!(store.get_all().len(), 1);
}

#[test]
fn gauge_replaces_a_counter() {
    let mut store = MetricStore::new();
    store.increment_counter_at("x", 5, 1);
    store.set_gauge_at("x", 0.5f64.to_bits(), 2);
    assert_eq!(store.get("x").unwrap().value, MetricValue::Gauge(0.5f64.to_bits()));
    assert_eq!(
        history_of(&store, "x").unwrap(),
        vec![
            Sample { timestamp_ms: 1, value: SampleValue::Count(5) },
            Sample { timestamp_ms: 2, value: SampleValue::Gauge(0.5f64.to_bits()) },
        ]
    );
    store.increment_counter_at("x", 1, 3);
    assert_eq!(store.get("x").unwrap().value, MetricValue::Gauge(0.5f64.to_bits()));
}

#[test]
fn keys_are_kept_apart() {
    let mut store = MetricStore::new();
    store.increment_counter_at("a", 1, 1);
    store.increment_counter_at("b", 10, 2);
    store.increment_counter_at("a", 1, 3);
    store.set_gauge_at("ab", 7.0f64.to_bits(), 4);
    store.increment_counter_at("", 3, 5);
    assert_eq!(store.get("a").unwrap().value, MetricValue::Counter(2));
    assert_eq!(store.get("b").unwrap().value, MetricValue::Counter(10));
    assert_eq!(store.get("ab").unwrap().value, MetricValue::Gauge(7.0f64.to_bits()));
    assert_eq!(store.get("").unwrap().value, MetricValue::Counter(3));
    assert!(store.get("c").is_none());
    assert!(store.get("A").is_none());
    let mut all: Vec<(String, MetricValue)> =
        store.get_all().into_iter().map(|m| (m.key, m.value)).collect();
    all.sort_by(|x, y| x.0.cmp(&y.0));
    assert_eq!(
        all,
        vec![
            ("".to_string(), MetricValue::Counter(3)),
            ("a".to_string(), MetricValue::Counter(2)),
            ("ab".to_string(), MetricValue::Gauge(7.0f64.to_bits())),
            ("b".to_string(), MetricValue::Counter(10)),
        ]
    );
    assert_eq!(history_of(&store, "a").unwrap().len(), 2);
    assert_eq!(history_of(&store, "b").unwrap().len(), 1);
    assert!(history_of(&store, "c").is_none());
}

#[test]
fn many_keys_are_all_found_again() {
    let mut store = MetricStore::new();
    for i in 0..500u64 {
        store.increment_counter_at(&format!("series.{}", i), i, i as i64);
    }
    for i in 0..500u64 {
        store.increment_counter_at(&format!("series.{}", i), 1, 1_000 + i as i64);
    }
    assert_eq!(store.get_all().len(), 500);
    for i in 0..500u64 {
        let got = store.get(&format!("series.{}", i)).unwrap();
        assert_eq!(got.value, MetricValue::Counter(i + 1));
    }
    let (scalars, _) = store.get_histories();
    assert_eq!(scalars.len(), 500);
    for h in scalars {
        assert_eq!(h.samples.len(), 2);
    }
}

#[test]
fn clock_stamps_are_of_this_era() {
    let mut store = MetricStore::new();
    store.increment_counter("reqs", 1);
    store.set_gauge("temp", 1.0f64.to_bits());
    let reqs = history_of(&store, "reqs").unwrap();
    let temp = history_of(&store, "temp").unwrap();
    assert_eq!(reqs.len(), 1);
    assert_eq!(temp.len(), 1);
    assert_eq!(reqs[0].value, SampleValue::Count(1));
    assert_eq!(temp[0].value, SampleValue::Gauge(1.0f64.to_bits()));
    // Later than the first of January 2020, in milliseconds.
    assert!(reqs[0].timestamp_ms > 1_577_836_800_000);
    assert!(temp[0].timestamp_ms > 1_577_836_800_000);
}
