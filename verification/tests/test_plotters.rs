use telemetry_poc::MetricStore;

#[test]
fn test_plotters() {
    let mut store = MetricStore::new();
    for _ in 0..10 {
        store.increment_counter("test.counter", 1);
    }
    let (scalars, tables) = store.get_histories();
    assert_eq!(scalars.len(), 1);
    assert_eq!(scalars[0].id, "test.counter");
    assert_eq!(scalars[0].samples.len(), 10);
    assert!(tables.is_empty());
}
