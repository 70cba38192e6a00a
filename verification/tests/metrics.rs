use kv_metrics::metrics::Metrics;

#[test]
fn empty_snapshot_is_all_zero() {
    let mut m = Metrics::new();
    assert_eq!(m.snapshot(), (0, 0, 0, 0));
}

#[test]
fn scenario_five_samples() {
    // Durations 10ms, 20ms, 30ms, 40ms, 100ms in microseconds.
    let mut m = Metrics::new();
    for micros in [10_000u64, 20_000, 30_000, 40_000, 100_000] {
        m.record(micros);
    }
    let (p50, p95, p99, count) = m.snapshot();
    assert_eq!(count, 5);
    // P50 index floor(5 * 0.50) = 2 -> 30ms.
    assert_eq!(p50, 30_000);
    // P95 index floor(5 * 0.95) = 4 -> 100ms.
    assert_eq!(p95, 100_000);
    // P99 index floor(5 * 0.99) = 4 (clamped) -> 100ms.
    assert_eq!(p99, 100_000);
}

#[test]
fn index_formula_small_sequence() {
    // 4 unsorted samples; sorted: [1, 3, 5, 9].
    let mut m = Metrics::new();
    for micros in [5u64, 1, 9, 3] {
        m.record(micros);
    }
    let (p50, p95, p99, count) = m.snapshot();
    assert_eq!(count, 4);
    // P50 index min(floor(4 * 0.50), 3) = 2 -> 5.
    assert_eq!(p50, 5);
    // P95 index min(floor(4 * 0.95), 3) = 3 -> 9.
    assert_eq!(p95, 9);
    // P99 index min(floor(4 * 0.99), 3) = 3 -> 9.
    assert_eq!(p99, 9);
}

#[test]
fn index_formula_hundred_samples() {
    // Samples 1..=100; sorted position q of 100 is index q exactly.
    let mut m = Metrics::new();
    for micros in (1..=100u64).rev() {
        m.record(micros);
    }
    let (p50, p95, p99, count) = m.snapshot();
    assert_eq!(count, 100);
    // P50 index min(50, 99) = 50 -> sample 51.
    assert_eq!(p50, 51);
    // P95 index min(95, 99) = 95 -> sample 96.
    assert_eq!(p95, 96);
    // P99 index min(99, 99) = 99 -> sample 100.
    assert_eq!(p99, 100);
}

#[test]
fn count_is_number_of_record_calls() {
    let mut m = Metrics::new();
    for i in 0..37u64 {
        m.record(i * 7);
    }
    let (_, _, _, count) = m.snapshot();
    assert_eq!(count, 37);
    for i in 0..13u64 {
        m.record(i);
    }
    let (_, _, _, count) = m.snapshot();
    assert_eq!(count, 50);
}

#[test]
fn snapshot_is_idempotent() {
    let mut m = Metrics::new();
    for micros in [8u64, 2, 2, 100, 41, 7] {
        m.record(micros);
    }
    let first = m.snapshot();
    let second = m.snapshot();
    assert_eq!(first, second);
}

#[test]
fn arrival_order_does_not_change_the_snapshot() {
    let mut ascending = Metrics::new();
    let mut shuffled = Metrics::new();
    for micros in [1u64, 2, 3, 4, 5, 6, 7] {
        ascending.record(micros);
    }
    for micros in [4u64, 7, 1, 5, 3, 6, 2] {
        shuffled.record(micros);
    }
    assert_eq!(ascending.snapshot(), shuffled.snapshot());
}

#[test]
fn single_sample_is_every_percentile() {
    let mut m = Metrics::new();
    m.record(123);
    assert_eq!(m.snapshot(), (123, 123, 123, 1));
}

#[test]
fn equal_samples_everywhere() {
    let mut m = Metrics::new();
    for _ in 0..9 {
        m.record(400);
    }
    assert_eq!(m.snapshot(), (400, 400, 400, 9));
}
