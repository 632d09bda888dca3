use benchrpc::histogram::LatencyHistogram;

#[test]
fn new_has_expected_shape() {
    let h = LatencyHistogram::new();
    assert_eq!(h.total, 0);
    assert_eq!(h.max, 0);
    assert_eq!(h.boundaries.len(), h.counts.len());
    assert_eq!(h.boundaries[0], 1);
    assert_eq!(*h.boundaries.last().unwrap(), 10_000_000_000);
    assert!(h.boundaries.len() >= 2);
    for i in 1..h.boundaries.len() {
        assert!(h.boundaries[i - 1] < h.boundaries[i]);
    }
    for &c in h.counts.iter() {
        assert_eq!(c, 0);
    }
}

#[test]
fn empty_histogram_quantile_is_zero() {
    let h = LatencyHistogram::new();
    assert_eq!(h.quantile(0, 1), 0);
    assert_eq!(h.quantile(1, 2), 0);
    assert_eq!(h.quantile(99, 100), 0);
    assert_eq!(h.quantile(1, 1), 0);
}

#[test]
fn quantile_reports_bucket_ceiling() {
    // the ladder starts 1, 2, 3, 4, 5, 6, 8, ...: a single observation of 7
    // sits in the bucket bounded by 8, a biased-high estimate
    let mut h = LatencyHistogram::new();
    h.record(7);
    assert_eq!(h.total, 1);
    assert_eq!(h.max, 7);
    assert_eq!(h.quantile(1, 2), 8);
    assert_eq!(h.quantile(1, 1), 8);
}

#[test]
fn full_quantile_covers_max() {
    let mut h = LatencyHistogram::new();
    h.record(3);
    h.record(250);
    h.record(9);
    assert_eq!(h.max, 250);
    let full = h.quantile(1, 1);
    assert!(full >= 250);
    // the ladder passes ... 213, 256 ...: 250 lands under 256
    assert_eq!(full, 256);
}

#[test]
fn quantile_is_monotone_in_the_fraction() {
    let mut h = LatencyHistogram::new();
    for v in [1u64, 5, 5, 40, 900, 12_000, 90_000, 2_000_000] {
        h.record(v);
    }
    let p10 = h.quantile(1, 10);
    let p50 = h.quantile(1, 2);
    let p99 = h.quantile(99, 100);
    let full = h.quantile(1, 1);
    assert!(p10 <= p50);
    assert!(p50 <= p99);
    assert!(p99 <= full);
}

#[test]
fn overflow_lands_in_last_bucket() {
    let mut h = LatencyHistogram::new();
    h.record(20_000_000_000);
    assert_eq!(h.total, 1);
    assert_eq!(h.max, 20_000_000_000);
    assert_eq!(*h.counts.last().unwrap(), 1);
    assert_eq!(h.quantile(1, 1), 10_000_000_000);
    h.record(20_000_000_001);
    assert_eq!(h.total, 2);
    assert_eq!(h.max, 20_000_000_001);
    assert_eq!(*h.counts.last().unwrap(), 2);
}

#[test]
fn p50_exact_on_mixed_values() {
    let mut h = LatencyHistogram::new();
    for _ in 0..5 {
        h.record(1);
    }
    for _ in 0..5 {
        h.record(10_000_000_000);
    }
    // rank ceil(10 * 1/2) = 5 is reached by the first bucket
    assert_eq!(h.quantile(1, 2), 1);
    // rank ceil(10 * 99/100) = 10 is only reached by the last bucket
    assert_eq!(h.quantile(99, 100), 10_000_000_000);
    assert_eq!(h.max, 10_000_000_000);
}
