use percentile_kit::render::percentile_table;
use percentile_kit::tracker::{quantile_of_read, sorted_read};
use percentile_kit::PercentileTracker;

fn value(sample: Option<u64>) -> Option<f64> {
    sample.map(f64::from_bits)
}

fn record_all<const N: usize>(t: &PercentileTracker<N>, values: &[f64]) {
    for v in values {
        t.record(v.to_bits());
    }
}

fn render<const N: usize>(t: &PercentileTracker<N>, unit: &str) -> String {
    let fmt = |v: Option<u64>| v.map(|b| format!("{:.2}", f64::from_bits(b)));
    let (p50, p99, p999, max) = (fmt(t.p50().0), fmt(t.p99().0), fmt(t.p999().0), fmt(t.max().0));
    percentile_table(
        unit,
        p50.as_deref(),
        p99.as_deref(),
        p999.as_deref(),
        max.as_deref(),
        t.count(),
    )
}

#[test]
fn empty_tracker_yields_none_everywhere() {
    let t = PercentileTracker::<8>::new();
    assert_eq!(t.quantile(1, 2).0, None);
    assert_eq!(t.p50().0, None);
    assert_eq!(t.p99().0, None);
    assert_eq!(t.p999().0, None);
    assert_eq!(t.max().0, None);
    assert_eq!(t.count(), 0);
}

#[test]
fn quantiles_match_sorted_reference() {
    let t = PercentileTracker::<64>::new();
    record_all(&t, &[12.0, 8.0, 30.0, 25.0, 11.0]);
    assert_eq!(t.count(), 5);
    assert_eq!(value(t.p50().0), Some(12.0)); // ceil(0.5 * 5) = 3rd of [8,11,12,25,30]
    assert_eq!(value(t.p99().0), Some(30.0)); // ceil(0.99 * 5) = 5th
    assert_eq!(value(t.p999().0), Some(30.0));
    assert_eq!(value(t.max().0), Some(30.0));
    assert_eq!(value(t.quantile(0, 1).0), Some(8.0));
}

#[test]
fn tracker_invalid_q_is_none() {
    let t = PercentileTracker::<8>::new();
    t.record(1.0f64.to_bits());
    assert_eq!(t.quantile(11, 10).0, None);
    assert_eq!(t.quantile(1, 0).0, None);
    assert_eq!(value(t.quantile(1, 1).0), Some(1.0));
}

#[test]
fn nan_samples_are_rejected() {
    let t = PercentileTracker::<8>::new();
    t.record(f64::NAN.to_bits());
    t.record((-f64::NAN).to_bits());
    t.record(7.5f64.to_bits());
    t.record(f64::NAN.to_bits());
    assert_eq!(t.count(), 1);
    assert_eq!(value(t.p50().0), Some(7.5));
}

#[test]
fn full_ring_overwrites_oldest_sample() {
    let t = PercentileTracker::<4>::new();
    record_all(&t, &[1.0, 2.0, 3.0, 4.0, 5.0, 6.0]);
    assert_eq!(t.count(), 4);
    // Window holds the four newest: [3, 4, 5, 6].
    assert_eq!(value(t.quantile(0, 1).0), Some(3.0));
    assert_eq!(value(t.p50().0), Some(4.0)); // ceil(0.5 * 4) = 2nd of [3,4,5,6]
    assert_eq!(value(t.quantile(99, 100).0), Some(6.0)); // ceil(0.99 * 4) = 4th
    assert_eq!(value(t.max().0), Some(6.0));
}

#[test]
fn default_is_4096_capacity() {
    let t = PercentileTracker::<4096>::default();
    for v in 0..5_000 {
        t.record((v as f64).to_bits());
    }
    assert_eq!(t.count(), 4096);
    assert_eq!(value(t.quantile(0, 1).0), Some(904.0)); // oldest survivor is #904
}

#[test]
fn markdown_render_snapshot() {
    let t = PercentileTracker::<64>::new();
    record_all(&t, &[12.0, 8.0, 30.0, 25.0, 11.0]);
    let expected = "| P50 (ms) | P99 (ms) | P99.9 (ms) | Max (ms) | N |\n\
                    |---|---|---|---|---|\n\
                    | 12.00 | 30.00 | 30.00 | 30.00 | 5 |";
    assert_eq!(render(&t, "ms"), expected);
}

#[test]
fn empty_markdown_render_snapshot() {
    let t = PercentileTracker::<8>::new();
    let expected = "| P50 (ns) | P99 (ns) | P99.9 (ns) | Max (ns) | N |\n\
                    |---|---|---|---|---|\n\
                    | - | - | - | - | 0 |";
    assert_eq!(render(&t, "ns"), expected);
}

#[test]
fn sorted_window_is_the_window_in_total_order() {
    let t = PercentileTracker::<3>::new();
    record_all(&t, &[9.0, -1.0, 4.0, 2.0]);
    let window: Vec<f64> = t.sorted_window().into_iter().map(f64::from_bits).collect();
    assert_eq!(window, vec![-1.0, 2.0, 4.0]);
}

#[test]
fn count_is_capped_and_monotone() {
    let t = PercentileTracker::<32>::new();
    for i in 0..200usize {
        t.record((i as f64 * 0.5).to_bits());
        assert_eq!(t.count(), (i + 1).min(32));
    }
}

#[test]
fn records_from_workers_in_turn_are_never_lost() {
    // The eight workers record in turn; the window is read once they are done.
    let t = PercentileTracker::<4096>::new();
    for worker in 0..8u64 {
        for i in 0..1_000u64 {
            t.record((1.0 + (worker * 1_000 + i) as f64).to_bits());
        }
    }
    assert_eq!(t.count(), 4096);
    let window = t.sorted_window();
    assert_eq!(window.len(), 4096);
    let mut seen = std::collections::HashSet::new();
    for bits in window {
        let v = f64::from_bits(bits);
        assert!((3905.0..=8000.0).contains(&v), "stale or garbage sample {v}");
        assert!(seen.insert(bits), "duplicate sample {v}");
    }
}

#[test]
fn tracker_service_lifecycle_with_workers_in_turn() {
    // The four workers record in turn; the window is read once they are done.
    let tracker = PercentileTracker::<1024>::new();
    for worker in 0..4u64 {
        for i in 0..500u64 {
            tracker.record((1.0 + (worker * 500 + i) as f64 * 0.25).to_bits());
        }
    }

    assert_eq!(tracker.count(), 1024);
    let p50 = value(tracker.p50().0).expect("non-empty");
    let p99 = value(tracker.p99().0).expect("non-empty");
    let max = value(tracker.max().0).expect("non-empty");
    assert!(p50 <= p99 && p99 <= max);
    assert!(p99 <= value(tracker.p999().0).expect("non-empty"));

    let markdown = render(&tracker, "us");
    assert!(markdown.contains("| P50 (us) | P99 (us) | P99.9 (us) | Max (us) | N |"));
    assert!(markdown.contains("| 1024 |"));
}

#[test]
fn quantile_of_a_given_read() {
    let b = |v: f64| v.to_bits();
    // Ring of 4 after tickets 0..6 wrote 6, 5, 4, 3, 2, 1: slots hold 2, 1, 4, 3.
    let slots = [b(2.0), b(1.0), b(4.0), b(3.0)];
    let window: Vec<f64> = sorted_read(&slots, 6).into_iter().map(f64::from_bits).collect();
    assert_eq!(window, vec![1.0, 2.0, 3.0, 4.0]);
    assert_eq!(value(quantile_of_read(&slots, 6, 1, 2)), Some(2.0));
    assert_eq!(value(quantile_of_read(&slots, 6, 1, 1)), Some(4.0));
    assert_eq!(quantile_of_read(&slots, 6, 3, 2), None);
    assert_eq!(quantile_of_read(&slots, 0, 1, 2), None);
}
