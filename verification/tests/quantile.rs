use percentile_kit::quantile::{nearest_rank, nearest_rank_scaled};
use percentile_kit::sorting::sorted_samples;

fn bits(values: &[f64]) -> Vec<u64> {
    values.iter().map(|v| v.to_bits()).collect()
}

fn value(sample: Option<u64>) -> Option<f64> {
    sample.map(f64::from_bits)
}

#[test]
fn empty_slice_is_none() {
    assert_eq!(nearest_rank(&[], 1, 2), None);
}

#[test]
fn quantile_invalid_q_is_none() {
    let s = bits(&[1.0, 2.0, 3.0]);
    // q = 1.1 and a quantile with no denominator are outside 0..=1.
    assert_eq!(nearest_rank(&s, 11, 10), None);
    assert_eq!(nearest_rank(&s, 1, 0), None);
    assert_eq!(nearest_rank(&s, 0, 0), None);
}

#[test]
fn ranks_hit_min_median_max() {
    let s = bits(&[10.0, 20.0, 30.0, 40.0]);
    assert_eq!(value(nearest_rank(&s, 0, 1)), Some(10.0));
    assert_eq!(value(nearest_rank(&s, 1, 2)), Some(20.0)); // ceil(2.0) = 2
    assert_eq!(value(nearest_rank(&s, 51, 100)), Some(30.0)); // ceil(2.04) = 3
    assert_eq!(value(nearest_rank(&s, 1, 1)), Some(40.0));
}

#[test]
fn single_sample_is_every_quantile() {
    let s = bits(&[42.0]);
    assert_eq!(value(nearest_rank(&s, 0, 1)), Some(42.0));
    assert_eq!(value(nearest_rank(&s, 999, 1000)), Some(42.0));
    assert_eq!(value(nearest_rank(&s, 1, 1)), Some(42.0));
}

#[test]
fn ratio_rank_matches_float_rank_for_standard_percentiles() {
    // The exact ratios agree with ceil(q * n) computed in f64.
    for n in 1usize..=2000 {
        let sorted: Vec<u64> = (0..n).map(|i| (i as f64).to_bits()).collect();
        for (q, num, den) in [(0.5, 1u64, 2u64), (0.99, 99, 100), (0.999, 999, 1000), (1.0, 1, 1)] {
            let scaled = (q * n as f64).ceil() as usize;
            assert_eq!(nearest_rank(&sorted, num, den), nearest_rank_scaled(&sorted, scaled));
        }
    }
}

#[test]
fn scaled_rank_is_clamped() {
    let s = bits(&[5.0, 6.0, 7.0]);
    assert_eq!(value(nearest_rank_scaled(&s, 0)), Some(5.0));
    assert_eq!(value(nearest_rank_scaled(&s, 2)), Some(6.0));
    assert_eq!(value(nearest_rank_scaled(&s, 99)), Some(7.0));
    assert_eq!(nearest_rank_scaled(&[], 1), None);
}

#[test]
fn percentiles_are_ordered() {
    let s = sorted_samples(&bits(&[3.5, -1.0, 8.25, 0.0, 2.0, 100.0, -7.5]));
    let p50 = value(nearest_rank(&s, 1, 2)).unwrap();
    let p99 = value(nearest_rank(&s, 99, 100)).unwrap();
    let p999 = value(nearest_rank(&s, 999, 1000)).unwrap();
    let max = value(nearest_rank(&s, 1, 1)).unwrap();
    assert_eq!(p50, 2.0);
    assert!(p50 <= p99 && p99 <= p999 && p999 <= max);
    assert_eq!(max, 100.0);
    assert_eq!(value(nearest_rank(&s, 0, 7)), Some(-7.5));
}

#[test]
fn float_ascending_slice_with_signed_zeros() {
    // Ascending by f64 `<=` (the zeros are equal there), not by total order.
    let s = bits(&[-1.0, 0.0, -0.0, 2.0]);
    assert_eq!(value(nearest_rank(&s, 1, 2)), Some(0.0));
    assert_eq!(nearest_rank(&s, 3, 4).map(f64::from_bits).map(f64::is_sign_negative), Some(true));
    assert_eq!(value(nearest_rank(&s, 1, 1)), Some(2.0));
    assert_eq!(value(nearest_rank(&s, 0, 1)), Some(-1.0));
}
