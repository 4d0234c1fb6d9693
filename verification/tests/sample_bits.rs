use percentile_kit::sample_bits::{is_nan_bits, total_order_key, NAN_BITS};
use percentile_kit::sorting::sorted_samples;

fn specials() -> Vec<f64> {
    vec![
        0.0,
        -0.0,
        1.0,
        -1.0,
        f64::MIN_POSITIVE,
        -f64::MIN_POSITIVE,
        5e-324,
        -5e-324,
        f64::MAX,
        f64::MIN,
        f64::INFINITY,
        f64::NEG_INFINITY,
        f64::NAN,
        -f64::NAN,
        f64::from_bits(0x7ff0_0000_0000_0001),
        f64::from_bits(0xfff0_0000_0000_0001),
        f64::from_bits(0x7fff_ffff_ffff_ffff),
        12.5,
        -1234.75,
    ]
}

#[test]
fn nan_bits_agree_with_is_nan() {
    for v in specials() {
        assert_eq!(is_nan_bits(v.to_bits()), v.is_nan(), "{v:?}");
    }
    assert!(is_nan_bits(NAN_BITS));
    assert_eq!(NAN_BITS, f64::NAN.to_bits());
    assert!(!is_nan_bits(f64::INFINITY.to_bits()));
}

#[test]
fn key_order_agrees_with_total_order() {
    let values = specials();
    for a in &values {
        for b in &values {
            let by_key = total_order_key(a.to_bits()).cmp(&total_order_key(b.to_bits()));
            assert_eq!(by_key, a.total_cmp(b), "{a:?} vs {b:?}");
        }
    }
}

#[test]
fn sorting_agrees_with_std_total_order_sort() {
    let values = specials();
    let input: Vec<u64> = values.iter().map(|v| v.to_bits()).collect();
    let mut expected = values.clone();
    expected.sort_by(f64::total_cmp);
    let expected: Vec<u64> = expected.iter().map(|v| v.to_bits()).collect();
    assert_eq!(sorted_samples(&input), expected);
}

#[test]
fn sorting_keeps_duplicates() {
    let input: Vec<u64> = [3.0, 1.0, 3.0, 2.0, 1.0].iter().map(|v: &f64| v.to_bits()).collect();
    let sorted: Vec<f64> = sorted_samples(&input).into_iter().map(f64::from_bits).collect();
    assert_eq!(sorted, vec![1.0, 1.0, 2.0, 3.0, 3.0]);
    assert!(sorted_samples(&[]).is_empty());
}
