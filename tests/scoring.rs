use flechasdb_benchmark::{
    bessel_divisor, calculate_recall, from_order_key, order_key, order_statistics, Error, Recall,
};

#[test]
fn recall_of_itself_is_one() {
    let a: Vec<usize> = vec![4, 8, 15, 16, 23, 42];
    let r = calculate_recall(&a, &a).unwrap();
    assert_eq!(r, Recall { hits: 6, total: 6 });
}

#[test]
fn recall_counts_set_membership() {
    let reference: Vec<usize> = vec![1, 2, 3, 4];
    let results: Vec<usize> = vec![4, 9, 1, 7];
    let r = calculate_recall(&reference, &results).unwrap();
    assert_eq!(r, Recall { hits: 2, total: 4 });
    assert!(r.hits <= r.total);
}

#[test]
fn recall_with_no_overlap_is_zero() {
    let r = calculate_recall(&vec![1, 2], &vec![3, 4]).unwrap();
    assert_eq!(r, Recall { hits: 0, total: 2 });
}

#[test]
fn recall_length_mismatch() {
    assert_eq!(calculate_recall(&vec![1, 2, 3], &vec![1, 2]), Err(Error::LengthMismatch));
}

#[test]
fn recall_of_empty_results() {
    assert_eq!(calculate_recall(&vec![], &vec![]), Err(Error::EmptyInput));
}

fn keys(values: &[f64]) -> Vec<u64> {
    values.iter().map(|v| order_key(v.to_bits())).collect()
}

fn value(key: u64) -> f64 {
    f64::from_bits(from_order_key(key))
}

#[test]
fn nearest_rank_statistics_of_four() {
    let s = order_statistics(keys(&[3.0, 1.0, 4.0, 2.0])).unwrap();
    assert_eq!(value(s.min), 1.0);
    assert_eq!(value(s.q1), 2.0);
    assert_eq!(value(s.median), 3.0);
    assert_eq!(value(s.q3), 4.0);
    assert_eq!(value(s.max), 4.0);
    let sorted: Vec<f64> = s.sorted.iter().map(|k| value(*k)).collect();
    assert_eq!(sorted, vec![1.0, 2.0, 3.0, 4.0]);
}

#[test]
fn nearest_rank_statistics_of_eight() {
    let s = order_statistics(keys(&[9.0, 2.0, 4.0, 7.0, 4.0, 5.0, 4.0, 5.0])).unwrap();
    assert_eq!(value(s.min), 2.0);
    assert_eq!(value(s.q1), 4.0);
    assert_eq!(value(s.median), 5.0);
    assert_eq!(value(s.q3), 7.0);
    assert_eq!(value(s.max), 9.0);
}

#[test]
fn statistics_of_one_sample() {
    let s = order_statistics(vec![17]).unwrap();
    assert_eq!((s.min, s.q1, s.median, s.q3, s.max), (17, 17, 17, 17, 17));
}

#[test]
fn statistics_of_no_sample() {
    assert!(matches!(order_statistics(vec![]), Err(Error::EmptyInput)));
}

#[test]
fn order_keys_follow_float_order() {
    let values = [f64::NEG_INFINITY, -3.5, -0.0, 0.0, 1.0e-300, 2.5, f64::INFINITY];
    let ks = keys(&values);
    for w in ks.windows(2) {
        assert!(w[0] < w[1]);
    }
    for (v, k) in values.iter().zip(ks.iter()) {
        assert_eq!(from_order_key(*k), v.to_bits());
    }
    assert_ne!(order_key(2.5f64.to_bits()), 2.5f64.to_bits());
}

#[test]
fn standard_deviation_needs_two_samples() {
    assert_eq!(bessel_divisor(0), Err(Error::InsufficientSamples));
    assert_eq!(bessel_divisor(1), Err(Error::InsufficientSamples));
    assert_eq!(bessel_divisor(8), Ok(7));
}
