use flechasdb_benchmark::{nearest, Error};

fn bits(values: &[f32]) -> Vec<u32> {
    values.iter().map(|v| v.to_bits()).collect()
}

#[test]
fn picks_the_k_nearest_in_order() {
    let d = bits(&[5.0, 1.0, 3.0, 0.5, 4.0]);
    assert_eq!(nearest(&d, 3).unwrap(), vec![3, 1, 2]);
}

#[test]
fn equal_distances_break_by_identifier() {
    let d = bits(&[2.0, 1.0, 2.0, 1.0, 2.0]);
    assert_eq!(nearest(&d, 4).unwrap(), vec![1, 3, 0, 2]);
    assert_eq!(nearest(&d, 5).unwrap(), vec![1, 3, 0, 2, 4]);
}

#[test]
fn fewer_vectors_than_k_gives_all() {
    let d = bits(&[3.0, 0.0, 1.5]);
    assert_eq!(nearest(&d, 10).unwrap(), vec![1, 2, 0]);
}

#[test]
fn empty_set_and_zero_k() {
    assert_eq!(nearest(&Vec::new(), 3).unwrap(), Vec::<usize>::new());
    assert_eq!(nearest(&bits(&[1.0]), 0).unwrap(), Vec::<usize>::new());
}

#[test]
fn large_distances_rank_correctly() {
    let d = bits(&[1.0e30, 2.0e-30, f32::MAX, 7.0]);
    assert_eq!(nearest(&d, 4).unwrap(), vec![1, 3, 0, 2]);
}

#[test]
fn nan_distance_is_a_numeric_error() {
    let d = bits(&[1.0, f32::NAN, 0.0]);
    assert_eq!(nearest(&d, 2), Err(Error::NumericError));
}

#[test]
fn infinite_distance_is_a_numeric_error() {
    let d = bits(&[1.0, 2.0, f32::INFINITY]);
    assert_eq!(nearest(&d, 1), Err(Error::NumericError));
}

#[test]
fn result_matches_a_full_sort() {
    let values: Vec<f32> = (0..200u32).map(|i| ((i * 7919) % 101) as f32 * 0.25).collect();
    let d = bits(&values);
    let mut order: Vec<usize> = (0..values.len()).collect();
    order.sort_by(|&a, &b| values[a].partial_cmp(&values[b]).unwrap().then(a.cmp(&b)));
    for k in [1usize, 5, 17, 100, 200, 300] {
        let expected: Vec<usize> = order.iter().cloned().take(k).collect();
        assert_eq!(nearest(&d, k).unwrap(), expected);
    }
}
