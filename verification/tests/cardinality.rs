use hyperloglog::{
    linear_counting, DenseHyperLogLog, HllError, HyperLogLog, Merge, SetHyperLogLog,
    SparseHyperLogLog,
};

#[test]
fn fresh_estimators_report_zero() {
    assert_eq!(SetHyperLogLog::new().cardinality(), Ok(0));
    assert_eq!(SparseHyperLogLog::new().cardinality(), Ok(0));
    assert_eq!(DenseHyperLogLog::new().cardinality(), Ok(0));
}

#[test]
fn linear_counting_formula_values() {
    // 16 buckets: round(16 * ln(16 / 13)) = 3, round(16 * ln 2) = 11.
    assert_eq!(linear_counting(16, 3), 3);
    assert_eq!(linear_counting(16, 8), 11);
    assert_eq!(linear_counting(16, 0), 0);
    // A single occupied bucket of a sparse-sized range counts as one.
    assert_eq!(linear_counting(1 << 25, 1), 1);
    assert_eq!(linear_counting(1 << 25, 105), 105);
}

#[test]
fn adding_the_same_hash_twice_changes_nothing() {
    let mut exact = SetHyperLogLog::new();
    exact.add(7);
    let once = exact.cardinality();
    exact.add(7);
    assert_eq!(exact.cardinality(), once);
    assert_eq!(exact.cardinality(), Ok(1));

    let mut sparse = SparseHyperLogLog::new();
    sparse.add(7 << 39);
    let sparse_once = sparse.cardinality();
    let occupied_once = sparse.occupied_buckets();
    sparse.add(7 << 39);
    assert_eq!(sparse.cardinality(), sparse_once);
    assert_eq!(sparse.occupied_buckets(), occupied_once);

    let mut dense = DenseHyperLogLog::new();
    dense.add(7 << 52);
    let value_once = dense.get_value(7);
    let dense_once = dense.cardinality();
    dense.add(7 << 52);
    assert_eq!(dense.get_value(7), value_once);
    assert_eq!(dense.cardinality(), dense_once);
}

#[test]
fn estimate_grows_as_buckets_fill() {
    let mut dense = DenseHyperLogLog::with_prefix_length(4).unwrap();
    let mut previous = 0u64;
    // Fill buckets 0..15 one at a time; each new bucket raises the estimate.
    for i in 0..15u64 {
        dense.add(i << 60);
        let estimate = dense.cardinality().unwrap();
        assert!(estimate > previous || (i == 0 && estimate == 1));
        previous = estimate;
    }
}

#[test]
fn eight_of_sixteen_buckets_estimate() {
    let mut dense = DenseHyperLogLog::with_prefix_length(4).unwrap();
    for i in 0..8u64 {
        dense.add(i << 60);
    }
    assert_eq!(dense.cardinality(), Ok(11));
}

#[test]
fn a_full_estimator_reports_saturation() {
    let mut tiny = DenseHyperLogLog::with_prefix_length(0).unwrap();
    assert_eq!(tiny.cardinality(), Ok(0));
    tiny.add(12345);
    assert_eq!(tiny.cardinality(), Err(HllError::EstimatorSaturated));

    let mut four = DenseHyperLogLog::with_prefix_length(2).unwrap();
    for i in 0..4u64 {
        four.add(i << 62);
    }
    assert_eq!(four.cardinality(), Err(HllError::EstimatorSaturated));
}

#[test]
fn an_oversized_prefix_length_is_refused() {
    match DenseHyperLogLog::with_prefix_length(26) {
        Err(e) => assert_eq!(e, HllError::ConfigurationError),
        Ok(_) => panic!("a prefix length beyond the sparse one must be refused"),
    }
    assert!(DenseHyperLogLog::with_prefix_length(25).is_ok());
}

#[test]
fn promotions_preserve_the_exact_content() {
    let hashes: Vec<u64> = (0..50u64).map(|i| i.wrapping_mul(0x9E3779B97F4A7C15)).collect();
    let mut exact = SetHyperLogLog::new();
    for h in &hashes {
        exact.add(*h);
    }
    assert_eq!(exact.cardinality(), Ok(50));
    let sparse = SparseHyperLogLog::from(exact);
    // 50 well-spread hashes land in 50 distinct sparse buckets.
    assert_eq!(sparse.occupied_buckets(), 50);
    assert_eq!(sparse.cardinality(), Ok(50));
    let dense = DenseHyperLogLog::from_sparse(sparse);
    let mut direct = DenseHyperLogLog::new();
    for h in &hashes {
        direct.add(*h);
    }
    for bucket in 0..dense.num_buckets() {
        assert_eq!(dense.get_value(bucket as u32), direct.get_value(bucket as u32));
    }
}

#[test]
fn merging_an_exact_estimator_into_dense_counts_its_hashes() {
    let mut exact = SetHyperLogLog::new();
    for i in 0..20u64 {
        exact.add(i.wrapping_mul(0x9E3779B97F4A7C15));
    }
    let dense = DenseHyperLogLog::new().merge(exact);
    assert_eq!(dense.cardinality(), Ok(20));
}
