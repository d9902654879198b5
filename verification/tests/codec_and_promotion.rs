use hyperloglog::{DenseHyperLogLog, HyperLogLog, SetHyperLogLog, SparseHyperLogLog};

#[test]
fn bucket_and_value_are_deterministic() {
    let dense = match DenseHyperLogLog::with_prefix_length(4) {
        Ok(d) => d,
        Err(_) => panic!("prefix length 4 must be accepted"),
    };
    let hashes = [
        0x0000000000000000u64,
        0x8000000000000000u64,
        0xFFFFFFFF00000000u64,
        0xFFFFFFFFFFFFFFFFu64,
        0x123456789ABCDEF0u64,
    ];
    for h in hashes {
        assert_eq!(dense.find_bucket(h), dense.find_bucket(h));
        assert_eq!(dense.find_value(h), dense.find_value(h));
    }
    let sparse = SparseHyperLogLog::new();
    for h in hashes {
        assert_eq!(sparse.find_bucket(h), sparse.find_bucket(h));
        assert_eq!(sparse.find_value(h), sparse.find_value(h));
    }
}

#[test]
fn dense_buckets_and_values_at_prefix_four() {
    let dense = match DenseHyperLogLog::with_prefix_length(4) {
        Ok(d) => d,
        Err(_) => panic!("prefix length 4 must be accepted"),
    };
    assert_eq!(dense.find_bucket(0x0000000000000000), 0);
    assert_eq!(dense.find_bucket(0x8000000000000000), 8);
    assert_eq!(dense.find_bucket(0xFFFFFFFF00000000), 15);
    assert_eq!(dense.find_bucket(0xFFFFFFFFFFFFFFFF), 15);
    // 1 + trailing zero count, capped at the 60 bits outside the prefix.
    assert_eq!(dense.find_value(0x0000000000000000), 61);
    assert_eq!(dense.find_value(0x8000000000000000), 61);
    assert_eq!(dense.find_value(0xFFFFFFFF00000000), 33);
    assert_eq!(dense.find_value(0xFFFFFFFFFFFFFFFF), 1);
}

#[test]
fn sparse_values_carry_the_plus_one_convention() {
    let sparse = SparseHyperLogLog::new();
    // 1 + trailing zero count, capped at the 39 bits outside the prefix.
    assert_eq!(sparse.find_value(0), 40);
    assert_eq!(sparse.find_value(1), 1);
    assert_eq!(sparse.find_value(1 << 10), 11);
    assert_eq!(sparse.find_value(1 << 38), 39);
    assert_eq!(sparse.find_value(1 << 39), 40);
    assert_eq!(sparse.find_value(1 << 45), 40);
}

#[test]
fn promotion_reproduces_direct_dense_insertion() {
    // Hashes that exercise the saturated and the unsaturated reduction path.
    let hashes = [
        0u64,
        1u64,
        1u64 << 10,
        1u64 << 38,
        1u64 << 39,
        1u64 << 45,
        1u64 << 51,
        1u64 << 52,
        (7u64 << 52) | (1u64 << 44),
        0x123456789ABCDEF0u64,
    ];
    let mut sparse = SparseHyperLogLog::new();
    let mut direct = DenseHyperLogLog::new();
    for h in hashes {
        sparse.add(h);
        direct.add(h);
    }
    let promoted = DenseHyperLogLog::from_sparse(sparse);
    assert_eq!(promoted.num_buckets(), direct.num_buckets());
    for bucket in 0..promoted.num_buckets() {
        assert_eq!(promoted.get_value(bucket as u32), direct.get_value(bucket as u32));
    }
}

#[test]
fn reduction_of_a_saturated_entry_counts_prefix_zeros() {
    let mut sparse = SparseHyperLogLog::new();
    // Trailing zeros run into the sparse bucket bits: bucket 64, stored 40.
    sparse.add(1u64 << 45);
    assert_eq!(sparse.get_reduced_bucket(64, 12), 0);
    // 39 zeros outside the prefix plus the 6 trailing zeros of bucket 64.
    assert_eq!(sparse.get_total_zeros(64, 12), 45);
    // At the sparse prefix length itself the reduction changes nothing.
    assert_eq!(sparse.get_total_zeros(64, 25), 39);
}

#[test]
fn exact_membership_is_exact() {
    let mut exact = SetHyperLogLog::new();
    exact.add(42);
    assert!(exact.maybe_contains(42));
    assert!(!exact.maybe_contains(43));
}

#[test]
fn sparse_membership_is_bucket_level() {
    let mut sparse = SparseHyperLogLog::new();
    sparse.add(5u64 << 39);
    // Same bucket, different hash: a false positive.
    assert!(sparse.maybe_contains((5u64 << 39) | 1));
    assert!(sparse.maybe_contains(5u64 << 39));
    // A bucket never touched is never reported.
    assert!(!sparse.maybe_contains(6u64 << 39));
}

#[test]
fn dense_membership_compares_values() {
    let mut dense = DenseHyperLogLog::new();
    // Bucket 0, value 51.
    dense.add(1u64 << 50);
    assert!(dense.maybe_contains(1u64 << 50));
    // Same bucket, smaller value: a false positive.
    assert!(dense.maybe_contains(1));
    // Same bucket, larger value: not reported.
    assert!(!dense.maybe_contains(0));
}
