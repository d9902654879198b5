use hyperloglog::{DenseHyperLogLog, HyperLogLog, Merge, SetHyperLogLog, SparseHyperLogLog};

fn exact_of(hashes: &[u64]) -> SetHyperLogLog {
    let mut e = SetHyperLogLog::new();
    for h in hashes {
        e.add(*h);
    }
    e
}

fn sparse_of(hashes: &[u64]) -> SparseHyperLogLog {
    let mut s = SparseHyperLogLog::new();
    for h in hashes {
        s.add(*h);
    }
    s
}

fn dense_of(hashes: &[u64]) -> DenseHyperLogLog {
    let mut d = DenseHyperLogLog::new();
    for h in hashes {
        d.add(*h);
    }
    d
}

/// The stored value of an occupied sparse bucket, read through the public
/// reduction at the sparse prefix length itself, which subtracts the +1.
fn sparse_value(s: &SparseHyperLogLog, bucket: u32) -> u8 {
    s.get_total_zeros(bucket, 25) + 1
}

const A_HASHES: &[u64] = &[0, 1, 1 << 20, 3 << 39, 0xDEADBEEF12345678];
const B_HASHES: &[u64] = &[1 << 20, 5 << 39, 7 << 50, 0xFFFFFFFFFFFFFFFF];
const C_HASHES: &[u64] = &[2, 3 << 39, 9 << 41];

#[test]
fn exact_merge_is_commutative_and_associative() {
    let ab = exact_of(A_HASHES).merge(exact_of(B_HASHES));
    let ba = exact_of(B_HASHES).merge(exact_of(A_HASHES));
    assert_eq!(ab.cardinality(), ba.cardinality());
    for h in A_HASHES.iter().chain(B_HASHES.iter()) {
        assert!(ab.maybe_contains(*h));
        assert!(ba.maybe_contains(*h));
    }
    let ab_c = exact_of(A_HASHES).merge(exact_of(B_HASHES)).merge(exact_of(C_HASHES));
    let a_bc = exact_of(A_HASHES).merge(exact_of(B_HASHES).merge(exact_of(C_HASHES)));
    assert_eq!(ab_c.cardinality(), a_bc.cardinality());
    assert_eq!(ab_c.cardinality(), Ok(10));
}

#[test]
fn sparse_merge_is_commutative_and_associative() {
    let ab = sparse_of(A_HASHES).merge(sparse_of(B_HASHES));
    let ba = sparse_of(B_HASHES).merge(sparse_of(A_HASHES));
    assert_eq!(ab.occupied_buckets(), ba.occupied_buckets());
    for h in A_HASHES.iter().chain(B_HASHES.iter()) {
        let bucket = ab.find_bucket(*h);
        assert_eq!(sparse_value(&ab, bucket), sparse_value(&ba, bucket));
    }
    let ab_c = sparse_of(A_HASHES).merge(sparse_of(B_HASHES)).merge(sparse_of(C_HASHES));
    let a_bc = sparse_of(A_HASHES).merge(sparse_of(B_HASHES).merge(sparse_of(C_HASHES)));
    assert_eq!(ab_c.occupied_buckets(), a_bc.occupied_buckets());
    for h in A_HASHES.iter().chain(B_HASHES.iter()).chain(C_HASHES.iter()) {
        let bucket = ab_c.find_bucket(*h);
        assert_eq!(sparse_value(&ab_c, bucket), sparse_value(&a_bc, bucket));
    }
}

#[test]
fn dense_merge_is_commutative_and_associative() {
    let ab = dense_of(A_HASHES).merge(dense_of(B_HASHES)).unwrap();
    let ba = dense_of(B_HASHES).merge(dense_of(A_HASHES)).unwrap();
    let ab_c = dense_of(A_HASHES).merge(dense_of(B_HASHES)).unwrap().merge(
        dense_of(C_HASHES),
    ).unwrap();
    let a_bc = dense_of(A_HASHES).merge(
        dense_of(B_HASHES).merge(dense_of(C_HASHES)).unwrap(),
    ).unwrap();
    for bucket in 0..ab.num_buckets() {
        assert_eq!(ab.get_value(bucket as u32), ba.get_value(bucket as u32));
        assert_eq!(ab_c.get_value(bucket as u32), a_bc.get_value(bucket as u32));
    }
}

#[test]
fn mixed_merges_agree_in_both_orders() {
    let sparse_set = sparse_of(A_HASHES).merge(exact_of(B_HASHES));
    let set_sparse = exact_of(B_HASHES).merge(sparse_of(A_HASHES));
    assert_eq!(sparse_set.occupied_buckets(), set_sparse.occupied_buckets());
    let dense_set = dense_of(A_HASHES).merge(exact_of(B_HASHES));
    let set_dense = exact_of(B_HASHES).merge(dense_of(A_HASHES));
    let dense_sparse = dense_of(A_HASHES).merge(sparse_of(B_HASHES));
    let sparse_dense = sparse_of(B_HASHES).merge(dense_of(A_HASHES));
    for bucket in 0..dense_set.num_buckets() {
        assert_eq!(dense_set.get_value(bucket as u32), set_dense.get_value(bucket as u32));
        assert_eq!(dense_sparse.get_value(bucket as u32), sparse_dense.get_value(bucket as u32));
    }
}

#[test]
fn merged_value_is_the_bucket_maximum() {
    // Same dense bucket 0, different values: 51 and 53.
    let a = dense_of(&[1 << 50]);
    let b = dense_of(&[0]);
    assert_eq!(a.get_value(0), 51);
    assert_eq!(b.get_value(0), 53);
    let merged = a.merge(b).unwrap();
    assert_eq!(merged.get_value(0), 53);

    // Same sparse bucket, different values: 11 and 21.
    let s1 = sparse_of(&[(9u64 << 39) | (1 << 10)]);
    let s2 = sparse_of(&[(9u64 << 39) | (1 << 20)]);
    assert_eq!(sparse_value(&s1, 9), 11);
    assert_eq!(sparse_value(&s2, 9), 21);
    let merged_sparse = s1.merge(s2);
    assert_eq!(sparse_value(&merged_sparse, 9), 21);
    assert_eq!(merged_sparse.occupied_buckets(), 1);
}

#[test]
fn dense_merge_of_unequal_prefix_lengths_is_refused() {
    let small = DenseHyperLogLog::with_prefix_length(4).unwrap();
    let default = DenseHyperLogLog::new();
    match small.merge(default) {
        Err(e) => assert_eq!(e, hyperloglog::HllError::DimensionMismatch),
        Ok(_) => panic!("merging different prefix lengths must be refused"),
    }
}

#[test]
fn four_hashes_into_a_prefix_four_dense_estimator() {
    let hashes = [
        0x0000000000000000u64,
        0x8000000000000000u64,
        0xFFFFFFFF00000000u64,
        0xFFFFFFFFFFFFFFFFu64,
    ];
    let mut dense = DenseHyperLogLog::with_prefix_length(4).unwrap();
    for h in hashes {
        dense.add(h);
    }
    assert_eq!(dense.get_value(0), 61);
    assert_eq!(dense.get_value(8), 61);
    assert_eq!(dense.get_value(15), 33);
    assert_eq!(dense.cardinality(), Ok(3));
    // Merging with an exact estimator of the same hashes changes nothing.
    let merged = dense.merge(exact_of(&hashes));
    assert_eq!(merged.cardinality(), Ok(3));
}

#[test]
fn disjoint_sparse_merge_bounds_the_occupied_buckets() {
    let mut first: Vec<u64> = Vec::new();
    for i in 1..=100u64 {
        first.push(i << 39);
    }
    let mut second: Vec<u64> = Vec::new();
    for i in 201..=205u64 {
        second.push(i << 39);
    }
    let a = sparse_of(&first);
    let b = sparse_of(&second);
    let occupied_a = a.occupied_buckets();
    let occupied_b = b.occupied_buckets();
    assert_eq!(occupied_a, 100);
    assert_eq!(occupied_b, 5);
    let merged = a.merge(b);
    assert!(merged.occupied_buckets() <= occupied_a + occupied_b);
    assert!(merged.occupied_buckets() >= occupied_a);
    assert_eq!(merged.cardinality(), Ok(105));
}
