mod codec;
mod constants;
mod dense_hll;
mod hyperloglog;
mod set_hll;
mod sparse_hll;

pub use codec::bucket_of;
pub use codec::lemma_bucket_in_range;
pub use codec::lemma_reduced_bucket_in_range;
pub use codec::lemma_value_in_range;
pub use codec::lemma_reduced_value_max;
pub use codec::max_u8;
pub use codec::lemma_codec_deterministic;
pub use codec::lemma_promotion_fidelity;
pub use codec::max_value_of;
pub use codec::reduced_bucket_of;
pub use codec::reduced_value_of;
pub use codec::reduced_zeros_of;
pub use codec::value_of;
pub use dense_hll::DenseHyperLogLog;
pub use dense_hll::dense_insert;
pub use dense_hll::lemma_dense_absorbs_fuses;
pub use dense_hll::lemma_dense_absorbs_sparse_fuses;
pub use dense_hll::lemma_dense_absorbs_sparse_unique;
pub use dense_hll::lemma_dense_absorbs_unique;
pub use dense_hll::lemma_dense_insert_idempotent;
pub use dense_hll::lemma_dense_insert_monotonic;
pub use dense_hll::lemma_dense_merge_associative;
pub use dense_hll::lemma_dense_merge_commutative;
pub use dense_hll::lemma_dense_merge_value_is_max;
pub use dense_hll::count_zeros;
pub use dense_hll::dense_absorbs;
pub use dense_hll::dense_absorbs_sparse;
pub use dense_hll::dense_merge_seqs;
pub use constants::DEFAULT_PREFIX_LENGTH;
pub use constants::SPARSE_PREFIX_LENGTH;
pub use hyperloglog::HllError;
pub use hyperloglog::HyperLogLog;
pub use hyperloglog::Merge;
pub use set_hll::SetHyperLogLog;
pub use set_hll::lemma_exact_add_idempotent;
pub use set_hll::lemma_exact_merge_associative;
pub use set_hll::lemma_exact_merge_commutative;
pub use sparse_hll::SparseHyperLogLog;
pub use sparse_hll::lemma_sparse_absorbs_fuses;
pub use sparse_hll::lemma_sparse_absorbs_unique;
pub use sparse_hll::lemma_sparse_insert_idempotent;
pub use sparse_hll::lemma_sparse_insert_monotonic;
pub use sparse_hll::lemma_sparse_insert_occupancy;
pub use sparse_hll::lemma_sparse_merge_associative;
pub use sparse_hll::lemma_sparse_merge_commutative;
pub use sparse_hll::lemma_sparse_merge_value_is_max;
pub use sparse_hll::sparse_absorbs;
pub use sparse_hll::sparse_insert;
pub use sparse_hll::sparse_merge_maps;
pub use sparse_hll::value_at;

use vstd::arithmetic::div_mod::{
    lemma_div_is_ordered, lemma_div_multiples_vanish, lemma_div_plus_one, lemma_div_pos_is_pos,
};
use vstd::arithmetic::mul::lemma_mul_inequality;
use vstd::prelude::*;

verus! {

/// Fixed-point scale of the linear-counting estimator: 2^20.
pub const LC_SCALE: u64 = 1048576;

/// Scaled sum the linear-counting estimator is built from: for each of the
/// `occupied` buckets, in the order they would fill up, the term
/// `total * LC_SCALE / j`, where `j` counts down from `total` — the harmonic
/// sum `total * (1/total + ... + 1/(total - occupied + 1))`, scaled by
/// `LC_SCALE`.  This sum is the expected number of distinct insertions needed
/// to occupy `occupied` buckets out of `total`, and approximates the textbook
/// linear-counting formula `total * ln(total / (total - occupied))`.
pub open spec fn lc_sum(total: int, occupied: int) -> int
    recommends
        0 <= occupied < total,
    decreases occupied,
{
    if occupied <= 0 {
        0
    } else {
        lc_sum(total, occupied - 1) + (total * LC_SCALE) / (total - occupied + 1)
    }
}

/// The linear-counting estimate for `occupied` occupied buckets out of
/// `total`: the scaled harmonic sum, rounded to the nearest integer.
pub open spec fn lc_estimate(total: int, occupied: int) -> int
    recommends
        0 <= occupied < total,
{
    (lc_sum(total, occupied) + (LC_SCALE as int) / 2) / (LC_SCALE as int)
}

/// Each term of the sum is at least `LC_SCALE` and at most `total * LC_SCALE`,
/// so the sum is bounded by `occupied * total * LC_SCALE` and grows by at
/// least `LC_SCALE` per occupied bucket.
proof fn lemma_lc_sum_bounds(total: int, occupied: int)
    requires
        0 <= occupied < total,
    ensures
        occupied * LC_SCALE <= lc_sum(total, occupied) <= occupied * (total * LC_SCALE),
    decreases occupied,
{
    if occupied > 0 {
        lemma_lc_sum_bounds(total, occupied - 1);
        let d = total - occupied + 1;
        let term = (total * LC_SCALE) / d;
        lemma_mul_inequality(d, total, LC_SCALE as int);
        lemma_div_is_ordered(d * LC_SCALE, total * LC_SCALE, d);
        lemma_div_multiples_vanish(LC_SCALE as int, d);
        assert(term >= LC_SCALE);
        lemma_mul_inequality(1, d, total * LC_SCALE);
        lemma_div_is_ordered(total * LC_SCALE, (total * LC_SCALE) * d, d);
        lemma_div_multiples_vanish(total * LC_SCALE, d);
        assert(term <= total * LC_SCALE);
        assert((occupied - 1) * LC_SCALE + LC_SCALE == occupied * LC_SCALE) by (nonlinear_arith);
        assert((occupied - 1) * (total * LC_SCALE) + total * LC_SCALE == occupied * (total
            * LC_SCALE)) by (nonlinear_arith);
    }
}

/// Linear-counting boundary, empty side: with no occupied bucket the estimate
/// is zero.
pub proof fn lemma_estimate_empty(total: int)
    requires
        total >= 1,
    ensures
        lc_estimate(total, 0) == 0,
{
}

/// Linear-counting boundary, growth side: as long as the estimator is not
/// saturated, each further occupied bucket strictly increases the estimate.
pub proof fn lemma_estimate_increases(total: int, occupied: int)
    requires
        0 <= occupied,
        occupied + 1 < total,
    ensures
        lc_estimate(total, occupied) < lc_estimate(total, occupied + 1),
{
    let s = LC_SCALE as int;
    let d = total - occupied;
    let term = (total * s) / d;
    lemma_mul_inequality(d, total, s);
    lemma_div_is_ordered(d * s, total * s, d);
    lemma_div_multiples_vanish(s, d);
    assert(term >= s);
    assert(lc_sum(total, occupied + 1) == lc_sum(total, occupied) + term);
    lemma_div_is_ordered(
        lc_sum(total, occupied) + s / 2 + s,
        lc_sum(total, occupied + 1) + s / 2,
        s,
    );
    lemma_div_plus_one(lc_sum(total, occupied) + s / 2, s);
}

/// The linear-counting estimator over `total_buckets` (a power of two, the
/// bucket range of a prefix length) of which `occupied_buckets` hold data.
/// Defined only below saturation; the callers report saturation instead of
/// calling it with every bucket occupied.
pub fn linear_counting(total_buckets: u64, occupied_buckets: u64) -> (estimate: u64)
    requires
        occupied_buckets < total_buckets,
        total_buckets <= (1u64 << (SPARSE_PREFIX_LENGTH as u64)),
    ensures
        estimate == lc_estimate(total_buckets as int, occupied_buckets as int),
{
    proof {
        assert((1u64 << (SPARSE_PREFIX_LENGTH as u64)) == 0x2000000u64) by (bit_vector);
    }
    let num: u128 = (total_buckets as u128) * (LC_SCALE as u128);
    assert(num <= 0x2000000u128 * 0x100000u128) by (nonlinear_arith)
        requires
            num == (total_buckets as u128) * (LC_SCALE as u128),
            total_buckets <= 0x2000000u64,
    ;
    let mut sum: u128 = 0;
    for i in it: 0..occupied_buckets
        invariant
            sum == lc_sum(total_buckets as int, i as int),
            sum <= (i as u128) * num,
            num == (total_buckets as u128) * (LC_SCALE as u128),
            num <= 0x2000000u128 * 0x100000u128,
            occupied_buckets < total_buckets,
            total_buckets <= 0x2000000u64,
    {
        proof {
            lemma_div_pos_is_pos(num as int, (total_buckets - i) as int);
            lemma_div_is_ordered(num as int, num as int, (total_buckets - i) as int)
            ;
            vstd::arithmetic::div_mod::lemma_div_nonincreasing(num as int, (total_buckets
                - i) as int);
            assert((i as u128) * num + num == ((i + 1) as u128) * num) by (nonlinear_arith);
            assert(((i + 1) as u128) * num <= 0x2000000u128 * (0x2000000u128 * 0x100000u128))
                by (nonlinear_arith)
                requires
                    i + 1 <= 0x2000000u128,
                    num <= 0x2000000u128 * 0x100000u128,
            ;
        }
        sum = sum + num / ((total_buckets - i) as u128);
    }
    proof {
        assert(sum <= 0x1FFFFFFint * 0x200000000000int) by (nonlinear_arith)
            requires
                sum <= (occupied_buckets as u128) * num,
                occupied_buckets < 0x2000000u64,
                num <= 0x2000000u128 * 0x100000u128,
                0 <= num,
        ;
        lemma_div_is_ordered(
            sum as int + 524288,
            0x1FFFFFFint * 0x200000000000int + 524288,
            LC_SCALE as int,
        );
        assert((0x1FFFFFFint * 0x200000000000int + 524288) / (LC_SCALE as int)
            < 0x10000000000000000int);
    }
    ((sum + (LC_SCALE / 2) as u128) / (LC_SCALE as u128)) as u64
}

} // verus!
