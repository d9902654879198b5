//! The bucket/value codec shared by every representation.
//!
//! A 64-bit hash is mapped, at a given prefix length `p`, to
//! - a bucket: the top `p` bits of the hash, and
//! - a value: one more than the number of trailing zero bits of the hash,
//!   capped at the number of bits outside the bucket prefix (`64 - p`).
//!
//! The same functions are used by the sparse and the dense representation at
//! their respective prefix lengths, and the reduction of a sparse bucket/value
//! pair to a shorter (dense) prefix length is proved to agree exactly with
//! mapping the original hash at the shorter prefix length
//! (`lemma_promotion_fidelity`).

use crate::constants::SPARSE_PREFIX_LENGTH;
use vstd::prelude::*;
use vstd::std_specs::bits::{u32_trailing_zeros, u64_trailing_zeros};

verus! {

/// The larger of two stored values; merges keep, per bucket, the maximum
/// value ever observed.
pub open spec fn max_u8(a: u8, b: u8) -> u8 {
    if a >= b {
        a
    } else {
        b
    }
}

/// The bucket index of `hash` at `prefix_length`: the top `prefix_length`
/// bits of the hash.
pub open spec fn bucket_of(hash: u64, prefix_length: u32) -> u32
    recommends
        prefix_length <= 32,
{
    if prefix_length == 0 {
        0
    } else {
        (hash >> ((64 - prefix_length) as u64)) as u32
    }
}

/// The value of `hash` at `prefix_length`: one more than the number of
/// trailing zero bits of the hash, capped at `64 - prefix_length`, so that a
/// hash whose non-prefix bits are all zero is still representable and
/// distinguishable from "no data" (a stored zero).
pub open spec fn value_of(hash: u64, prefix_length: u32) -> u8
    recommends
        prefix_length <= 64,
{
    let zeros = u64_trailing_zeros(hash);
    if zeros > 64 - prefix_length {
        ((64 - prefix_length) + 1) as u8
    } else {
        (zeros + 1) as u8
    }
}

/// The largest value the codec can produce at `prefix_length`.  A stored
/// sparse value equal to `max_value_of(SPARSE_PREFIX_LENGTH)` is saturated:
/// the run of zero bits may continue into the bits that the sparse bucket
/// prefix consumed.
pub open spec fn max_value_of(prefix_length: u32) -> u8
    recommends
        prefix_length <= 64,
{
    ((64 - prefix_length) + 1) as u8
}

/// The dense bucket that a sparse bucket reduces to at the shorter
/// `prefix_length`: drop the extra low-order bucket bits.
pub open spec fn reduced_bucket_of(bucket: u32, prefix_length: u32) -> u32
    recommends
        prefix_length <= SPARSE_PREFIX_LENGTH,
{
    bucket >> ((SPARSE_PREFIX_LENGTH - prefix_length) as u32)
}

/// The number of trailing zero bits that a sparse entry stands for once its
/// bucket is reduced to the shorter `prefix_length`.  A stored value below the
/// saturation point records its run directly; a saturated value is extended by
/// the trailing zeros of the excess prefix bits of the sparse bucket, capped
/// (through the stop bit) at the number of excess bits.
pub open spec fn reduced_zeros_of(bucket: u32, stored: u8, prefix_length: u32) -> u8
    recommends
        prefix_length <= SPARSE_PREFIX_LENGTH,
        1 <= stored <= max_value_of(SPARSE_PREFIX_LENGTH),
{
    if stored == max_value_of(SPARSE_PREFIX_LENGTH) {
        let stop_bit = 1u32 << ((SPARSE_PREFIX_LENGTH - prefix_length) as u32);
        ((stored - 1) + u32_trailing_zeros(bucket | stop_bit)) as u8
    } else {
        (stored - 1) as u8
    }
}

/// The dense value that a sparse entry reduces to at the shorter
/// `prefix_length`: the reduced run of zeros, plus one by the convention of
/// `value_of`.
pub open spec fn reduced_value_of(bucket: u32, stored: u8, prefix_length: u32) -> u8
    recommends
        prefix_length <= SPARSE_PREFIX_LENGTH,
        1 <= stored <= max_value_of(SPARSE_PREFIX_LENGTH),
{
    (reduced_zeros_of(bucket, stored, prefix_length) + 1) as u8
}

/// Reduction commutes with taking the larger of two stored values, so
/// merging sparse entries before or after promotion gives the same dense
/// value.
pub proof fn lemma_reduced_value_max(bucket: u32, v1: u8, v2: u8, prefix_length: u32)
    requires
        prefix_length <= SPARSE_PREFIX_LENGTH,
        1 <= v1 <= max_value_of(SPARSE_PREFIX_LENGTH),
        1 <= v2 <= max_value_of(SPARSE_PREFIX_LENGTH),
    ensures
        reduced_value_of(bucket, max_u8(v1, v2), prefix_length) == max_u8(
            reduced_value_of(bucket, v1, prefix_length),
            reduced_value_of(bucket, v2, prefix_length),
        ),
{
    let stop_bit = 1u32 << ((SPARSE_PREFIX_LENGTH - prefix_length) as u32);
    assert(u32_trailing_zeros(bucket | stop_bit) >= 0);
}

/// The bucket of a hash fits in the bucket range of its prefix length.
pub proof fn lemma_bucket_in_range(hash: u64, prefix_length: u32)
    requires
        prefix_length <= 32,
    ensures
        (bucket_of(hash, prefix_length) as u64) < (1u64 << (prefix_length as u64)),
{
    if prefix_length == 0 {
        assert(0u64 < (1u64 << 0u64)) by (bit_vector);
    } else {
        let p = prefix_length;
        assert(1 <= p <= 32 ==> (((hash >> ((64 - p) as u64)) as u32) as u64) < (1u64 << (
        p as u64))) by (bit_vector);
    }
}

/// A sparse bucket reduces to a bucket in the range of the shorter prefix
/// length.
pub proof fn lemma_reduced_bucket_in_range(bucket: u32, prefix_length: u32)
    requires
        prefix_length <= SPARSE_PREFIX_LENGTH,
        (bucket as u64) < (1u64 << (SPARSE_PREFIX_LENGTH as u64)),
    ensures
        (reduced_bucket_of(bucket, prefix_length) as u64) < (1u64 << (prefix_length as u64)),
{
    let p = prefix_length;
    assert((bucket as u64) < (1u64 << 25u64) && p <= 25 ==> ((bucket >> ((25u32 - p) as u32)) as u64)
        < (1u64 << (p as u64))) by (bit_vector);
}

/// The value of a hash is at least 1 and at most the cap of its prefix length.
pub proof fn lemma_value_in_range(hash: u64, prefix_length: u32)
    requires
        prefix_length <= 64,
    ensures
        1 <= value_of(hash, prefix_length),
        value_of(hash, prefix_length) <= max_value_of(prefix_length),
{
    let zeros = u64_trailing_zeros(hash);
    assert(0 <= zeros <= 64);
}

/// Bucket/value determinism: the bucket and the value derived from a hash are
/// pure functions of the hash and the prefix length, so any two derivations
/// from the same pair agree.
pub proof fn lemma_codec_deterministic(
    hash: u64,
    prefix_length: u32,
    b1: u32,
    b2: u32,
    v1: u8,
    v2: u8,
)
    requires
        b1 == bucket_of(hash, prefix_length),
        b2 == bucket_of(hash, prefix_length),
        v1 == value_of(hash, prefix_length),
        v2 == value_of(hash, prefix_length),
    ensures
        b1 == b2,
        v1 == v2,
{
}

/// Promotion fidelity: reducing the sparse bucket/value pair of a hash to a
/// shorter prefix length yields exactly the bucket/value pair that mapping
/// the hash directly at the shorter prefix length yields.
pub proof fn lemma_promotion_fidelity(hash: u64, prefix_length: u32)
    requires
        prefix_length <= SPARSE_PREFIX_LENGTH,
    ensures
        reduced_bucket_of(bucket_of(hash, SPARSE_PREFIX_LENGTH), prefix_length) == bucket_of(
            hash,
            prefix_length,
        ),
        reduced_value_of(
            bucket_of(hash, SPARSE_PREFIX_LENGTH),
            value_of(hash, SPARSE_PREFIX_LENGTH),
            prefix_length,
        ) == value_of(hash, prefix_length),
{
    let p = prefix_length;
    let b = bucket_of(hash, SPARSE_PREFIX_LENGTH);
    let sv = value_of(hash, SPARSE_PREFIX_LENGTH);
    let z = u64_trailing_zeros(hash);
    let excess = (SPARSE_PREFIX_LENGTH - p) as u32;
    let stop_bit = 1u32 << excess;
    let w = b | stop_bit;
    let zb = u32_trailing_zeros(w);

    // The bucket part.
    if p == 0 {
        lemma_bucket_in_range(hash, SPARSE_PREFIX_LENGTH);
        assert((b as u64) < (1u64 << 25u64) ==> b >> 25u32 == 0u32) by (bit_vector);
    } else {
        assert(1 <= p <= 25 ==> ((hash >> ((64 - 25u32) as u64)) as u32) >> ((25u32 - p) as u32)
            == (hash >> ((64 - p) as u64)) as u32) by (bit_vector);
    }

    // The value part.  Facts about the trailing zeros of the hash and of the
    // stopped reduced bucket, from vstd's axioms.
    assert(0 <= z <= 64 && (hash == 0 <==> z == 64));
    assert(0 <= zb <= 32 && (w == 0 <==> zb == 32));
    if z < 39 {
        // Not saturated: the stored value is the exact run plus one, and the
        // run is below every cap involved.
        assert(sv == z + 1);
        assert(value_of(hash, p) == z + 1);
        assert(sv < max_value_of(SPARSE_PREFIX_LENGTH));
    } else {
        // Saturated: the stored value is the cap, and the reduction adds the
        // trailing zeros of the excess prefix bits of the sparse bucket.
        assert(sv == max_value_of(SPARSE_PREFIX_LENGTH));
        assert(1u32 << excess != 0u32 ==> w != 0u32) by (bit_vector)
            requires
                w == b | (1u32 << excess),
        ;
        assert(excess <= 31 ==> 1u32 << excess != 0u32) by (bit_vector);
        assert(zb < 32);
        if hash == 0 {
            assert((0u64 >> ((64 - 25u32) as u64)) as u32 == 0u32) by (bit_vector);
            assert(b == 0);
            assert(b == 0u32 ==> b | (1u32 << excess) == 1u32 << excess) by (bit_vector);
            assert({
                &&& excess <= 25
                &&& w == 1u32 << excess
                &&& zb < 32 ==> (w >> zb) & 1u32 == 1u32
                &&& w << ((32 - zb) as u32) == 0u32
                &&& zb < 32
            } ==> zb == excess) by (bit_vector);
            assert(value_of(hash, p) == (64 - p) + 1);
            assert(reduced_zeros_of(b, sv, p) == 39 + excess);
        } else {
            assert(z < 64);
            assert((hash >> (z as u64)) & 1u64 == 1u64);
            assert(hash << ((64 - z) as u64) == 0u64);
            assert((w >> zb) & 1u32 == 1u32);
            assert(w << ((32 - zb) as u32) == 0u32);
            assert({
                &&& p <= 25
                &&& excess == 25 - p
                &&& b == (hash >> ((64 - 25u32) as u64)) as u32
                &&& w == b | (1u32 << excess)
                &&& 39 <= z < 64
                &&& (hash >> (z as u64)) & 1u64 == 1u64
                &&& hash << ((64 - z) as u64) == 0u64
                &&& zb < 32
                &&& (w >> zb) & 1u32 == 1u32
                &&& w << ((32 - zb) as u32) == 0u32
            } ==> zb == (if z > 64 - p {
                excess
            } else {
                (z - 39) as u32
            })) by (bit_vector);
            if z > 64 - p {
                assert(value_of(hash, p) == (64 - p) + 1);
                assert(zb == excess);
                assert(reduced_zeros_of(b, sv, p) == 39 + excess);
            } else {
                assert(value_of(hash, p) == z + 1);
                assert(reduced_zeros_of(b, sv, p) == 39 + (z - 39));
            }
        }
    }
}

} // verus!
