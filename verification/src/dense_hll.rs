//! The dense representation: a fixed array of one value per bucket at a
//! short prefix length.  Memory is `2^prefix_length` bytes whatever the
//! cardinality, which makes it the bounded-memory representation used once
//! the cardinality is large.

use crate::codec::{
    bucket_of, lemma_bucket_in_range, lemma_reduced_bucket_in_range, max_u8, reduced_bucket_of,
    reduced_value_of, value_of,
};
use crate::constants::{DEFAULT_PREFIX_LENGTH, SPARSE_PREFIX_LENGTH};
use crate::hyperloglog::{HllError, HyperLogLog, Merge};
use crate::lc_estimate;
use crate::linear_counting;
use crate::set_hll::SetHyperLogLog;
use crate::sparse_hll::SparseHyperLogLog;
use vstd::prelude::*;

verus! {

/// The number of zero-valued (never observed) buckets of an array.
pub open spec fn count_zeros(s: Seq<u8>) -> int
    decreases s.len(),
{
    if s.len() == 0 {
        0
    } else {
        count_zeros(s.drop_last()) + (if s.last() == 0 {
            1int
        } else {
            0int
        })
    }
}

/// The element-wise maximum of two equal-length bucket arrays.
pub open spec fn dense_merge_seqs(a: Seq<u8>, b: Seq<u8>) -> Seq<u8>
    recommends
        a.len() == b.len(),
{
    Seq::new(a.len(), |i: int| max_u8(a[i], b[i]))
}

/// What it means for an array `out` to be `base` with every hash of `hashes`
/// folded in at `prefix_length`: every bucket is at least its `base` value
/// and at least the value of every hash that lands in it, and holds nothing
/// more than one of those.  This pins `out` down completely.
pub open spec fn dense_absorbs(
    base: Seq<u8>,
    prefix_length: u32,
    hashes: Set<u64>,
    out: Seq<u8>,
) -> bool {
    &&& out.len() == base.len()
    &&& forall|i: int| 0 <= i < out.len() ==> #[trigger] out[i] >= base[i]
    &&& forall|h: u64| #[trigger]
        hashes.contains(h) ==> out[bucket_of(h, prefix_length) as int] >= value_of(
            h,
            prefix_length,
        )
    &&& forall|i: int|
        0 <= i < out.len() ==> #[trigger] out[i] == base[i] || (exists|h: u64|
            #![auto]
            hashes.contains(h) && bucket_of(h, prefix_length) as int == i && value_of(
                h,
                prefix_length,
            ) == out[i])
}

/// What it means for an array `out` to be `base` with every entry of the
/// sparse mapping `sparse` folded in, reduced to `prefix_length`.
pub open spec fn dense_absorbs_sparse(
    base: Seq<u8>,
    prefix_length: u32,
    sparse: Map<u32, u8>,
    out: Seq<u8>,
) -> bool {
    &&& out.len() == base.len()
    &&& forall|i: int| 0 <= i < out.len() ==> #[trigger] out[i] >= base[i]
    &&& forall|b: u32| #[trigger]
        sparse.contains_key(b) ==> out[reduced_bucket_of(b, prefix_length) as int]
            >= reduced_value_of(b, sparse[b], prefix_length)
    &&& forall|i: int|
        0 <= i < out.len() ==> #[trigger] out[i] == base[i] || (exists|b: u32|
            #![auto]
            sparse.contains_key(b) && reduced_bucket_of(b, prefix_length) as int == i
                && reduced_value_of(b, sparse[b], prefix_length) == out[i])
}

/// One bucket/value pair folded into a bucket array: the slot ends at the
/// maximum of the new value and what it held before.
pub open spec fn dense_insert(s: Seq<u8>, bucket: int, value: u8) -> Seq<u8>
    recommends
        0 <= bucket < s.len(),
{
    s.update(bucket, max_u8(value, s[bucket]))
}

/// Folding the same bucket/value pair in twice leaves the array as folding
/// it once does: dense add is idempotent on the structure.
pub proof fn lemma_dense_insert_idempotent(s: Seq<u8>, bucket: int, value: u8)
    requires
        0 <= bucket < s.len(),
    ensures
        dense_insert(dense_insert(s, bucket, value), bucket, value) == dense_insert(
            s,
            bucket,
            value,
        ),
{
    assert(dense_insert(dense_insert(s, bucket, value), bucket, value) =~= dense_insert(
        s,
        bucket,
        value,
    ));
}

/// A fold never decreases a stored value, so repeated insertion can only
/// grow what the estimator has seen.
pub proof fn lemma_dense_insert_monotonic(s: Seq<u8>, bucket: int, value: u8)
    requires
        0 <= bucket < s.len(),
    ensures
        forall|i: int| 0 <= i < s.len() ==> #[trigger] dense_insert(s, bucket, value)[i] >= s[i],
{
}

/// Merging dense estimators is commutative: the element-wise maximum does
/// not depend on which side is `self`.
pub proof fn lemma_dense_merge_commutative(a: Seq<u8>, b: Seq<u8>)
    requires
        a.len() == b.len(),
    ensures
        dense_merge_seqs(a, b) == dense_merge_seqs(b, a),
{
    assert(dense_merge_seqs(a, b) =~= dense_merge_seqs(b, a));
}

/// Merging dense estimators is associative.
pub proof fn lemma_dense_merge_associative(a: Seq<u8>, b: Seq<u8>, c: Seq<u8>)
    requires
        a.len() == b.len(),
        b.len() == c.len(),
    ensures
        dense_merge_seqs(dense_merge_seqs(a, b), c) == dense_merge_seqs(
            a,
            dense_merge_seqs(b, c),
        ),
{
    assert(dense_merge_seqs(dense_merge_seqs(a, b), c) =~= dense_merge_seqs(
        a,
        dense_merge_seqs(b, c),
    ));
}

/// Merge correctness via maximum: every bucket of a merged array holds the
/// maximum of the two inputs' values there.
pub proof fn lemma_dense_merge_value_is_max(a: Seq<u8>, b: Seq<u8>, bucket: int)
    requires
        a.len() == b.len(),
        0 <= bucket < a.len(),
    ensures
        dense_merge_seqs(a, b)[bucket] == max_u8(a[bucket], b[bucket]),
{
}

/// Two arrays that both absorb the same hash set over the same base are
/// equal: the absorption contract pins the merge result down completely.
pub proof fn lemma_dense_absorbs_unique(
    base: Seq<u8>,
    prefix_length: u32,
    hashes: Set<u64>,
    o1: Seq<u8>,
    o2: Seq<u8>,
)
    requires
        dense_absorbs(base, prefix_length, hashes, o1),
        dense_absorbs(base, prefix_length, hashes, o2),
    ensures
        o1 == o2,
{
    assert forall|i: int| 0 <= i < o1.len() implies #[trigger] o1[i] == o2[i] by {
        assert(o1[i] <= o2[i]) by {
            if o1[i] != base[i] {
                let h = choose|h: u64|
                    #![auto]
                    hashes.contains(h) && bucket_of(h, prefix_length) as int == i && value_of(
                        h,
                        prefix_length,
                    ) == o1[i];
                assert(o2[i] >= value_of(h, prefix_length));
            }
        }
        assert(o2[i] <= o1[i]) by {
            if o2[i] != base[i] {
                let h = choose|h: u64|
                    #![auto]
                    hashes.contains(h) && bucket_of(h, prefix_length) as int == i && value_of(
                        h,
                        prefix_length,
                    ) == o2[i];
                assert(o1[i] >= value_of(h, prefix_length));
            }
        }
    }
    assert(o1 =~= o2);
}

/// Two arrays that both absorb the same sparse mapping over the same base
/// are equal.
pub proof fn lemma_dense_absorbs_sparse_unique(
    base: Seq<u8>,
    prefix_length: u32,
    sparse: Map<u32, u8>,
    o1: Seq<u8>,
    o2: Seq<u8>,
)
    requires
        dense_absorbs_sparse(base, prefix_length, sparse, o1),
        dense_absorbs_sparse(base, prefix_length, sparse, o2),
    ensures
        o1 == o2,
{
    assert forall|i: int| 0 <= i < o1.len() implies #[trigger] o1[i] == o2[i] by {
        assert(o1[i] <= o2[i]) by {
            if o1[i] != base[i] {
                let b = choose|b: u32|
                    #![auto]
                    sparse.contains_key(b) && reduced_bucket_of(b, prefix_length) as int == i
                        && reduced_value_of(b, sparse[b], prefix_length) == o1[i];
                assert(o2[i] >= reduced_value_of(b, sparse[b], prefix_length));
            }
        }
        assert(o2[i] <= o1[i]) by {
            if o2[i] != base[i] {
                let b = choose|b: u32|
                    #![auto]
                    sparse.contains_key(b) && reduced_bucket_of(b, prefix_length) as int == i
                        && reduced_value_of(b, sparse[b], prefix_length) == o2[i];
                assert(o1[i] >= reduced_value_of(b, sparse[b], prefix_length));
            }
        }
    }
    assert(o1 =~= o2);
}

/// Merge associativity across kinds, exact side: folding one hash set and
/// then another into a dense estimator leaves the same content as folding
/// their union in at once.
pub proof fn lemma_dense_absorbs_fuses(
    base: Seq<u8>,
    prefix_length: u32,
    first: Set<u64>,
    second: Set<u64>,
    mid: Seq<u8>,
    out: Seq<u8>,
)
    requires
        prefix_length <= 32,
        base.len() == (1u64 << (prefix_length as u64)),
        dense_absorbs(base, prefix_length, first, mid),
        dense_absorbs(mid, prefix_length, second, out),
    ensures
        dense_absorbs(base, prefix_length, first.union(second), out),
{
    let all = first.union(second);
    assert forall|h: u64| #[trigger] all.contains(h) implies out[bucket_of(
        h,
        prefix_length,
    ) as int] >= value_of(h, prefix_length) by {
        lemma_bucket_in_range(h, prefix_length);
        let b = bucket_of(h, prefix_length) as int;
        if first.contains(h) {
            assert(mid[b] >= value_of(h, prefix_length));
            assert(out[b] >= mid[b]);
        } else {
            assert(second.contains(h));
        }
    }
    assert forall|i: int| 0 <= i < out.len() implies #[trigger] out[i] == base[i] || (exists|
        h: u64,
    |
        #![auto]
        all.contains(h) && bucket_of(h, prefix_length) as int == i && value_of(h, prefix_length)
            == out[i]) by {
        if out[i] != base[i] {
            if out[i] == mid[i] {
                let h = choose|h: u64|
                    #![auto]
                    first.contains(h) && bucket_of(h, prefix_length) as int == i && value_of(
                        h,
                        prefix_length,
                    ) == mid[i];
                assert(all.contains(h));
            } else {
                let h = choose|h: u64|
                    #![auto]
                    second.contains(h) && bucket_of(h, prefix_length) as int == i && value_of(
                        h,
                        prefix_length,
                    ) == out[i];
                assert(all.contains(h));
            }
        }
    }
}

/// Merge associativity across kinds, sparse side: promoting one sparse
/// mapping and then another into a dense estimator leaves the same content
/// as promoting their sparse merge at once — so merging the sparse sides
/// first cannot change a dense result.
pub proof fn lemma_dense_absorbs_sparse_fuses(
    base: Seq<u8>,
    prefix_length: u32,
    first: Map<u32, u8>,
    second: Map<u32, u8>,
    mid: Seq<u8>,
    out: Seq<u8>,
)
    requires
        prefix_length <= SPARSE_PREFIX_LENGTH,
        base.len() == (1u64 << (prefix_length as u64)),
        forall|b: u32| #[trigger]
            first.contains_key(b) ==> (b as u64) < (1u64 << (SPARSE_PREFIX_LENGTH as u64)) && 1
                <= first[b] <= crate::codec::max_value_of(SPARSE_PREFIX_LENGTH),
        forall|b: u32| #[trigger]
            second.contains_key(b) ==> (b as u64) < (1u64 << (SPARSE_PREFIX_LENGTH as u64)) && 1
                <= second[b] <= crate::codec::max_value_of(SPARSE_PREFIX_LENGTH),
        dense_absorbs_sparse(base, prefix_length, first, mid),
        dense_absorbs_sparse(mid, prefix_length, second, out),
    ensures
        dense_absorbs_sparse(
            base,
            prefix_length,
            crate::sparse_hll::sparse_merge_maps(first, second),
            out,
        ),
{
    let merged = crate::sparse_hll::sparse_merge_maps(first, second);
    assert forall|b: u32| #[trigger] merged.contains_key(b) implies out[reduced_bucket_of(
        b,
        prefix_length,
    ) as int] >= reduced_value_of(b, merged[b], prefix_length) by {
        lemma_reduced_bucket_in_range(b, prefix_length);
        let i = reduced_bucket_of(b, prefix_length) as int;
        if first.contains_key(b) && second.contains_key(b) {
            crate::codec::lemma_reduced_value_max(b, first[b], second[b], prefix_length);
            assert(mid[i] >= reduced_value_of(b, first[b], prefix_length));
            assert(out[i] >= mid[i]);
            assert(out[i] >= reduced_value_of(b, second[b], prefix_length));
        } else if first.contains_key(b) {
            assert(merged[b] == first[b]);
            assert(mid[i] >= reduced_value_of(b, first[b], prefix_length));
            assert(out[i] >= mid[i]);
        } else {
            assert(merged[b] == second[b]);
            assert(out[i] >= reduced_value_of(b, second[b], prefix_length));
        }
    }
    assert forall|i: int| 0 <= i < out.len() implies #[trigger] out[i] == base[i] || (exists|
        b: u32,
    |
        #![auto]
        merged.contains_key(b) && reduced_bucket_of(b, prefix_length) as int == i
            && reduced_value_of(b, merged[b], prefix_length) == out[i]) by {
        if out[i] != base[i] {
            if out[i] == mid[i] {
                let b = choose|b: u32|
                    #![auto]
                    first.contains_key(b) && reduced_bucket_of(b, prefix_length) as int == i
                        && reduced_value_of(b, first[b], prefix_length) == mid[i];
                if second.contains_key(b) {
                    crate::codec::lemma_reduced_value_max(b, first[b], second[b], prefix_length);
                }
                assert(merged.contains_key(b));
                assert(reduced_value_of(b, merged[b], prefix_length) >= out[i]);
                assert(out[i] >= reduced_value_of(b, merged[b], prefix_length));
            } else {
                let b = choose|b: u32|
                    #![auto]
                    second.contains_key(b) && reduced_bucket_of(b, prefix_length) as int == i
                        && reduced_value_of(b, second[b], prefix_length) == out[i];
                if first.contains_key(b) {
                    crate::codec::lemma_reduced_value_max(b, first[b], second[b], prefix_length);
                }
                assert(merged.contains_key(b));
                assert(reduced_value_of(b, merged[b], prefix_length) >= out[i]);
                assert(out[i] >= reduced_value_of(b, merged[b], prefix_length));
            }
        }
    }
}

/// A dense estimator.  Its view is the bucket array.
pub struct DenseHyperLogLog {
    pub prefix_length: u32,
    pub buckets: Vec<u8>,
}

impl View for DenseHyperLogLog {
    type V = Seq<u8>;

    open spec fn view(&self) -> Seq<u8> {
        self.buckets@
    }
}

/// A zero-filled bucket array.
fn zeroed_buckets(count: usize) -> (buckets: Vec<u8>)
    ensures
        buckets@.len() == count,
        forall|i: int| 0 <= i < count ==> buckets@[i] == 0,
{
    let mut buckets: Vec<u8> = Vec::new();
    while buckets.len() < count
        invariant
            buckets@.len() <= count,
            forall|i: int| 0 <= i < buckets@.len() ==> buckets@[i] == 0,
        decreases count - buckets@.len(),
    {
        buckets.push(0);
    }
    buckets
}

impl DenseHyperLogLog {
    /// A dense estimator at any prefix length up to the sparse prefix
    /// length; a longer one is refused, since a sparse estimator could then
    /// not be promoted into it.
    pub fn with_prefix_length(prefix_length: u32) -> (result: Result<DenseHyperLogLog, HllError>)
        ensures
            prefix_length <= SPARSE_PREFIX_LENGTH ==> (result matches Ok(d) && d.wf()
                && d.prefix_length == prefix_length && (forall|i: int|
                0 <= i < d@.len() ==> d@[i] == 0)),
            prefix_length > SPARSE_PREFIX_LENGTH ==> result == Err::<DenseHyperLogLog, HllError>(
                HllError::ConfigurationError,
            ),
    {
        if prefix_length > SPARSE_PREFIX_LENGTH {
            return Err(HllError::ConfigurationError);
        }
        proof {
            assert(prefix_length <= 25 ==> (1usize << prefix_length) as u64 == 1u64 << (
            prefix_length as u64)) by (bit_vector);
        }
        let bucket_count = 1usize << prefix_length;
        Ok(DenseHyperLogLog { prefix_length, buckets: zeroed_buckets(bucket_count) })
    }

    /// The number of buckets of the array: `2^prefix_length`.
    pub fn num_buckets(&self) -> (count: usize)
        ensures
            count == self@.len(),
    {
        self.buckets.len()
    }

    /// The bucket of a hash at this estimator's prefix length: its top bits.
    pub fn find_bucket(&self, hash: u64) -> (bucket: u32)
        requires
            self.prefix_length <= 32,
        ensures
            bucket == bucket_of(hash, self.prefix_length),
    {
        if self.prefix_length == 0 {
            0
        } else {
            let shift: u64 = (64 - self.prefix_length) as u64;
            (hash >> shift) as u32
        }
    }

    /// The value of a hash at this estimator's prefix length: one more than
    /// its trailing zero count, capped at the bits outside the bucket prefix.
    pub fn find_value(&self, hash: u64) -> (value: u8)
        requires
            self.prefix_length <= 64,
        ensures
            value == value_of(hash, self.prefix_length),
    {
        let num_zeros = hash.trailing_zeros();
        let cap = 64 - self.prefix_length;
        let capped = if num_zeros > cap {
            cap
        } else {
            num_zeros
        };
        (capped + 1) as u8
    }

    /// The value stored for a bucket; 0 means the bucket was never observed.
    pub fn get_value(&self, bucket: u32) -> (value: u8)
        requires
            (bucket as int) < self@.len(),
        ensures
            value == self@[bucket as int],
    {
        self.buckets[bucket as usize]
    }

    /// Fold one bucket/value pair into the array, keeping the maximum of the
    /// new and the stored value.
    pub fn insert(&mut self, bucket: u32, value: u8)
        requires
            (bucket as int) < old(self)@.len(),
        ensures
            final(self).prefix_length == old(self).prefix_length,
            final(self)@ == old(self)@.update(
                bucket as int,
                max_u8(value, old(self)@[bucket as int]),
            ),
    {
        let index = bucket as usize;
        let current = self.buckets[index];
        let merged = if value >= current {
            value
        } else {
            current
        };
        self.buckets[index] = merged;
    }

    /// Promote an exact estimator: fold every hash it holds into a fresh
    /// dense estimator at the default prefix length.
    pub fn from(set_hll: SetHyperLogLog) -> (result: Self)
        ensures
            result.wf(),
            result.prefix_length == DEFAULT_PREFIX_LENGTH,
            dense_absorbs(
                Seq::new((1u64 << (DEFAULT_PREFIX_LENGTH as u64)) as nat, |i: int| 0u8),
                DEFAULT_PREFIX_LENGTH,
                set_hll@,
                result@,
            ),
    {
        let fresh = DenseHyperLogLog::new();
        proof {
            assert(fresh@ =~= Seq::new(
                (1u64 << (DEFAULT_PREFIX_LENGTH as u64)) as nat,
                |i: int| 0u8,
            ));
        }
        fresh.merge(set_hll)
    }

    /// Promote a sparse estimator: reduce every occupied sparse bucket into
    /// a fresh dense estimator at the default prefix length.
    pub fn from_sparse(sparse_hll: SparseHyperLogLog) -> (result: Self)
        requires
            sparse_hll.wf(),
        ensures
            result.wf(),
            result.prefix_length == DEFAULT_PREFIX_LENGTH,
            dense_absorbs_sparse(
                Seq::new((1u64 << (DEFAULT_PREFIX_LENGTH as u64)) as nat, |i: int| 0u8),
                DEFAULT_PREFIX_LENGTH,
                sparse_hll@,
                result@,
            ),
    {
        let fresh = DenseHyperLogLog::new();
        proof {
            assert(fresh@ =~= Seq::new(
                (1u64 << (DEFAULT_PREFIX_LENGTH as u64)) as nat,
                |i: int| 0u8,
            ));
        }
        fresh.merge(sparse_hll)
    }
}

impl HyperLogLog for DenseHyperLogLog {
    /// The array has exactly one value per bucket of the prefix length, and
    /// the prefix length is short enough for sparse promotion.
    open spec fn wf(&self) -> bool {
        &&& self.prefix_length <= SPARSE_PREFIX_LENGTH
        &&& self.buckets@.len() == (1u64 << (self.prefix_length as u64))
    }

    fn new() -> (result: Self)
        ensures
            result.prefix_length == DEFAULT_PREFIX_LENGTH,
            forall|i: int| 0 <= i < result@.len() ==> result@[i] == 0,
    {
        proof {
            assert((1usize << DEFAULT_PREFIX_LENGTH) as u64 == 1u64 << (
            DEFAULT_PREFIX_LENGTH as u64)) by (bit_vector);
        }
        let bucket_count = 1usize << DEFAULT_PREFIX_LENGTH;
        DenseHyperLogLog { prefix_length: DEFAULT_PREFIX_LENGTH, buckets: zeroed_buckets(bucket_count) }
    }

    fn add(&mut self, hash: u64)
        ensures
            final(self).prefix_length == old(self).prefix_length,
            final(self)@ == old(self)@.update(
                bucket_of(hash, old(self).prefix_length) as int,
                max_u8(
                    value_of(hash, old(self).prefix_length),
                    old(self)@[bucket_of(hash, old(self).prefix_length) as int],
                ),
            ),
    {
        let bucket = self.find_bucket(hash);
        let value = self.find_value(hash);
        proof {
            lemma_bucket_in_range(hash, self.prefix_length);
        }
        self.insert(bucket, value);
    }

    /// Value-level presence: true exactly when the stored value of this
    /// hash's bucket is at least the value the hash would produce.  A false
    /// positive occurs whenever another hash drove the bucket this high; a
    /// hash whose exact bucket/value was inserted is never denied.
    fn maybe_contains(&self, hash: u64) -> (present: bool)
        ensures
            present == (self@[bucket_of(hash, self.prefix_length) as int] >= value_of(
                hash,
                self.prefix_length,
            )),
    {
        let bucket = self.find_bucket(hash);
        let value = self.find_value(hash);
        proof {
            lemma_bucket_in_range(hash, self.prefix_length);
        }
        self.buckets[bucket as usize] >= value
    }

    /// The linear-counting estimate over the zero-valued buckets, or
    /// `HllError::EstimatorSaturated` once no bucket is zero.  Linear
    /// counting is the documented formula of this library; it is accurate at
    /// low occupancy and degrades as the array fills, until it reports
    /// saturation instead of an undefined value.
    fn cardinality(&self) -> (count: Result<u64, HllError>)
        ensures
            count_zeros(self@) > 0 ==> count == Ok::<u64, HllError>(
                lc_estimate(self@.len() as int, self@.len() - count_zeros(self@)) as u64,
            ),
            count_zeros(self@) == 0 ==> count == Err::<u64, HllError>(
                HllError::EstimatorSaturated,
            ),
    {
        let total = self.buckets.len();
        let mut zeros: u64 = 0;
        for i in 0..total
            invariant
                total == self.buckets@.len(),
                zeros == count_zeros(self.buckets@.take(i as int)),
                zeros <= i,
        {
            proof {
                assert(self.buckets@.take(i as int + 1).drop_last() =~= self.buckets@.take(
                    i as int,
                ));
                assert(self.buckets@.take(i as int + 1).last() == self.buckets@[i as int]);
            }
            if self.buckets[i] == 0 {
                zeros = zeros + 1;
            }
        }
        proof {
            assert(self.buckets@.take(total as int) =~= self.buckets@);
            let p = self.prefix_length;
            assert(p <= 25 ==> (1u64 << (p as u64)) <= (1u64 << (SPARSE_PREFIX_LENGTH as u64)))
                by (bit_vector);
        }
        if zeros == 0 {
            Err(HllError::EstimatorSaturated)
        } else {
            Ok(linear_counting(total as u64, (total as u64) - zeros))
        }
    }
}

impl Merge<DenseHyperLogLog> for DenseHyperLogLog {
    type Output = Result<DenseHyperLogLog, HllError>;

    open spec fn merge_pre(self, rhs: DenseHyperLogLog) -> bool {
        self.wf() && rhs.wf()
    }

    /// The element-wise maximum of the two arrays, when both were built at
    /// the same prefix length; `HllError::DimensionMismatch` otherwise,
    /// never a silent truncation.
    fn merge(self, rhs: DenseHyperLogLog) -> (result: Self::Output)
        ensures
            self.prefix_length == rhs.prefix_length ==> (result matches Ok(d) && d.wf()
                && d.prefix_length == self.prefix_length && d@ == dense_merge_seqs(self@, rhs@)),
            self.prefix_length != rhs.prefix_length ==> result == Err::<
                DenseHyperLogLog,
                HllError,
            >(HllError::DimensionMismatch),
    {
        if self.prefix_length != rhs.prefix_length {
            return Err(HllError::DimensionMismatch);
        }
        let mut out = self;
        let ghost a = out.buckets@;
        let ghost p0 = out.prefix_length;
        let total = out.buckets.len();
        for i in 0..total
            invariant
                out.prefix_length == p0,
                out.buckets@.len() == a.len(),
                a.len() == total,
                rhs.buckets@.len() == total,
                forall|j: int|
                    0 <= j < i ==> #[trigger] out.buckets@[j] == max_u8(a[j], rhs.buckets@[j]),
                forall|j: int| i <= j < total ==> #[trigger] out.buckets@[j] == a[j],
        {
            let current = out.buckets[i];
            let other = rhs.buckets[i];
            let merged = if current >= other {
                current
            } else {
                other
            };
            out.buckets[i] = merged;
        }
        proof {
            assert(out.buckets@ =~= dense_merge_seqs(a, rhs.buckets@));
        }
        Ok(out)
    }
}

impl Merge<SetHyperLogLog> for DenseHyperLogLog {
    type Output = DenseHyperLogLog;

    open spec fn merge_pre(self, rhs: SetHyperLogLog) -> bool {
        self.wf()
    }

    /// Fold every hash of the exact side into the dense side; the result is
    /// dense.
    fn merge(self, rhs: SetHyperLogLog) -> (result: Self::Output)
        ensures
            result.wf(),
            result.prefix_length == self.prefix_length,
            dense_absorbs(self@, self.prefix_length, rhs@, result@),
    {
        let mut out = self;
        let ghost base = out.buckets@;
        let ghost p0 = out.prefix_length;
        for h in it: rhs.set.iter()
            invariant
                out.wf(),
                out.prefix_length == p0,
                out.buckets@.len() == base.len(),
                it.seq().unref().to_set() == rhs.set@,
                forall|idx: int|
                    0 <= idx < out.buckets@.len() ==> #[trigger] out.buckets@[idx] >= base[idx],
                forall|j: int|
                    0 <= j < it.index() ==> out.buckets@[bucket_of(
                        #[trigger] it.seq().unref()[j],
                        p0,
                    ) as int] >= value_of(it.seq().unref()[j], p0),
                forall|idx: int|
                    0 <= idx < out.buckets@.len() ==> #[trigger] out.buckets@[idx] == base[idx]
                        || (exists|j: int|
                        0 <= j < it.index() && bucket_of(#[trigger] it.seq().unref()[j], p0) as int
                            == idx && value_of(it.seq().unref()[j], p0) == out.buckets@[idx]),
                it.index() == it.seq().len() ==> dense_absorbs(base, p0, rhs.set@, out.buckets@),
        {
            proof {
                assert(*h == it.seq().unref()[it.index() as int]);
                lemma_bucket_in_range(*h, p0);
            }
            let ghost before = out.buckets@;
            out.add(*h);
            proof {
                lemma_dense_absorb_loop_step(
                    base,
                    p0,
                    rhs.set@,
                    it.seq().unref(),
                    it.index() as int,
                    before,
                    out.buckets@,
                );
            }
        }
        out
    }
}

impl Merge<DenseHyperLogLog> for SetHyperLogLog {
    type Output = DenseHyperLogLog;

    open spec fn merge_pre(self, rhs: DenseHyperLogLog) -> bool {
        rhs.wf()
    }

    /// The symmetric case: the exact side is folded into the dense side, so
    /// the content is the same whichever operand is `self`.
    fn merge(self, rhs: DenseHyperLogLog) -> (result: Self::Output)
        ensures
            result.wf(),
            result.prefix_length == rhs.prefix_length,
            dense_absorbs(rhs@, rhs.prefix_length, self@, result@),
    {
        rhs.merge(self)
    }
}

impl Merge<SparseHyperLogLog> for DenseHyperLogLog {
    type Output = DenseHyperLogLog;

    open spec fn merge_pre(self, rhs: SparseHyperLogLog) -> bool {
        self.wf() && rhs.wf()
    }

    /// Promote the sparse side into this estimator's prefix length through
    /// the bucket reduction, then keep the element-wise maximum.
    fn merge(self, rhs: SparseHyperLogLog) -> (result: Self::Output)
        ensures
            result.wf(),
            result.prefix_length == self.prefix_length,
            dense_absorbs_sparse(self@, self.prefix_length, rhs@, result@),
    {
        let mut out = self;
        let ghost base = out.buckets@;
        let ghost p0 = out.prefix_length;
        for kv in it: rhs.buckets.iter()
            invariant
                out.wf(),
                rhs.wf(),
                out.prefix_length == p0,
                p0 <= SPARSE_PREFIX_LENGTH,
                out.buckets@.len() == base.len(),
                forall|j: int|
                    0 <= j < it.seq().len() ==> rhs.buckets@.contains_key(
                        (#[trigger] it.seq().unref()[j]).0,
                    ) && rhs.buckets@[it.seq().unref()[j].0] == it.seq().unref()[j].1,
                it.seq().unref().to_set() == rhs.buckets@.kv_pairs(),
                forall|idx: int|
                    0 <= idx < out.buckets@.len() ==> #[trigger] out.buckets@[idx] >= base[idx],
                forall|j: int|
                    0 <= j < it.index() ==> out.buckets@[reduced_bucket_of(
                        (#[trigger] it.seq().unref()[j]).0,
                        p0,
                    ) as int] >= reduced_value_of(
                        it.seq().unref()[j].0,
                        it.seq().unref()[j].1,
                        p0,
                    ),
                forall|idx: int|
                    0 <= idx < out.buckets@.len() ==> #[trigger] out.buckets@[idx] == base[idx]
                        || (exists|j: int|
                        0 <= j < it.index() && reduced_bucket_of(
                            (#[trigger] it.seq().unref()[j]).0,
                            p0,
                        ) as int == idx && reduced_value_of(
                            it.seq().unref()[j].0,
                            it.seq().unref()[j].1,
                            p0,
                        ) == out.buckets@[idx]),
                it.index() == it.seq().len() ==> dense_absorbs_sparse(
                    base,
                    p0,
                    rhs.buckets@,
                    out.buckets@,
                ),
        {
            proof {
                assert(*kv.0 == it.seq().unref()[it.index() as int].0 && *kv.1 == it.seq().unref()[
                    it.index() as int].1);
                assert(rhs.buckets@.contains_key(*kv.0));
                lemma_reduced_bucket_in_range(*kv.0, p0);
            }
            let reduced = rhs.get_reduced_bucket(*kv.0, out.prefix_length);
            let zeros = rhs.get_total_zeros(*kv.0, out.prefix_length);
            let ghost before = out.buckets@;
            out.insert(reduced, zeros + 1);
            proof {
                lemma_dense_sparse_loop_step(
                    base,
                    p0,
                    rhs.buckets@,
                    it.seq().unref(),
                    it.index() as int,
                    before,
                    out.buckets@,
                );
            }
        }
        out
    }
}

impl Merge<DenseHyperLogLog> for SparseHyperLogLog {
    type Output = DenseHyperLogLog;

    open spec fn merge_pre(self, rhs: DenseHyperLogLog) -> bool {
        self.wf() && rhs.wf()
    }

    /// The symmetric case: the sparse side is promoted into the dense side,
    /// so the content is the same whichever operand is `self`.
    fn merge(self, rhs: DenseHyperLogLog) -> (result: Self::Output)
        ensures
            result.wf(),
            result.prefix_length == rhs.prefix_length,
            dense_absorbs_sparse(rhs@, rhs.prefix_length, self@, result@),
    {
        rhs.merge(self)
    }
}

/// The state of the set-into-dense merge loop one hash further.
proof fn lemma_dense_absorb_loop_step(
    base: Seq<u8>,
    prefix_length: u32,
    hashes: Set<u64>,
    s: Seq<u64>,
    i: int,
    prev: Seq<u8>,
    out: Seq<u8>,
)
    requires
        0 <= i < s.len(),
        s.to_set() == hashes,
        prefix_length <= 32,
        prev.len() == (1u64 << (prefix_length as u64)),
        (bucket_of(s[i], prefix_length) as int) < prev.len(),
        out == prev.update(
            bucket_of(s[i], prefix_length) as int,
            max_u8(
                value_of(s[i], prefix_length),
                prev[bucket_of(s[i], prefix_length) as int],
            ),
        ),
        prev.len() == base.len(),
        forall|idx: int| 0 <= idx < prev.len() ==> #[trigger] prev[idx] >= base[idx],
        forall|j: int|
            0 <= j < i ==> prev[bucket_of(#[trigger] s[j], prefix_length) as int] >= value_of(
                s[j],
                prefix_length,
            ),
        forall|idx: int|
            0 <= idx < prev.len() ==> #[trigger] prev[idx] == base[idx] || (exists|j: int|
                0 <= j < i && bucket_of(#[trigger] s[j], prefix_length) as int == idx && value_of(
                    s[j],
                    prefix_length,
                ) == prev[idx]),
    ensures
        out.len() == base.len(),
        forall|idx: int| 0 <= idx < out.len() ==> #[trigger] out[idx] >= base[idx],
        forall|j: int|
            0 <= j < i + 1 ==> out[bucket_of(#[trigger] s[j], prefix_length) as int] >= value_of(
                s[j],
                prefix_length,
            ),
        forall|idx: int|
            0 <= idx < out.len() ==> #[trigger] out[idx] == base[idx] || (exists|j: int|
                0 <= j < i + 1 && bucket_of(#[trigger] s[j], prefix_length) as int == idx
                    && value_of(s[j], prefix_length) == out[idx]),
        i + 1 == s.len() ==> dense_absorbs(base, prefix_length, hashes, out),
{
    let b = bucket_of(s[i], prefix_length) as int;
    assert forall|j: int| 0 <= j < i + 1 implies out[bucket_of(
        #[trigger] s[j],
        prefix_length,
    ) as int] >= value_of(s[j], prefix_length) by {
        lemma_bucket_in_range(s[j], prefix_length);
        if j < i {
            assert(prev[bucket_of(s[j], prefix_length) as int] >= value_of(s[j], prefix_length));
        }
    }
    assert forall|idx: int| 0 <= idx < out.len() implies #[trigger] out[idx] == base[idx] || (
    exists|j: int|
        0 <= j < i + 1 && bucket_of(#[trigger] s[j], prefix_length) as int == idx && value_of(
            s[j],
            prefix_length,
        ) == out[idx]) by {
        if idx == b && out[idx] == value_of(s[i], prefix_length) {
            assert(0 <= i < i + 1 && bucket_of(s[i], prefix_length) as int == idx && value_of(
                s[i],
                prefix_length,
            ) == out[idx]);
        } else {
            assert(out[idx] == prev[idx]);
        }
    }
    if i + 1 == s.len() {
        assert forall|h: u64| #[trigger] hashes.contains(h) implies out[bucket_of(
            h,
            prefix_length,
        ) as int] >= value_of(h, prefix_length) by {
            assert(s.to_set().contains(h));
            let j = choose|j: int| 0 <= j < s.len() && #[trigger] s[j] == h;
            assert(out[bucket_of(s[j], prefix_length) as int] >= value_of(s[j], prefix_length));
        }
        assert forall|idx: int| 0 <= idx < out.len() implies #[trigger] out[idx] == base[idx] || (
        exists|h: u64|
            #![auto]
            hashes.contains(h) && bucket_of(h, prefix_length) as int == idx && value_of(
                h,
                prefix_length,
            ) == out[idx]) by {
            if out[idx] != base[idx] {
                let j = choose|j: int|
                    0 <= j < i + 1 && bucket_of(#[trigger] s[j], prefix_length) as int == idx
                        && value_of(s[j], prefix_length) == out[idx];
                assert(hashes.contains(s[j]));
            }
        }
        assert(dense_absorbs(base, prefix_length, hashes, out));
    }
}

/// The state of the sparse-into-dense merge loop one pair further.
proof fn lemma_dense_sparse_loop_step(
    base: Seq<u8>,
    prefix_length: u32,
    sparse: Map<u32, u8>,
    s: Seq<(u32, u8)>,
    i: int,
    prev: Seq<u8>,
    out: Seq<u8>,
)
    requires
        0 <= i < s.len(),
        forall|j: int|
            0 <= j < s.len() ==> sparse.contains_key((#[trigger] s[j]).0) && sparse[s[j].0]
                == s[j].1,
        s.to_set() == sparse.kv_pairs(),
        prefix_length <= SPARSE_PREFIX_LENGTH,
        prev.len() == (1u64 << (prefix_length as u64)),
        forall|bk: u32| #[trigger]
            sparse.contains_key(bk) ==> (bk as u64) < (1u64 << (SPARSE_PREFIX_LENGTH as u64)),
        (reduced_bucket_of(s[i].0, prefix_length) as int) < prev.len(),
        out == prev.update(
            reduced_bucket_of(s[i].0, prefix_length) as int,
            max_u8(
                reduced_value_of(s[i].0, s[i].1, prefix_length),
                prev[reduced_bucket_of(s[i].0, prefix_length) as int],
            ),
        ),
        prev.len() == base.len(),
        forall|idx: int| 0 <= idx < prev.len() ==> #[trigger] prev[idx] >= base[idx],
        forall|j: int|
            0 <= j < i ==> prev[reduced_bucket_of((#[trigger] s[j]).0, prefix_length) as int]
                >= reduced_value_of(s[j].0, s[j].1, prefix_length),
        forall|idx: int|
            0 <= idx < prev.len() ==> #[trigger] prev[idx] == base[idx] || (exists|j: int|
                0 <= j < i && reduced_bucket_of((#[trigger] s[j]).0, prefix_length) as int == idx
                    && reduced_value_of(s[j].0, s[j].1, prefix_length) == prev[idx]),
    ensures
        out.len() == base.len(),
        forall|idx: int| 0 <= idx < out.len() ==> #[trigger] out[idx] >= base[idx],
        forall|j: int|
            0 <= j < i + 1 ==> out[reduced_bucket_of((#[trigger] s[j]).0, prefix_length) as int]
                >= reduced_value_of(s[j].0, s[j].1, prefix_length),
        forall|idx: int|
            0 <= idx < out.len() ==> #[trigger] out[idx] == base[idx] || (exists|j: int|
                0 <= j < i + 1 && reduced_bucket_of((#[trigger] s[j]).0, prefix_length) as int
                    == idx && reduced_value_of(s[j].0, s[j].1, prefix_length) == out[idx]),
        i + 1 == s.len() ==> dense_absorbs_sparse(base, prefix_length, sparse, out),
{
    let b = reduced_bucket_of(s[i].0, prefix_length) as int;
    assert forall|j: int| 0 <= j < i + 1 implies out[reduced_bucket_of(
        (#[trigger] s[j]).0,
        prefix_length,
    ) as int] >= reduced_value_of(s[j].0, s[j].1, prefix_length) by {
        lemma_reduced_bucket_in_range(s[j].0, prefix_length);
        if j < i {
            assert(prev[reduced_bucket_of(s[j].0, prefix_length) as int] >= reduced_value_of(
                s[j].0,
                s[j].1,
                prefix_length,
            ));
        }
    }
    assert forall|idx: int| 0 <= idx < out.len() implies #[trigger] out[idx] == base[idx] || (
    exists|j: int|
        0 <= j < i + 1 && reduced_bucket_of((#[trigger] s[j]).0, prefix_length) as int == idx
            && reduced_value_of(s[j].0, s[j].1, prefix_length) == out[idx]) by {
        if idx == b && out[idx] == reduced_value_of(s[i].0, s[i].1, prefix_length) {
            assert(0 <= i < i + 1 && reduced_bucket_of(s[i].0, prefix_length) as int == idx);
        } else {
            assert(out[idx] == prev[idx]);
        }
    }
    if i + 1 == s.len() {
        assert forall|bk: u32| #[trigger] sparse.contains_key(bk) implies out[reduced_bucket_of(
            bk,
            prefix_length,
        ) as int] >= reduced_value_of(bk, sparse[bk], prefix_length) by {
            assert(sparse.kv_pairs().contains((bk, sparse[bk])));
            assert(s.to_set().contains((bk, sparse[bk])));
            let j = choose|j: int| 0 <= j < s.len() && #[trigger] s[j] == (bk, sparse[bk]);
            assert(out[reduced_bucket_of(s[j].0, prefix_length) as int] >= reduced_value_of(
                s[j].0,
                s[j].1,
                prefix_length,
            ));
        }
        assert forall|idx: int| 0 <= idx < out.len() implies #[trigger] out[idx] == base[idx] || (
        exists|bk: u32|
            #![auto]
            sparse.contains_key(bk) && reduced_bucket_of(bk, prefix_length) as int == idx
                && reduced_value_of(bk, sparse[bk], prefix_length) == out[idx]) by {
            if out[idx] != base[idx] {
                let j = choose|j: int|
                    0 <= j < i + 1 && reduced_bucket_of((#[trigger] s[j]).0, prefix_length) as int
                        == idx && reduced_value_of(s[j].0, s[j].1, prefix_length) == out[idx];
                assert(sparse.contains_key(s[j].0) && sparse[s[j].0] == s[j].1);
            }
        }
        assert(dense_absorbs_sparse(base, prefix_length, sparse, out));
    }
}

} // verus!
