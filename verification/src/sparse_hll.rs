//! The sparse representation: a mapping from bucket index to value at the
//! long sparse prefix length.  Memory grows with the number of distinct
//! buckets touched, not with the bucket range, so it is efficient while the
//! cardinality is well below the dense bucket count.

use crate::codec::{
    bucket_of, lemma_bucket_in_range, lemma_value_in_range, max_u8, max_value_of,
    reduced_bucket_of, reduced_zeros_of, value_of,
};
use crate::constants::SPARSE_PREFIX_LENGTH;
use crate::hyperloglog::{HllError, HyperLogLog, Merge};
use crate::lc_estimate;
use crate::linear_counting;
use crate::set_hll::SetHyperLogLog;
use std::collections::BTreeMap;
use vstd::prelude::*;

verus! {

/// The value a mapping holds at a bucket, taking 0 for an absent bucket.
pub open spec fn value_at(m: Map<u32, u8>, bucket: u32) -> u8 {
    if m.contains_key(bucket) {
        m[bucket]
    } else {
        0
    }
}

/// One bucket/value pair folded into a mapping: the bucket ends at the
/// maximum of the new value and whatever the mapping held for it before.
pub open spec fn sparse_insert(m: Map<u32, u8>, bucket: u32, value: u8) -> Map<u32, u8> {
    m.insert(bucket, max_u8(value, value_at(m, bucket)))
}

/// The element-wise maximum of two mappings, over the union of their
/// occupied buckets; a bucket absent on one side counts as 0 there.
pub open spec fn sparse_merge_maps(a: Map<u32, u8>, b: Map<u32, u8>) -> Map<u32, u8> {
    Map::new(
        |k: u32| a.contains_key(k) || b.contains_key(k),
        |k: u32| max_u8(value_at(a, k), value_at(b, k)),
    )
}

/// What it means for `m` to be `base` with every hash of `hashes` folded in
/// at the sparse prefix length: exactly the buckets of `base` and of the
/// hashes are occupied, every occupied bucket is at least `base`'s value and
/// at least the value of every hash that lands in it, and holds nothing more
/// than one of those.  This pins `m` down completely (each bucket holds the
/// maximum), without ordering the hashes.
pub open spec fn sparse_absorbs(base: Map<u32, u8>, hashes: Set<u64>, m: Map<u32, u8>) -> bool {
    &&& forall|k: u32|
        base.contains_key(k) ==> #[trigger] m.contains_key(k) && m[k] >= base[k]
    &&& forall|h: u64| #[trigger]
        hashes.contains(h) ==> m.contains_key(bucket_of(h, SPARSE_PREFIX_LENGTH)) && m[bucket_of(
            h,
            SPARSE_PREFIX_LENGTH,
        )] >= value_of(h, SPARSE_PREFIX_LENGTH)
    &&& forall|k: u32| #[trigger]
        m.contains_key(k) ==> base.contains_key(k) || (exists|h: u64|
            #![auto]
            hashes.contains(h) && bucket_of(h, SPARSE_PREFIX_LENGTH) == k)
    &&& forall|k: u32| #[trigger]
        m.contains_key(k) ==> m[k] == value_at(base, k) || (exists|h: u64|
            #![auto]
            hashes.contains(h) && bucket_of(h, SPARSE_PREFIX_LENGTH) == k && value_of(
                h,
                SPARSE_PREFIX_LENGTH,
            ) == m[k])
}

/// Folding the same bucket/value pair in twice leaves the mapping as folding
/// it once does: sparse add is idempotent on the structure.
pub proof fn lemma_sparse_insert_idempotent(m: Map<u32, u8>, bucket: u32, value: u8)
    ensures
        sparse_insert(sparse_insert(m, bucket, value), bucket, value) == sparse_insert(
            m,
            bucket,
            value,
        ),
{
    assert(sparse_insert(sparse_insert(m, bucket, value), bucket, value) =~= sparse_insert(
        m,
        bucket,
        value,
    ));
}

/// A fold never drops an occupied bucket and never decreases a stored value,
/// so repeated insertion can only grow what the estimator has seen.
pub proof fn lemma_sparse_insert_monotonic(m: Map<u32, u8>, bucket: u32, value: u8)
    ensures
        m.dom().subset_of(sparse_insert(m, bucket, value).dom()),
        forall|k: u32| #[trigger]
            m.contains_key(k) ==> sparse_insert(m, bucket, value)[k] >= m[k],
{
}

/// A fold occupies either no new bucket (the hash's bucket was already
/// occupied) or exactly one; together with the strict growth of the
/// linear-counting estimate in the occupancy, adding a hash never decreases
/// the reported cardinality.
pub proof fn lemma_sparse_insert_occupancy(m: Map<u32, u8>, bucket: u32, value: u8)
    requires
        m.dom().finite(),
    ensures
        m.contains_key(bucket) ==> sparse_insert(m, bucket, value).dom().len() == m.dom().len(),
        !m.contains_key(bucket) ==> sparse_insert(m, bucket, value).dom().len() == m.dom().len()
            + 1,
{
    if m.contains_key(bucket) {
        assert(sparse_insert(m, bucket, value).dom() =~= m.dom());
    } else {
        assert(sparse_insert(m, bucket, value).dom() =~= m.dom().insert(bucket));
    }
}

/// Merging sparse estimators is commutative: the element-wise maximum does
/// not depend on which side is `self`.
pub proof fn lemma_sparse_merge_commutative(a: Map<u32, u8>, b: Map<u32, u8>)
    ensures
        sparse_merge_maps(a, b) == sparse_merge_maps(b, a),
{
    assert(sparse_merge_maps(a, b) =~= sparse_merge_maps(b, a));
}

/// Merging sparse estimators is associative.
pub proof fn lemma_sparse_merge_associative(a: Map<u32, u8>, b: Map<u32, u8>, c: Map<u32, u8>)
    ensures
        sparse_merge_maps(sparse_merge_maps(a, b), c) == sparse_merge_maps(
            a,
            sparse_merge_maps(b, c),
        ),
{
    assert(sparse_merge_maps(sparse_merge_maps(a, b), c) =~= sparse_merge_maps(
        a,
        sparse_merge_maps(b, c),
    ));
}

/// Merge correctness via maximum: a merged mapping occupies exactly the
/// union of the occupied buckets, and holds at every bucket the maximum of
/// the two inputs' values there, an absent bucket counting as 0.
pub proof fn lemma_sparse_merge_value_is_max(a: Map<u32, u8>, b: Map<u32, u8>, bucket: u32)
    ensures
        sparse_merge_maps(a, b).contains_key(bucket) <==> (a.contains_key(bucket)
            || b.contains_key(bucket)),
        value_at(sparse_merge_maps(a, b), bucket) == max_u8(value_at(a, bucket), value_at(b, bucket)),
{
}

/// Two mappings that both absorb the same hash set over the same base are
/// equal: the absorption contract pins the merge result down completely.
pub proof fn lemma_sparse_absorbs_unique(
    base: Map<u32, u8>,
    hashes: Set<u64>,
    m1: Map<u32, u8>,
    m2: Map<u32, u8>,
)
    requires
        sparse_absorbs(base, hashes, m1),
        sparse_absorbs(base, hashes, m2),
    ensures
        m1 == m2,
{
    assert forall|k: u32|
        #![trigger m1.contains_key(k)]
        #![trigger m2.contains_key(k)]
        m1.contains_key(k) == m2.contains_key(k) && (m1.contains_key(k) ==> m1[k] == m2[k]) by {
        if m1.contains_key(k) && m2.contains_key(k) {
            assert(m1[k] <= m2[k]) by {
                if m1[k] != value_at(base, k) {
                    let h = choose|h: u64|
                        #![auto]
                        hashes.contains(h) && bucket_of(h, SPARSE_PREFIX_LENGTH) == k && value_of(
                            h,
                            SPARSE_PREFIX_LENGTH,
                        ) == m1[k];
                    assert(m2[k] >= value_of(h, SPARSE_PREFIX_LENGTH));
                }
            }
            assert(m2[k] <= m1[k]) by {
                if m2[k] != value_at(base, k) {
                    let h = choose|h: u64|
                        #![auto]
                        hashes.contains(h) && bucket_of(h, SPARSE_PREFIX_LENGTH) == k && value_of(
                            h,
                            SPARSE_PREFIX_LENGTH,
                        ) == m2[k];
                    assert(m1[k] >= value_of(h, SPARSE_PREFIX_LENGTH));
                }
            }
        }
    }
    assert(m1 =~= m2);
}

/// Merge associativity across kinds, exact side: folding one hash set and
/// then another into a sparse estimator leaves the same content as folding
/// their union in at once — so grouping exact merges differently before a
/// sparse merge cannot change the result.
pub proof fn lemma_sparse_absorbs_fuses(
    base: Map<u32, u8>,
    first: Set<u64>,
    second: Set<u64>,
    mid: Map<u32, u8>,
    out: Map<u32, u8>,
)
    requires
        sparse_absorbs(base, first, mid),
        sparse_absorbs(mid, second, out),
    ensures
        sparse_absorbs(base, first.union(second), out),
{
    let all = first.union(second);
    assert forall|h: u64| #[trigger] all.contains(h) implies out.contains_key(
        bucket_of(h, SPARSE_PREFIX_LENGTH),
    ) && out[bucket_of(h, SPARSE_PREFIX_LENGTH)] >= value_of(h, SPARSE_PREFIX_LENGTH) by {
        if first.contains(h) {
            let b = bucket_of(h, SPARSE_PREFIX_LENGTH);
            assert(mid.contains_key(b) && mid[b] >= value_of(h, SPARSE_PREFIX_LENGTH));
            assert(out.contains_key(b) && out[b] >= mid[b]);
        } else {
            assert(second.contains(h));
        }
    }
    assert forall|k: u32| #[trigger] out.contains_key(k) implies base.contains_key(k) || (exists|
        h: u64,
    |
        #![auto]
        all.contains(h) && bucket_of(h, SPARSE_PREFIX_LENGTH) == k) by {
        if !base.contains_key(k) {
            if mid.contains_key(k) {
                let h = choose|h: u64|
                    #![auto]
                    first.contains(h) && bucket_of(h, SPARSE_PREFIX_LENGTH) == k;
                assert(all.contains(h));
            } else {
                let h = choose|h: u64|
                    #![auto]
                    second.contains(h) && bucket_of(h, SPARSE_PREFIX_LENGTH) == k;
                assert(all.contains(h));
            }
        }
    }
    assert forall|k: u32| #[trigger] out.contains_key(k) implies out[k] == value_at(base, k) || (
    exists|h: u64|
        #![auto]
        all.contains(h) && bucket_of(h, SPARSE_PREFIX_LENGTH) == k && value_of(
            h,
            SPARSE_PREFIX_LENGTH,
        ) == out[k]) by {
        if out[k] != value_at(base, k) {
            if out[k] == value_at(mid, k) {
                if mid.contains_key(k) {
                    // The value came from the first set.
                    let h = choose|h: u64|
                        #![auto]
                        first.contains(h) && bucket_of(h, SPARSE_PREFIX_LENGTH) == k && value_of(
                            h,
                            SPARSE_PREFIX_LENGTH,
                        ) == mid[k];
                    assert(all.contains(h) && value_of(h, SPARSE_PREFIX_LENGTH) == out[k]);
                } else {
                    // A bucket occupied in `out` but absent from `mid` and
                    // `base` owes its membership to the second set, whose
                    // hash gives a value of at least 1; `value_at(mid, k)`
                    // is 0, a contradiction.
                    let h = choose|h: u64|
                        #![auto]
                        second.contains(h) && bucket_of(h, SPARSE_PREFIX_LENGTH) == k;
                    crate::codec::lemma_value_in_range(h, SPARSE_PREFIX_LENGTH);
                    assert(out[k] >= value_of(h, SPARSE_PREFIX_LENGTH));
                    assert(false);
                }
            } else {
                let h = choose|h: u64|
                    #![auto]
                    second.contains(h) && bucket_of(h, SPARSE_PREFIX_LENGTH) == k && value_of(
                        h,
                        SPARSE_PREFIX_LENGTH,
                    ) == out[k];
                assert(all.contains(h));
            }
        }
    }
}

/// A sparse estimator.  Its view is the mapping from occupied bucket to
/// stored value.
pub struct SparseHyperLogLog {
    pub buckets: BTreeMap<u32, u8>,
}

impl View for SparseHyperLogLog {
    type V = Map<u32, u8>;

    open spec fn view(&self) -> Map<u32, u8> {
        self.buckets@
    }
}

impl SparseHyperLogLog {
    /// The bucket of a hash at the sparse prefix length: its top bits.
    pub fn find_bucket(&self, hash: u64) -> (bucket: u32)
        ensures
            bucket == bucket_of(hash, SPARSE_PREFIX_LENGTH),
    {
        let shift: u64 = (64 - SPARSE_PREFIX_LENGTH) as u64;
        (hash >> shift) as u32
    }

    /// The value of a hash at the sparse prefix length: one more than its
    /// trailing zero count, capped at the bits outside the bucket prefix.
    pub fn find_value(&self, hash: u64) -> (value: u8)
        ensures
            value == value_of(hash, SPARSE_PREFIX_LENGTH),
    {
        let zeros = hash.trailing_zeros();
        let cap = 64 - SPARSE_PREFIX_LENGTH;
        let capped = if zeros > cap {
            cap
        } else {
            zeros
        };
        (capped + 1) as u8
    }

    /// Fold one bucket/value pair into the mapping, keeping the maximum of
    /// the new and the stored value.
    pub fn insert(&mut self, bucket: u32, value: u8)
        requires
            old(self).wf(),
            (bucket as u64) < (1u64 << (SPARSE_PREFIX_LENGTH as u64)),
            1 <= value <= max_value_of(SPARSE_PREFIX_LENGTH),
        ensures
            final(self).wf(),
            final(self)@ == sparse_insert(old(self)@, bucket, value),
    {
        let current = match self.buckets.get(&bucket) {
            Some(v) => *v,
            None => 0,
        };
        let merged = if value >= current {
            value
        } else {
            current
        };
        self.buckets.insert(bucket, merged);
    }

    /// The dense bucket that a sparse bucket reduces to at the shorter
    /// `prefix_length`: drop the extra low-order bucket bits.
    pub fn get_reduced_bucket(&self, bucket: u32, prefix_length: u32) -> (reduced: u32)
        requires
            prefix_length <= SPARSE_PREFIX_LENGTH,
        ensures
            reduced == reduced_bucket_of(bucket, prefix_length),
    {
        let excess_prefix_length = SPARSE_PREFIX_LENGTH - prefix_length;
        bucket >> excess_prefix_length
    }

    /// The run of zero bits that an occupied sparse bucket stands for at the
    /// shorter `prefix_length`.  A saturated stored value is extended by the
    /// trailing zeros of the excess prefix bits of the bucket index, capped
    /// through the stop bit at the number of excess bits.
    pub fn get_total_zeros(&self, bucket: u32, prefix_length: u32) -> (total_zeros: u8)
        requires
            self.wf(),
            self@.contains_key(bucket),
            prefix_length <= SPARSE_PREFIX_LENGTH,
        ensures
            total_zeros == reduced_zeros_of(bucket, self@[bucket], prefix_length),
            total_zeros <= 71,
    {
        let excess_prefix_length = SPARSE_PREFIX_LENGTH - prefix_length;
        let prefix_stop_bit = 1u32 << excess_prefix_length;
        let sparse_value_bits = (64 - SPARSE_PREFIX_LENGTH) as u8;
        let stored = match self.buckets.get(&bucket) {
            Some(v) => *v,
            None => {
                proof {
                    assert(false);
                }
                0
            },
        };
        let mut total_zeros = stored - 1;
        if stored == sparse_value_bits + 1 {
            let zeros_in_prefix = (bucket | prefix_stop_bit).trailing_zeros() as u8;
            total_zeros = total_zeros + zeros_in_prefix;
        }
        total_zeros
    }

    /// The number of occupied buckets.
    pub fn occupied_buckets(&self) -> (occupied: u64)
        ensures
            occupied == self@.dom().len(),
    {
        self.buckets.len() as u64
    }

    /// Promote an exact estimator: fold every hash it holds into a fresh
    /// sparse estimator.
    pub fn from(set_hll: SetHyperLogLog) -> (result: Self)
        ensures
            result.wf(),
            sparse_absorbs(Map::<u32, u8>::empty(), set_hll@, result@),
    {
        SparseHyperLogLog::new().merge(set_hll)
    }
}

impl HyperLogLog for SparseHyperLogLog {
    /// Occupied buckets lie in the sparse bucket range and hold codec values.
    open spec fn wf(&self) -> bool {
        forall|b: u32| #[trigger]
            self.buckets@.contains_key(b) ==> (b as u64) < (1u64 << (SPARSE_PREFIX_LENGTH as u64))
                && 1 <= self.buckets@[b] <= max_value_of(SPARSE_PREFIX_LENGTH)
    }

    fn new() -> (result: Self)
        ensures
            result@ == Map::<u32, u8>::empty(),
    {
        SparseHyperLogLog { buckets: BTreeMap::new() }
    }

    fn add(&mut self, hash: u64)
        ensures
            final(self)@ == sparse_insert(
                old(self)@,
                bucket_of(hash, SPARSE_PREFIX_LENGTH),
                value_of(hash, SPARSE_PREFIX_LENGTH),
            ),
    {
        let bucket = self.find_bucket(hash);
        let value = self.find_value(hash);
        proof {
            lemma_bucket_in_range(hash, SPARSE_PREFIX_LENGTH);
            lemma_value_in_range(hash, SPARSE_PREFIX_LENGTH);
        }
        self.insert(bucket, value);
    }

    /// Bucket-level presence: true exactly when some previously added hash
    /// landed in this hash's bucket.  A false positive occurs whenever any
    /// other hash wrote the bucket; a bucket never touched is never reported.
    fn maybe_contains(&self, hash: u64) -> (present: bool)
        ensures
            present == self@.contains_key(bucket_of(hash, SPARSE_PREFIX_LENGTH)),
    {
        let bucket = self.find_bucket(hash);
        self.buckets.contains_key(&bucket)
    }

    /// The linear-counting estimate over the sparse bucket range, or
    /// `HllError::EstimatorSaturated` once every bucket is occupied.
    fn cardinality(&self) -> (count: Result<u64, HllError>)
        ensures
            (self@.dom().len() as int) < (1u64 << (SPARSE_PREFIX_LENGTH as u64)) as int ==> count
                == Ok::<u64, HllError>(
                lc_estimate(
                    (1u64 << (SPARSE_PREFIX_LENGTH as u64)) as int,
                    self@.dom().len() as int,
                ) as u64,
            ),
            (self@.dom().len() as int) >= (1u64 << (SPARSE_PREFIX_LENGTH as u64)) as int ==> count
                == Err::<u64, HllError>(HllError::EstimatorSaturated),
    {
        proof {
            assert((1u64 << (SPARSE_PREFIX_LENGTH as u64)) == 0x2000000u64) by (bit_vector);
        }
        let occupied = self.buckets.len();
        if occupied >= 0x2000000usize {
            Err(HllError::EstimatorSaturated)
        } else {
            Ok(linear_counting(0x2000000u64, occupied as u64))
        }
    }
}

impl Merge<SparseHyperLogLog> for SparseHyperLogLog {
    type Output = SparseHyperLogLog;

    open spec fn merge_pre(self, rhs: SparseHyperLogLog) -> bool {
        self.wf() && rhs.wf()
    }

    /// The element-wise maximum over the union of occupied buckets.  The
    /// smaller mapping is folded into the larger one to bound the work; the
    /// content of the result does not depend on which side was `self`.
    fn merge(self, rhs: SparseHyperLogLog) -> (result: Self::Output)
        ensures
            result.wf(),
            result@ == sparse_merge_maps(self@, rhs@),
    {
        let ghost left = self@;
        let ghost right = rhs@;
        let (mut big, small) = if self.buckets.len() >= rhs.buckets.len() {
            (self, rhs)
        } else {
            (rhs, self)
        };
        let ghost base = big.buckets@;
        for kv in it: small.buckets.iter()
            invariant
                big.wf(),
                small.wf(),
                forall|j: int|
                    0 <= j < it.seq().len() ==> small.buckets@.contains_key(
                        (#[trigger] it.seq().unref()[j]).0,
                    ) && small.buckets@[it.seq().unref()[j].0] == it.seq().unref()[j].1,
                it.seq().unref().to_set() == small.buckets@.kv_pairs(),
                forall|k: u32| #[trigger]
                    big.buckets@.contains_key(k) ==> base.contains_key(k) || (exists|j: int|
                        0 <= j < it.index() && (#[trigger] it.seq().unref()[j]).0 == k),
                forall|k: u32|
                    base.contains_key(k) ==> #[trigger] big.buckets@.contains_key(k)
                        && big.buckets@[k] >= base[k],
                forall|j: int|
                    0 <= j < it.index() ==> big.buckets@.contains_key(
                        (#[trigger] it.seq().unref()[j]).0,
                    ) && big.buckets@[it.seq().unref()[j].0] >= it.seq().unref()[j].1,
                forall|k: u32| #[trigger]
                    big.buckets@.contains_key(k) ==> big.buckets@[k] == value_at(base, k) || (
                    exists|j: int|
                        0 <= j < it.index() && (#[trigger] it.seq().unref()[j]).0 == k
                            && it.seq().unref()[j].1 == big.buckets@[k]),
                it.index() == it.seq().len() ==> big.buckets@ =~= sparse_merge_maps(
                    base,
                    small.buckets@,
                ),
        {
            proof {
                assert(*kv.0 == it.seq().unref()[it.index() as int].0 && *kv.1 == it.seq().unref()[
                    it.index() as int].1);
                assert(small.buckets@.contains_key(*kv.0));
            }
            let ghost before = big.buckets@;
            big.insert(*kv.0, *kv.1);
            proof {
                lemma_sparse_merge_loop_step(
                    base,
                    small.buckets@,
                    it.seq().unref(),
                    it.index() as int,
                    before,
                    big.buckets@,
                );
            }
        }
        proof {
            assert(sparse_merge_maps(base, small.buckets@) =~= sparse_merge_maps(left, right));
        }
        big
    }
}

impl Merge<SetHyperLogLog> for SparseHyperLogLog {
    type Output = SparseHyperLogLog;

    open spec fn merge_pre(self, rhs: SetHyperLogLog) -> bool {
        self.wf()
    }

    /// Fold every hash of the exact side into the sparse side; the result is
    /// sparse.
    fn merge(self, rhs: SetHyperLogLog) -> (result: Self::Output)
        ensures
            result.wf(),
            sparse_absorbs(self@, rhs@, result@),
    {
        let mut out = self;
        let ghost base = out.buckets@;
        for h in it: rhs.set.iter()
            invariant
                out.wf(),
                it.seq().unref().to_set() == rhs.set@,
                forall|k: u32| #[trigger]
                    out.buckets@.contains_key(k) ==> base.contains_key(k) || (exists|j: int|
                        0 <= j < it.index() && bucket_of(
                            #[trigger] it.seq().unref()[j],
                            SPARSE_PREFIX_LENGTH,
                        ) == k),
                forall|k: u32|
                    base.contains_key(k) ==> #[trigger] out.buckets@.contains_key(k)
                        && out.buckets@[k] >= base[k],
                forall|j: int|
                    0 <= j < it.index() ==> out.buckets@.contains_key(
                        bucket_of(#[trigger] it.seq().unref()[j], SPARSE_PREFIX_LENGTH),
                    ) && out.buckets@[bucket_of(it.seq().unref()[j], SPARSE_PREFIX_LENGTH)]
                        >= value_of(it.seq().unref()[j], SPARSE_PREFIX_LENGTH),
                forall|k: u32| #[trigger]
                    out.buckets@.contains_key(k) ==> out.buckets@[k] == value_at(base, k) || (
                    exists|j: int|
                        0 <= j < it.index() && bucket_of(
                            #[trigger] it.seq().unref()[j],
                            SPARSE_PREFIX_LENGTH,
                        ) == k && value_of(it.seq().unref()[j], SPARSE_PREFIX_LENGTH)
                            == out.buckets@[k]),
                it.index() == it.seq().len() ==> sparse_absorbs(base, rhs.set@, out.buckets@),
        {
            proof {
                assert(*h == it.seq().unref()[it.index() as int]);
            }
            let ghost before = out.buckets@;
            out.add(*h);
            proof {
                lemma_sparse_absorb_loop_step(
                    base,
                    rhs.set@,
                    it.seq().unref(),
                    it.index() as int,
                    before,
                    out.buckets@,
                );
            }
        }
        out
    }
}

impl Merge<SparseHyperLogLog> for SetHyperLogLog {
    type Output = SparseHyperLogLog;

    open spec fn merge_pre(self, rhs: SparseHyperLogLog) -> bool {
        rhs.wf()
    }

    /// The symmetric case: the exact side is folded into the sparse side, so
    /// the content is the same whichever operand is `self`.
    fn merge(self, rhs: SparseHyperLogLog) -> (result: Self::Output)
        ensures
            result.wf(),
            sparse_absorbs(rhs@, self@, result@),
    {
        rhs.merge(self)
    }
}

/// The state of the set-into-sparse merge loop one hash further: if the
/// mapping before folding in hash `i` satisfied the pointwise invariants over
/// the first `i` hashes, the mapping after satisfies them over the first
/// `i + 1`, and absorbs the whole hash set once every hash is folded in.
proof fn lemma_sparse_absorb_loop_step(
    base: Map<u32, u8>,
    hashes: Set<u64>,
    s: Seq<u64>,
    i: int,
    prev: Map<u32, u8>,
    m: Map<u32, u8>,
)
    requires
        0 <= i < s.len(),
        s.to_set() == hashes,
        m == sparse_insert(prev, bucket_of(s[i], SPARSE_PREFIX_LENGTH), value_of(s[i], SPARSE_PREFIX_LENGTH)),
        forall|k: u32| #[trigger]
            prev.contains_key(k) ==> base.contains_key(k) || (exists|j: int|
                0 <= j < i && bucket_of(#[trigger] s[j], SPARSE_PREFIX_LENGTH) == k),
        forall|k: u32|
            base.contains_key(k) ==> #[trigger] prev.contains_key(k) && prev[k] >= base[k],
        forall|j: int|
            0 <= j < i ==> prev.contains_key(bucket_of(#[trigger] s[j], SPARSE_PREFIX_LENGTH))
                && prev[bucket_of(s[j], SPARSE_PREFIX_LENGTH)] >= value_of(
                s[j],
                SPARSE_PREFIX_LENGTH,
            ),
        forall|k: u32| #[trigger]
            prev.contains_key(k) ==> prev[k] == value_at(base, k) || (exists|j: int|
                0 <= j < i && bucket_of(#[trigger] s[j], SPARSE_PREFIX_LENGTH) == k && value_of(
                    s[j],
                    SPARSE_PREFIX_LENGTH,
                ) == prev[k]),
    ensures
        forall|k: u32| #[trigger]
            m.contains_key(k) ==> base.contains_key(k) || (exists|j: int|
                0 <= j < i + 1 && bucket_of(#[trigger] s[j], SPARSE_PREFIX_LENGTH) == k),
        forall|k: u32|
            base.contains_key(k) ==> #[trigger] m.contains_key(k) && m[k] >= base[k],
        forall|j: int|
            0 <= j < i + 1 ==> m.contains_key(bucket_of(#[trigger] s[j], SPARSE_PREFIX_LENGTH))
                && m[bucket_of(s[j], SPARSE_PREFIX_LENGTH)] >= value_of(s[j], SPARSE_PREFIX_LENGTH),
        forall|k: u32| #[trigger]
            m.contains_key(k) ==> m[k] == value_at(base, k) || (exists|j: int|
                0 <= j < i + 1 && bucket_of(#[trigger] s[j], SPARSE_PREFIX_LENGTH) == k
                    && value_of(s[j], SPARSE_PREFIX_LENGTH) == m[k]),
        i + 1 == s.len() ==> sparse_absorbs(base, hashes, m),
{
    let b = bucket_of(s[i], SPARSE_PREFIX_LENGTH);
    let v = value_of(s[i], SPARSE_PREFIX_LENGTH);
    assert forall|k: u32| #[trigger] m.contains_key(k) implies base.contains_key(k) || (exists|
        j: int,
    |
        0 <= j < i + 1 && bucket_of(#[trigger] s[j], SPARSE_PREFIX_LENGTH) == k) by {
        if k == b {
            assert(0 <= i < i + 1 && bucket_of(s[i], SPARSE_PREFIX_LENGTH) == k);
        } else {
            assert(prev.contains_key(k));
        }
    }
    assert forall|j: int| 0 <= j < i + 1 implies m.contains_key(
        bucket_of(#[trigger] s[j], SPARSE_PREFIX_LENGTH),
    ) && m[bucket_of(s[j], SPARSE_PREFIX_LENGTH)] >= value_of(s[j], SPARSE_PREFIX_LENGTH) by {
        if j < i {
            assert(prev.contains_key(bucket_of(s[j], SPARSE_PREFIX_LENGTH)));
        }
    }
    assert forall|k: u32| #[trigger] m.contains_key(k) implies m[k] == value_at(base, k) || (
    exists|j: int|
        0 <= j < i + 1 && bucket_of(#[trigger] s[j], SPARSE_PREFIX_LENGTH) == k && value_of(
            s[j],
            SPARSE_PREFIX_LENGTH,
        ) == m[k]) by {
        if k == b {
            if m[k] == v {
                assert(0 <= i < i + 1 && bucket_of(s[i], SPARSE_PREFIX_LENGTH) == k && value_of(
                    s[i],
                    SPARSE_PREFIX_LENGTH,
                ) == m[k]);
            } else {
                assert(m[k] == value_at(prev, k));
                assert(prev.contains_key(k));
            }
        } else {
            assert(prev.contains_key(k) && m[k] == prev[k]);
        }
    }
    if i + 1 == s.len() {
        assert forall|k: u32| base.contains_key(k) implies #[trigger] m.contains_key(k) && m[k]
            >= base[k] by {
            assert(prev.contains_key(k) && prev[k] >= base[k]);
        }
        assert forall|h: u64| #[trigger] hashes.contains(h) implies m.contains_key(
            bucket_of(h, SPARSE_PREFIX_LENGTH),
        ) && m[bucket_of(h, SPARSE_PREFIX_LENGTH)] >= value_of(h, SPARSE_PREFIX_LENGTH) by {
            assert(s.to_set().contains(h));
            let j = choose|j: int| 0 <= j < s.len() && #[trigger] s[j] == h;
            assert(m.contains_key(bucket_of(s[j], SPARSE_PREFIX_LENGTH)));
        }
        assert forall|k: u32| #[trigger] m.contains_key(k) implies (base.contains_key(k) || (
        exists|h: u64|
            #![auto]
            hashes.contains(h) && bucket_of(h, SPARSE_PREFIX_LENGTH) == k)) && (m[k] == value_at(
            base,
            k,
        ) || (exists|h: u64|
            #![auto]
            hashes.contains(h) && bucket_of(h, SPARSE_PREFIX_LENGTH) == k && value_of(
                h,
                SPARSE_PREFIX_LENGTH,
            ) == m[k])) by {
            if !base.contains_key(k) {
                let j = choose|j: int|
                    0 <= j < i + 1 && bucket_of(#[trigger] s[j], SPARSE_PREFIX_LENGTH) == k;
                assert(hashes.contains(s[j]));
            }
            if m[k] != value_at(base, k) {
                let j = choose|j: int|
                    0 <= j < i + 1 && bucket_of(#[trigger] s[j], SPARSE_PREFIX_LENGTH) == k
                        && value_of(s[j], SPARSE_PREFIX_LENGTH) == m[k];
                assert(hashes.contains(s[j]));
            }
        }
        assert(sparse_absorbs(base, hashes, m));
    }
}

/// The state of the sparse/sparse merge loop one pair further: if the mapping
/// before folding in pair `i` satisfied the pointwise invariants over the
/// first `i` pairs, the mapping after satisfies them over the first `i + 1`
/// pairs, and over the whole of `small` once every pair is folded in.
proof fn lemma_sparse_merge_loop_step(
    base: Map<u32, u8>,
    small: Map<u32, u8>,
    s: Seq<(u32, u8)>,
    i: int,
    prev: Map<u32, u8>,
    m: Map<u32, u8>,
)
    requires
        0 <= i < s.len(),
        forall|j: int|
            0 <= j < s.len() ==> small.contains_key((#[trigger] s[j]).0) && small[s[j].0]
                == s[j].1,
        s.to_set() == small.kv_pairs(),
        m == sparse_insert(prev, s[i].0, s[i].1),
        forall|k: u32| #[trigger]
            prev.contains_key(k) ==> base.contains_key(k) || (exists|j: int|
                0 <= j < i && (#[trigger] s[j]).0 == k),
        forall|k: u32|
            base.contains_key(k) ==> #[trigger] prev.contains_key(k) && prev[k] >= base[k],
        forall|j: int|
            0 <= j < i ==> prev.contains_key((#[trigger] s[j]).0) && prev[s[j].0] >= s[j].1,
        forall|k: u32| #[trigger]
            prev.contains_key(k) ==> prev[k] == value_at(base, k) || (exists|j: int|
                0 <= j < i && (#[trigger] s[j]).0 == k && s[j].1 == prev[k]),
    ensures
        forall|k: u32| #[trigger]
            m.contains_key(k) ==> base.contains_key(k) || (exists|j: int|
                0 <= j < i + 1 && (#[trigger] s[j]).0 == k),
        forall|k: u32|
            base.contains_key(k) ==> #[trigger] m.contains_key(k) && m[k] >= base[k],
        forall|j: int|
            0 <= j < i + 1 ==> m.contains_key((#[trigger] s[j]).0) && m[s[j].0] >= s[j].1,
        forall|k: u32| #[trigger]
            m.contains_key(k) ==> m[k] == value_at(base, k) || (exists|j: int|
                0 <= j < i + 1 && (#[trigger] s[j]).0 == k && s[j].1 == m[k]),
        i + 1 == s.len() ==> m =~= sparse_merge_maps(base, small),
{
    let b = s[i].0;
    let v = s[i].1;
    assert forall|k: u32| #[trigger] m.contains_key(k) implies base.contains_key(k) || (exists|
        j: int,
    |
        0 <= j < i + 1 && (#[trigger] s[j]).0 == k) by {
        if k == b {
            assert(0 <= i < i + 1 && s[i].0 == k);
        } else {
            assert(prev.contains_key(k));
        }
    }
    assert forall|j: int| 0 <= j < i + 1 implies m.contains_key((#[trigger] s[j]).0) && m[s[j].0]
        >= s[j].1 by {
        if j < i {
            assert(prev.contains_key(s[j].0) && prev[s[j].0] >= s[j].1);
        }
    }
    assert forall|k: u32| #[trigger] m.contains_key(k) implies m[k] == value_at(base, k) || (
    exists|j: int|
        0 <= j < i + 1 && (#[trigger] s[j]).0 == k && s[j].1 == m[k]) by {
        if k == b {
            if m[k] == v {
                assert(0 <= i < i + 1 && s[i].0 == k && s[i].1 == m[k]);
            } else {
                assert(m[k] == value_at(prev, k));
                assert(prev.contains_key(k));
            }
        } else {
            assert(prev.contains_key(k) && m[k] == prev[k]);
        }
    }
    if i + 1 == s.len() {
        assert forall|k: u32|
            #![trigger m.contains_key(k)]
            #![trigger sparse_merge_maps(base, small).contains_key(k)]
            m.contains_key(k) == sparse_merge_maps(base, small).contains_key(k) && (
            m.contains_key(k) ==> m[k] == sparse_merge_maps(base, small)[k]) by {
            if small.contains_key(k) {
                assert(small.kv_pairs().contains((k, small[k])));
                assert(s.to_set().contains((k, small[k])));
                let j = choose|j: int| 0 <= j < s.len() && #[trigger] s[j] == (k, small[k]);
                assert(s[j].0 == k && s[j].1 == small[k]);
                assert(m.contains_key(k) && m[k] >= small[k]);
            }
            if m.contains_key(k) {
                if !base.contains_key(k) && !small.contains_key(k) {
                    let j = choose|j: int| 0 <= j < i + 1 && (#[trigger] s[j]).0 == k;
                    assert(small.contains_key(s[j].0));
                    assert(false);
                }
                assert(m[k] == value_at(base, k) || (exists|j: int|
                    0 <= j < i + 1 && (#[trigger] s[j]).0 == k && s[j].1 == m[k]));
                if m[k] != value_at(base, k) {
                    let j = choose|j: int|
                        0 <= j < i + 1 && (#[trigger] s[j]).0 == k && s[j].1 == m[k];
                    assert(small[k] == s[j].1);
                    assert(m[k] == value_at(small, k));
                } else {
                    if small.contains_key(k) {
                        assert(m[k] >= value_at(small, k));
                    }
                }
            }
        }
        assert(m =~= sparse_merge_maps(base, small));
    }
}

} // verus!
