//! The exact representation: a set of every distinct hash seen so far.
//! Exact, but its memory grows with the cardinality; intended for small
//! cardinalities before promotion to an approximate representation.

use crate::hyperloglog::{HllError, HyperLogLog, Merge};
use std::collections::BTreeSet;
use vstd::prelude::*;

verus! {

/// Taking one more element of a sequence adds exactly that element to the
/// set of elements taken so far.
proof fn lemma_take_to_set_step<A>(s: Seq<A>, i: int)
    requires
        0 <= i < s.len(),
    ensures
        s.take(i + 1).to_set() =~= s.take(i).to_set().insert(s[i]),
{
    assert forall|x: A| s.take(i + 1).to_set().contains(x) implies s.take(i).to_set().contains(x)
        || x == s[i] by {
        let j = choose|j: int| 0 <= j < i + 1 && #[trigger] s.take(i + 1)[j] == x;
        if j < i {
            assert(s.take(i)[j] == x);
        }
    }
    assert(s.take(i + 1)[i] == s[i]);
    assert forall|x: A| s.take(i).to_set().contains(x) implies s.take(i + 1).to_set().contains(
        x,
    ) by {
        let j = choose|j: int| 0 <= j < i && #[trigger] s.take(i)[j] == x;
        assert(s.take(i + 1)[j] == x);
    }
}

/// Adding a hash twice leaves the exact estimator as adding it once does:
/// exact add is idempotent on membership.
pub proof fn lemma_exact_add_idempotent(s: Set<u64>, hash: u64)
    ensures
        s.insert(hash).insert(hash) == s.insert(hash),
{
    assert(s.insert(hash).insert(hash) =~= s.insert(hash));
}

/// Merging exact estimators is commutative: the union does not depend on
/// which side is `self`.
pub proof fn lemma_exact_merge_commutative(a: Set<u64>, b: Set<u64>)
    ensures
        a.union(b) == b.union(a),
{
    assert(a.union(b) =~= b.union(a));
}

/// Merging exact estimators is associative.
pub proof fn lemma_exact_merge_associative(a: Set<u64>, b: Set<u64>, c: Set<u64>)
    ensures
        a.union(b).union(c) == a.union(b.union(c)),
{
    assert(a.union(b).union(c) =~= a.union(b.union(c)));
}

/// An exact estimator.  Its view is the set of hashes added so far.
pub struct SetHyperLogLog {
    pub set: BTreeSet<u64>,
}

impl View for SetHyperLogLog {
    type V = Set<u64>;

    open spec fn view(&self) -> Set<u64> {
        self.set@
    }
}

impl HyperLogLog for SetHyperLogLog {
    /// The set needs no invariant beyond its own.
    open spec fn wf(&self) -> bool {
        true
    }

    fn new() -> (result: Self)
        ensures
            result@ == Set::<u64>::empty(),
    {
        SetHyperLogLog { set: BTreeSet::new() }
    }

    fn add(&mut self, hash: u64)
        ensures
            final(self)@ == old(self)@.insert(hash),
    {
        self.set.insert(hash);
    }

    /// Exact set membership; never a false positive or negative.  It is
    /// named `maybe_contains` only because it shares the interface of the
    /// approximate representations.
    fn maybe_contains(&self, hash: u64) -> (present: bool)
        ensures
            present == self@.contains(hash),
    {
        self.set.contains(&hash)
    }

    /// The exact number of distinct hashes added.
    fn cardinality(&self) -> (count: Result<u64, HllError>)
        ensures
            count == Ok::<u64, HllError>(self@.len() as u64),
    {
        Ok(self.set.len() as u64)
    }
}

impl Merge<SetHyperLogLog> for SetHyperLogLog {
    type Output = SetHyperLogLog;

    open spec fn merge_pre(self, rhs: SetHyperLogLog) -> bool {
        true
    }

    /// The union of the two sets.  The smaller set is folded into the larger
    /// one to bound the work; the result does not depend on which side was
    /// `self`.
    fn merge(self, rhs: SetHyperLogLog) -> (result: Self::Output)
        ensures
            result@ == self@.union(rhs@),
    {
        let ghost left = self@;
        let ghost right = rhs@;
        let (mut big, small) = if self.set.len() >= rhs.set.len() {
            (self, rhs)
        } else {
            (rhs, self)
        };
        let ghost base = big.set@;
        for h in it: small.set.iter()
            invariant
                it.seq().unref().to_set() == small.set@,
                big.set@ == base.union(it.seq().unref().take(it.index() as int).to_set()),
                it.index() == it.seq().len() ==> big.set@ =~= base.union(small.set@),
        {
            big.set.insert(*h);
            proof {
                lemma_take_to_set_step(it.seq().unref(), it.index() as int);
                assert(*h == it.seq().unref()[it.index() as int]);
                assert(base.union(it.seq().unref().take(it.index() as int).to_set()).insert(*h)
                    =~= base.union(it.seq().unref().take(it.index() as int + 1).to_set()));
                assert(it.index() as int + 1 == it.seq().len() ==> it.seq().unref().take(
                    it.index() as int + 1,
                ) =~= it.seq().unref());
            }
        }
        proof {
            assert(base.union(small.set@) =~= left.union(right));
        }
        big
    }
}

} // verus!
