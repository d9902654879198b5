//! The capability interface shared by the three representations, and the
//! errors the estimator family reports.

use vstd::prelude::*;

verus! {

/// The errors an estimator can report.
#[derive(Clone, Copy, Debug, PartialEq, Eq, Structural)]
pub enum HllError {
    /// A prefix length outside the configured range was requested at
    /// construction.
    ConfigurationError,
    /// Two dense estimators of different prefix lengths were merged.
    DimensionMismatch,
    /// A cardinality was requested of a linear-counting estimator with no
    /// empty bucket left.
    EstimatorSaturated,
}

/// The operations every representation supports.  Each implementation states
/// in its own contracts what its view guarantees; `wf` is the representation's
/// internal invariant, established by `new` and preserved by `add`.
pub trait HyperLogLog: Sized {
    /// The representation's internal invariant.
    spec fn wf(&self) -> bool;

    /// A fresh, empty estimator.
    fn new() -> (result: Self)
        ensures
            result.wf(),
    ;

    /// Record one 64-bit hash.
    fn add(&mut self, hash: u64)
        requires
            old(self).wf(),
        ensures
            final(self).wf(),
    ;

    /// An approximate membership test: may report a hash that was never
    /// added (a false positive), but never denies one that was.
    fn maybe_contains(&self, hash: u64) -> bool
        requires
            self.wf(),
    ;

    /// The estimated number of distinct hashes added so far, or
    /// `HllError::EstimatorSaturated` for a linear-counting representation
    /// whose every bucket is occupied.
    fn cardinality(&self) -> Result<u64, HllError>
        requires
            self.wf(),
    ;
}

/// Merging two estimators, consuming both.  The output representation is the
/// coarser of the two inputs' kinds.
pub trait Merge<Rhs = Self> {
    type Output;

    /// What the two operands must satisfy before the merge; every
    /// implementation requires the operands' invariants.
    spec fn merge_pre(self, rhs: Rhs) -> bool;

    /// Merge `self` with `rhs`.  Implementations guarantee that the result
    /// holds the combined content of both operands, independently of which
    /// operand is `self`.
    fn merge(self, rhs: Rhs) -> Self::Output
        requires
            self.merge_pre(rhs),
    ;
}

} // verus!
