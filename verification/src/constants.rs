use vstd::prelude::*;

verus! {

/// Number of high-order hash bits that select a bucket in the dense
/// representation.  Fixed at construction time for `DenseHyperLogLog::new`;
/// `DenseHyperLogLog::with_prefix_length` allows any length up to
/// `SPARSE_PREFIX_LENGTH`.
pub const DEFAULT_PREFIX_LENGTH: u32 = 12;

/// Number of high-order hash bits that select a bucket in the sparse
/// representation.  It is longer than the dense prefix length, so a sparse
/// bucket can always be reduced to a dense one by dropping its low-order bits.
pub const SPARSE_PREFIX_LENGTH: u32 = 25;

} // verus!
