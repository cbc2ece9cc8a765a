//! The single randomness source of the library.
//!
//! Every stochastic draw in the tracer is a uniform integer from a
//! half-open range, taken from the thread-local generator, so each
//! concurrently rendering task owns an independent source of randomness.

use vstd::prelude::*;

verus! {

/// Relies on `rand::random_range`: a uniform draw from the half-open
/// range `lo..hi` on the thread-local generator.  It panics only on an
/// empty range, which the precondition rules out, and the result always
/// lies inside the range.
#[verifier::external_body]
pub(crate) fn rand_range_i64(lo: i64, hi: i64) -> (r: i64)
    requires
        lo < hi,
    ensures
        lo <= r < hi,
{
    rand::random_range(lo..hi)
}

} // verus!
