//! The library's one source of randomness.

use vstd::prelude::*;

verus! {

/// Relies on `fastrand::u64`: a draw from the half-open range `0..bound`,
/// which panics only when the range is empty. Nothing beyond the range bound
/// can be promised of a random value.
#[verifier::external_body]
pub(crate) fn random_below(bound: u64) -> (r: u64)
    requires
        1 <= bound,
    ensures
        r < bound,
{
    fastrand::u64(0..bound)
}

} // verus!
