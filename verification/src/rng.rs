use vstd::prelude::*;

verus! {

/// Calls `rand::random_range(low..=high)` on `u64`: a value drawn from the
/// thread-local generator, uniformly within the inclusive range. The contract
/// claims only that the value lies within the range; which value comes out is
/// left open, as it rests on chance. `rand` panics on an empty range, hence
/// the `requires`.
#[verifier::external_body]
pub(crate) fn random_in_range(low: u64, high: u64) -> (r: u64)
    requires
        low <= high,
    ensures
        low <= r <= high,
{
    rand::random_range(low..=high)
}

} // verus!
