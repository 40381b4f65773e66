//! The pseudorandom generator behind every sampler, and the draws made from it.

use rand::distributions::{Distribution, Uniform};
use rand::rngs::SmallRng;
use rand::SeedableRng;
use vstd::prelude::*;

verus! {

#[verifier::external_type_specification]
#[verifier::external_body]
pub struct ExSmallRng(SmallRng);

/// Calls `SmallRng::from_entropy`: a generator seeded by the operating
/// system. Nothing is claimed of its state; the call aborts where the system
/// can give no entropy.
#[verifier::external_body]
pub(crate) fn entropy_rng() -> SmallRng {
    SmallRng::from_entropy()
}

/// Calls `Uniform::from(low..high)` and samples it once with `rng`. The
/// claim: the draw lies in the range. Which value comes is left open. The
/// range must not be empty: on an empty one the outside constructor panics.
#[verifier::external_body]
pub(crate) fn draw_between(rng: &mut SmallRng, low: usize, high: usize) -> (drawn: usize)
    requires
        low < high,
    ensures
        low <= drawn < high,
{
    Uniform::from(low..high).sample(rng)
}

/// Calls `Uniform::new(low, high)` on 64-bit bounds and samples it once with
/// `rng`. The claim: the draw lies in the range. Which value comes is left
/// open. The range must not be empty: on an empty one the outside constructor
/// panics.
#[verifier::external_body]
pub(crate) fn draw_between_u64(rng: &mut SmallRng, low: u64, high: u64) -> (drawn: u64)
    requires
        low < high,
    ensures
        low <= drawn < high,
{
    Uniform::new(low, high).sample(rng)
}

} // verus!
