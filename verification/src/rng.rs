//! The engine's one source of randomness.

use vstd::prelude::*;
use rand::Rng;

verus! {

/// Relies on `rand::Rng::gen_range` over the half-open range `0..bound`,
/// on the generator of `rand::thread_rng`: it panics on an empty range and
/// otherwise returns a uniform sample inside the range, hence below
/// `bound`. Nothing more can be promised of a random draw.
#[verifier::external_body]
pub(crate) fn random_below(bound: usize) -> (r: usize)
    requires
        bound > 0,
    ensures
        r < bound,
{
    rand::thread_rng().gen_range(0..bound)
}

} // verus!
