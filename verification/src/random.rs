//! Random numbers, for random scrambles.

use vstd::prelude::*;
use rand::Rng;
use rand::rngs::ThreadRng;

verus! {

#[verifier::external_type_specification]
#[verifier::external_body]
pub struct ExThreadRng(ThreadRng);

/// Calls `rand::rng()`, the random number generator of the current thread.
/// Nothing is claimed of the generator it hands back.
#[verifier::external_body]
pub(crate) fn thread_rng() -> ThreadRng {
    rand::rng()
}

/// Calls `Rng::random_range` on the range `0..upper`. The claim is only that the
/// value lies in the range, which `random_range` documents; it panics on an empty
/// range, so `upper` must be positive.
#[verifier::external_body]
pub(crate) fn random_below(rng: &mut ThreadRng, upper: u32) -> (r: u32)
    requires
        upper > 0,
    ensures
        r < upper,
{
    rng.random_range(0..upper)
}

} // verus!
