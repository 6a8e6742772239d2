//! The one randomness source of the simulation.
//!
//! Randomized decisions (object placement, emission kinematics, escape
//! kicks) draw integers from a half-open range; nothing is promised of a
//! draw beyond its bounds, so every caller is verified for every outcome.

use vstd::prelude::*;
use rand::Rng;

verus! {

/// Relies on rand::Rng::gen_range on the thread-local generator: for a
/// non-empty half-open range it returns a value inside the range (and
/// panics on an empty one, which the precondition rules out).
#[verifier::external_body]
pub(crate) fn rand_u64_in(lo: u64, hi: u64) -> (r: u64)
    requires
        lo < hi,
    ensures
        lo <= r < hi,
{
    rand::thread_rng().gen_range(lo..hi)
}

} // verus!
