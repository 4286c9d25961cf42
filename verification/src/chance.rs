//! The one source of randomness of the game.

use rand::Rng;
use vstd::prelude::*;

verus! {

/// Draws a number below `n` from the thread's random generator.
///
/// Calls `rand::Rng::gen_range` on `rand::thread_rng()` with the half-open
/// range `0..n`. The contract is trusted: it claims that the draw lies in
/// that range, and leaves out `n == 0`, for which the range is empty and
/// `gen_range` panics. Nothing is claimed of which number comes, and two
/// calls may differ. `thread_rng` itself panics where the system cannot seed
/// the generator; no argument avoids that.
#[verifier::external_body]
pub(crate) fn random_below(n: u64) -> (r: u64)
    requires
        n > 0,
    ensures
        r < n,
{
    rand::thread_rng().gen_range(0..n)
}

} // verus!
