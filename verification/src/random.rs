//! The one place where chance enters.

use rand::Rng;
use vstd::prelude::*;

verus! {

/// Draws from the thread's generator with `rand::Rng::gen_range`, which
/// returns a number at or above `low` and below `high`, and panics unless
/// `low < high`.  Which number comes is chance: nothing more is claimed.
#[verifier::external_body]
fn random_in_range(low: usize, high: usize) -> (n: usize)
    requires
        low < high,
    ensures
        low <= n < high,
{
    rand::thread_rng().gen_range(low, high)
}

/// One of the three axes, by chance.
pub fn random_axis() -> (axis: usize)
    ensures
        axis < 3,
{
    random_in_range(0, 3)
}

} // verus!
