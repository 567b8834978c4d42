//! The one source of chance: uniform integer draws.

use rand::Rng;
use vstd::prelude::*;

verus! {

/// Draws an integer from `[low, high)`.
///
/// Calls `rand::Rng::gen_range` on `rand::thread_rng()` with the half-open
/// range `low..high`. All that is claimed of the outcome is that it lies in
/// the range; an empty range, on which `gen_range` panics, is excluded.
#[verifier::external_body]
pub(crate) fn draw_in_range(low: u64, high: u64) -> (r: u64)
    requires
        low < high,
    ensures
        low <= r < high,
{
    rand::thread_rng().gen_range(low..high)
}

} // verus!
