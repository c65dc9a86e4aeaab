//! The source of random numbers.

use rand::Rng;
use vstd::prelude::*;

verus! {

/// A random number in `low..high`.
///
/// Stands for `Rng::gen_range` of the crate `rand`, called on the thread's
/// generator with the half-open range `low..high`. That function panics on
/// an empty range, and returns a member of the range otherwise. Which
/// member is a matter of chance.
#[verifier::external_body]
pub(crate) fn random_in_range(low: u128, high: u128) -> (r: u128)
    requires
        low < high,
    ensures
        low <= r < high,
{
    rand::thread_rng().gen_range(low..high)
}

} // verus!
