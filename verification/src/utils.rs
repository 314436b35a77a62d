//! What the renderer draws from its surroundings: random integers and the
//! number of processors.

use vstd::prelude::*;
use rand::Rng;

verus! {

/// An integer drawn from `low..=high`.
///
/// Calls `rand::rng()` for the thread's generator and `Rng::random_range` on
/// the inclusive range `low..=high`. That call panics on an empty range and
/// returns a value of the range otherwise; which one is not known.
#[verifier::external_body]
pub fn random_u64(low: u64, high: u64) -> (r: u64)
    requires
        low <= high,
    ensures
        low <= r <= high,
{
    let mut rng = rand::rng();
    rng.random_range(low..=high)
}

/// The number of processors that this process may use.
///
/// Calls `num_cpus::get`, which is documented to return at least 1.
#[verifier::external_body]
pub(crate) fn available_cpus() -> (n: usize)
    ensures
        n >= 1,
{
    num_cpus::get()
}

} // verus!
