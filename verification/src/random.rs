use vstd::prelude::*;

use rand::Rng;

verus! {

#[verifier::external_type_specification]
#[verifier::external_body]
pub struct ExThreadRng(rand::rngs::ThreadRng);

/// The thread-local random number generator.
///
/// Trusted: calls `rand::rng()`, which hands out a handle to the lazily
/// seeded generator of the current thread. Nothing is promised of it.
#[verifier::external_body]
pub(crate) fn thread_rng() -> (rng: rand::rngs::ThreadRng) {
    rand::rng()
}

/// A uniformly chosen number in `low..=high`.
///
/// Trusted: calls `Rng::random_range` with the inclusive range `low..=high`.
/// rand documents that the result lies in the range and that the call
/// panics on an empty range, which `low <= high` rules out; which value
/// comes back is chance.
#[verifier::external_body]
pub(crate) fn random_range_inclusive(rng: &mut rand::rngs::ThreadRng, low: u32, high: u32) -> (r: u32)
    requires
        low <= high,
    ensures
        low <= r <= high,
{
    rng.random_range(low..=high)
}

} // verus!
