use rand::Rng;
use vstd::prelude::*;

verus! {

/// A number drawn by `rand::Rng::gen_range` from the thread-local generator
/// (`rand::thread_rng`), in the half-open range `low..high`. The rand documentation promises a
/// value within the range and a panic on an empty range, which `requires` rules out; which
/// value comes out depends on chance.
#[verifier::external_body]
pub(crate) fn random_in_range(low: u128, high: u128) -> (r: u128)
    requires
        low < high,
    ensures
        low <= r < high,
{
    rand::thread_rng().gen_range(low..high)
}

/// A number drawn by `rand::Rng::gen` from the thread-local generator: any `u128`, by chance.
#[verifier::external_body]
pub(crate) fn random_u128() -> u128 {
    rand::thread_rng().gen()
}

} // verus!
