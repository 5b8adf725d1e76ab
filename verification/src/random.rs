//! The game's random number generator.

use vstd::prelude::*;
use rand::rngs::StdRng;
use rand::RngExt;

verus! {

/// rand's `StdRng`, carried through the library as an opaque value.
#[verifier::external_type_specification]
#[verifier::external_body]
pub struct ExStdRng(StdRng);

/// The source of randomness shared by the game's systems.
pub struct RandomSource(pub StdRng);

/// Calls rand's `RngExt::random_range` on `low..high`. The contract claims
/// only what rand documents for a non-empty integer range: the value lies in
/// it. Which value comes out is up to the generator.
#[verifier::external_body]
pub(crate) fn random_i32_in(rng: &mut StdRng, low: i32, high: i32) -> (r: i32)
    requires
        low < high,
    ensures
        low <= r < high,
{
    rng.random_range(low..high)
}

} // verus!
