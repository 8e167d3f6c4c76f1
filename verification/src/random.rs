//! The seeded random source that a tree draws its angles from.

use vstd::prelude::*;
use rand::rngs::SmallRng;
use rand::Rng;
use rand::SeedableRng;

verus! {

/// `rand::rngs::SmallRng`, carried through as an opaque value.
#[verifier::external_type_specification]
#[verifier::external_body]
pub struct ExSmallRng(SmallRng);

/// Calls `SmallRng::seed_from_u64`, which builds a generator from an integral
/// seed. Nothing is claimed of the generator that comes back.
#[verifier::external_body]
pub(crate) fn seeded_rng(seed: u64) -> SmallRng {
    SmallRng::seed_from_u64(seed)
}

/// Calls `Rng::random_range` on the half-open range from zero to `bound`.
/// The range must not be empty, or the call panics; the value drawn lies in it.
/// Which value is drawn is left open.
#[verifier::external_body]
pub(crate) fn draw_below(rng: &mut SmallRng, bound: i64) -> (r: i64)
    requires
        0 < bound,
    ensures
        0 <= r < bound,
{
    rng.random_range(0..bound)
}

} // verus!
