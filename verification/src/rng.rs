//! The crate's only trusted boundary: a seeded random number generator from
//! the `rand` crate, used once, when the initial population is spawned.

use vstd::prelude::*;

verus! {

#[verifier::external_type_specification]
#[verifier::external_body]
pub struct ExStdRng(rand::rngs::StdRng);

/// Relies on `rand::SeedableRng::seed_from_u64` for `StdRng`: builds a
/// generator whose stream is a function of the seed alone, so runs with the
/// same configuration reproduce the same population.
#[verifier::external_body]
pub fn seed_rng(seed: u64) -> rand::rngs::StdRng {
    rand::SeedableRng::seed_from_u64(seed)
}

/// Relies on `rand::Rng::gen_range` over the half-open range `lo..hi`: the
/// sample always lies in `[lo, hi)`. The range must be nonempty, since
/// `gen_range` panics on an empty one; nothing more is assumed of which
/// value comes back.
#[verifier::external_body]
pub fn rand_range(rng: &mut rand::rngs::StdRng, lo: i64, hi: i64) -> (r: i64)
    requires
        lo < hi,
    ensures
        lo <= r < hi,
{
    rand::Rng::gen_range(rng, lo..hi)
}

} // verus!
