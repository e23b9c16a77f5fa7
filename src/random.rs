//! The random source of the walks: a seedable generator, held by the
//! caller and handed in, so that a fixed seed replays a walk.
use vstd::prelude::*;
use rand::{Rng, SeedableRng};
use rand::rngs::StdRng;

verus! {

#[verifier::external_type_specification]
#[verifier::external_body]
pub struct ExStdRng(StdRng);

/// Relies on `SeedableRng::seed_from_u64`: a generator determined by the seed.
#[verifier::external_body]
pub(crate) fn rng_from_seed(seed: u64) -> StdRng {
    StdRng::seed_from_u64(seed)
}

/// Relies on `Rng::gen_range` over `lo..hi`: a value in `[lo, hi)`; it
/// panics on an empty range, which the precondition excludes.
#[verifier::external_body]
pub(crate) fn draw_below(rng: &mut StdRng, lo: u32, hi: u32) -> (r: u32)
    requires
        lo < hi,
    ensures
        lo <= r < hi,
{
    rng.gen_range(lo..hi)
}

/// Relies on `Rng::gen::<u64>`: any 64-bit value.
#[verifier::external_body]
pub(crate) fn draw_u64(rng: &mut StdRng) -> u64 {
    rng.gen::<u64>()
}

/// Relies on `Rng::gen::<u32>`: any 32-bit value.
#[verifier::external_body]
pub(crate) fn draw_u32(rng: &mut StdRng) -> u32 {
    rng.gen::<u32>()
}

/// Relies on `Rng::gen_ratio`: true with chance `num / den`; it panics when
/// `den == 0` or `num > den`, which the precondition excludes.
#[verifier::external_body]
pub(crate) fn chance(rng: &mut StdRng, num: u32, den: u32) -> bool
    requires
        0 < den,
        num <= den,
{
    rng.gen_ratio(num, den)
}

} // verus!
