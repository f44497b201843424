use vstd::prelude::*;
use bracket_lib::prelude::RandomNumberGenerator;

verus! {

#[verifier::external_type_specification]
#[verifier::external_body]
pub struct ExRandomNumberGenerator(RandomNumberGenerator);

/// Relies on bracket-random's `RandomNumberGenerator::range`, which draws
/// uniformly from the half-open range `lo..hi` (it panics when `lo >= hi`).
#[verifier::external_body]
pub(crate) fn rng_range(rng: &mut RandomNumberGenerator, lo: i32, hi: i32) -> (r: i32)
    requires
        lo < hi,
    ensures
        lo <= r < hi,
{
    rng.range(lo, hi)
}

/// Relies on bracket-random's `RandomNumberGenerator::roll_dice` with one die:
/// a value in `1 ..= die` (it panics when `die < 1`).
#[verifier::external_body]
pub(crate) fn roll_die(rng: &mut RandomNumberGenerator, die: i32) -> (r: i32)
    requires
        1 <= die < i32::MAX,
    ensures
        1 <= r <= die,
{
    rng.roll_dice(1, die)
}

} // verus!
