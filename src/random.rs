//! The seeded random number generator and the draws made from it.
use vstd::prelude::*;
use rand::rngs::StdRng;
use rand::seq::SliceRandom;
use rand::{Rng, SeedableRng};

verus! {

/// rand's `StdRng`, the seedable generator; opaque to Verus.
#[verifier::external_type_specification]
#[verifier::external_body]
pub struct ExStdRng(StdRng);

/// Relies on rand's `StdRng::seed_from_u64`: a generator fixed by the seed.
#[verifier::external_body]
pub(crate) fn rng_from_seed(seed: u64) -> StdRng {
    StdRng::seed_from_u64(seed)
}

/// Relies on rand's `StdRng::from_entropy`: a generator seeded by the system.
#[verifier::external_body]
pub(crate) fn rng_from_entropy() -> StdRng {
    StdRng::from_entropy()
}

/// Relies on rand's `Rng::gen_ratio(1, 2)`: a fair coin.
#[verifier::external_body]
pub(crate) fn coin_flip(rng: &mut StdRng) -> bool {
    rng.gen_ratio(1, 2)
}

/// Relies on rand's `Rng::gen_range(0..n)`: a uniform draw below `n`
/// (it panics on an empty range, which `requires` leaves out).
#[verifier::external_body]
pub(crate) fn draw_below(rng: &mut StdRng, n: u32) -> (r: u32)
    requires
        n > 0,
    ensures
        r < n,
{
    rng.gen_range(0..n)
}

/// Relies on rand's `Rng::gen_range(lo..=hi)`: a uniform draw from the
/// closed range (it panics on an empty range, which `requires` leaves out).
#[verifier::external_body]
pub(crate) fn draw_between(rng: &mut StdRng, lo: i32, hi: i32) -> (r: i32)
    requires
        lo <= hi,
    ensures
        lo <= r <= hi,
{
    rng.gen_range(lo..=hi)
}

/// Relies on rand's `SliceRandom::shuffle`: the items are permuted in place.
#[verifier::external_body]
pub(crate) fn shuffle(items: &mut Vec<usize>, rng: &mut StdRng)
    ensures
        final(items)@.to_multiset() == old(items)@.to_multiset(),
        final(items)@.len() == old(items)@.len(),
{
    items.shuffle(rng)
}

} // verus!
