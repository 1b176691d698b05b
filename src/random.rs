//! Sources of randomness: a reproducible stream drawn from a seed, and the
//! ambient per-thread generator.

use nannou::rand::rngs::StdRng;
use nannou::rand::{Rng, SeedableRng};
use vstd::prelude::*;

verus! {

/// The values that a generator seeded with `seed` gives for `requests`, a
/// sequence of half-open ranges answered in order.
pub uninterp spec fn seeded_draws(seed: u64, requests: Seq<(i64, i64)>) -> Seq<i64>;

/// Relies on rand's `StdRng::seed_from_u64` and `Rng::gen_range`: a fresh
/// generator seeded with `seed` answers each request with a value in its
/// half-open range, and the same seed and requests give the same values.
#[verifier::external_body]
pub(crate) fn draw_seeded(seed: u64, requests: &Vec<(i64, i64)>) -> (r: Vec<i64>)
    requires
        forall|j: int| 0 <= j < requests@.len() ==> requests@[j].0 < requests@[j].1,
    ensures
        r@ == seeded_draws(seed, requests@),
        r@.len() == requests@.len(),
        forall|j: int| 0 <= j < r@.len() ==> requests@[j].0 <= #[trigger] r@[j] < requests@[j].1,
{
    let mut rng = StdRng::seed_from_u64(seed);
    requests.iter().map(|&(low, high)| rng.gen_range(low..high)).collect()
}

/// Relies on nannou's `rand::random_range`: a value of the thread-local
/// generator in the half-open range from `low` to `high`.
#[verifier::external_body]
pub(crate) fn random_between(low: i64, high: i64) -> (r: i64)
    requires
        low < high,
    ensures
        low <= r < high,
{
    nannou::rand::random_range(low, high)
}

/// A fresh seed, below one million.
pub fn random_seed() -> (r: u64)
    ensures
        r < 1_000_000,
{
    random_between(0, 1_000_000) as u64
}

/// A colour with red, green and blue channels each drawn uniformly.
pub fn random_rgb() -> (r: (u8, u8, u8)) {
    let red = random_between(0, 256) as u8;
    let green = random_between(0, 256) as u8;
    let blue = random_between(0, 256) as u8;
    (red, green, blue)
}

} // verus!
