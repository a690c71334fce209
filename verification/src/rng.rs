//! Trusted interface to `rand`: the seeded small PRNG and weighted index
//! sampling.  Nothing is assumed about the values drawn beyond the ranges
//! the sources guarantee, so every caller must be correct for every
//! possible outcome.

use vstd::prelude::*;

verus! {

#[verifier::external_type_specification]
#[verifier::external_body]
pub struct ExSmallRng(rand::rngs::SmallRng);

/// Sum of a sequence of weights.
pub open spec fn u32_seq_sum(s: Seq<u32>) -> int
    decreases s.len(),
{
    if s.len() == 0 {
        0
    } else {
        u32_seq_sum(s.drop_last()) + s.last()
    }
}

/// Relies on `rand::SeedableRng::from_seed` for `SmallRng`: deterministic
/// construction from a 16-byte seed, never panics.
#[verifier::external_body]
pub fn small_rng_from_seed(seed: [u8; 16]) -> (r: rand::rngs::SmallRng)
{
    <rand::rngs::SmallRng as rand::SeedableRng>::from_seed(seed)
}

/// Relies on `rand::RngCore::next_u32` for `SmallRng`: draws one 32-bit
/// value, never panics.  Nothing is assumed about the value drawn.
#[verifier::external_body]
pub fn rng_next_u32(rng: &mut rand::rngs::SmallRng) -> (r: u32)
{
    rand::RngCore::next_u32(rng)
}

/// Relies on `rand_distr::weighted::WeightedIndex` (`new` followed by
/// `Distribution::sample`): with at least one weight, every weight
/// positive and the total within `u32`, construction succeeds and the
/// sampled index is in range with a positive weight.
#[verifier::external_body]
pub fn sample_weighted_index(weights: &Vec<u32>, rng: &mut rand::rngs::SmallRng) -> (r: usize)
    requires
        weights@.len() >= 1,
        forall|i: int| 0 <= i < weights@.len() ==> weights@[i] >= 1,
        u32_seq_sum(weights@) <= u32::MAX,
    ensures
        r < weights@.len(),
        weights@[r as int] > 0,
{
    let dist = rand_distr::weighted::WeightedIndex::new(weights.iter()).unwrap();
    rand_distr::Distribution::sample(&dist, rng)
}

} // verus!
