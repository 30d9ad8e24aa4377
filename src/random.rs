use vstd::prelude::*;
use rand::{Rng, SeedableRng};
use rand::rngs::StdRng;
use crate::config::{LinkConditionerConfig, PROBABILITY_ONE};
use crate::conditioner::{ConditionDraws, draws_fit};

verus! {

/// rand's seedable generator, held opaque.
#[verifier::external_type_specification]
#[verifier::external_body]
pub struct ExStdRng(StdRng);

/// Relies on rand's `SeedableRng::seed_from_u64`: a generator determined by
/// `seed`, so that a run can be repeated.
#[verifier::external_body]
pub(crate) fn seeded_rng(seed: u64) -> (r: StdRng) {
    StdRng::seed_from_u64(seed)
}

/// Relies on rand's `Rng::gen_range` over the inclusive range `0..=bound`,
/// which is never empty: the value drawn lies in that range.
#[verifier::external_body]
pub(crate) fn draw_at_most(rng: &mut StdRng, bound: u32) -> (r: u32)
    ensures
        r <= bound,
{
    rng.gen_range(0..=bound)
}

/// Draws what decides the fate of one packet under `config`.
pub fn draw_conditions(rng: &mut StdRng, config: &LinkConditionerConfig) -> (d: ConditionDraws)
    ensures
        draws_fit(*config, d),
{
    let loss_roll = draw_at_most(rng, PROBABILITY_ONE - 1);
    let jitter_roll = draw_at_most(rng, PROBABILITY_ONE - 1);
    let jitter_offset = draw_at_most(rng, config.jitter);
    let direction = draw_at_most(rng, 1);
    ConditionDraws { loss_roll, jitter_roll, jitter_offset, jitter_up: direction == 1 }
}

} // verus!
