use vstd::prelude::*;
use rand::rngs::StdRng;

verus! {

#[verifier::external_type_specification]
#[verifier::external_body]
pub struct ExStdRng(rand::rngs::StdRng);

/// Relies on rand's `SeedableRng::seed_from_u64` for `StdRng`: a generator
/// whose draws are determined by the seed.
#[verifier::external_body]
pub(crate) fn seeded(seed: u64) -> StdRng {
    <StdRng as rand::SeedableRng>::seed_from_u64(seed)
}

/// Relies on rand's `Rng::gen::<bool>`: one fair coin toss.
#[verifier::external_body]
pub(crate) fn draw_coin(rng: &mut StdRng) -> bool {
    rand::Rng::gen::<bool>(rng)
}

/// Relies on rand's `Rng::gen::<usize>`: a uniformly drawn `usize`.
#[verifier::external_body]
pub(crate) fn draw_index(rng: &mut StdRng) -> usize {
    rand::Rng::gen::<usize>(rng)
}

} // verus!
