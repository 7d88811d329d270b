use vstd::prelude::*;

verus! {

/// The walkers' generator of random numbers.
#[verifier::external_type_specification]
#[verifier::external_body]
pub struct ExPcg64(rand_pcg::Pcg64);

/// Relies on rand_seeder's `Seeder::from(..).make_rng()`: a generator seeded by
/// hashing the seed string.
#[verifier::external_body]
pub(crate) fn seeded_rng(seed: &String) -> (r: rand_pcg::Pcg64) {
    rand_seeder::Seeder::from(seed).make_rng()
}

/// Relies on rand's `Rng::gen_range` over `0..n`: a number below `n`.
#[verifier::external_body]
pub(crate) fn gen_below(rng: &mut rand_pcg::Pcg64, n: usize) -> (r: usize)
    requires
        n > 0,
    ensures
        r < n,
{
    rand::Rng::gen_range(rng, 0..n)
}

} // verus!
