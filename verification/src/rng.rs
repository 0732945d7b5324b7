//! The simulation's source of randomness: a single owned pseudo-random
//! generator, built from a seed and drawn from through one narrow wrapper.

use vstd::prelude::*;

use rand::Rng;
use rand::SeedableRng;
use rand::rngs::StdRng;

verus! {

#[verifier::external_type_specification]
#[verifier::external_body]
pub struct ExStdRng(StdRng);

/// Relies on rand::SeedableRng::seed_from_u64: builds a generator from the
/// seed without touching any outside source, and never fails.
#[verifier::external_body]
pub(crate) fn rng_from_seed(seed: u64) -> StdRng {
    StdRng::seed_from_u64(seed)
}

/// Relies on rand::Rng::gen_range on the inclusive range `lo..=hi`: it
/// panics only on an empty range, and returns a value inside the range.
/// Nothing further is assumed; to the verified caller two draws on the same
/// range are unrelated.
#[verifier::external_body]
pub(crate) fn rand_in_range(rng: &mut StdRng, lo: i64, hi: i64) -> (r: i64)
    requires
        lo <= hi,
    ensures
        lo <= r <= hi,
{
    rng.gen_range(lo..=hi)
}

} // verus!
