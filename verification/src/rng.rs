//! Trusted access to the pseudo-random generator used for tie-breaking.
//!
//! The catalog indexer de-clusters sources that share a spatial key by
//! breaking sort ties with a seeded pseudo-random draw.  Nothing anywhere is
//! assumed about the drawn values: every contract in the crate holds for
//! every possible outcome.

use vstd::prelude::*;

verus! {

#[verifier::external_type_specification]
#[verifier::external_body]
pub struct ExStdRng(rand::rngs::StdRng);

/// Relies on rand's `StdRng::seed_from_u64` to build the deterministic
/// pseudo-random generator; nothing is assumed of the generator's state.
#[verifier::external_body]
pub(crate) fn rng_from_seed(seed: u64) -> rand::rngs::StdRng {
    <rand::rngs::StdRng as rand::SeedableRng>::seed_from_u64(seed)
}

/// Relies on rand's `RngCore::next_u64`; nothing is assumed of the value.
#[verifier::external_body]
pub(crate) fn rng_next_u64(rng: &mut rand::rngs::StdRng) -> u64 {
    rand::RngCore::next_u64(rng)
}

} // verus!
