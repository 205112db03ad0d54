//! The reproducible random generator behind weight-limited selection: a
//! ChaCha stream cipher seeded only from block-derived entropy, so that the
//! author's dry run and every re-execution draw the same numbers.

use vstd::prelude::*;

verus! {

#[verifier::external_type_specification]
#[verifier::external_body]
pub struct ExChaCha20Rng(rand_chacha::ChaCha20Rng);

/// Relies on `SeedableRng::from_seed` for `ChaCha20Rng`: builds the
/// generator from a 32-byte seed, deterministically.
#[verifier::external_body]
pub fn chacha_from_seed(seed: [u8; 32]) -> rand_chacha::ChaCha20Rng {
    <rand_chacha::ChaCha20Rng as rand_chacha::rand_core::SeedableRng>::from_seed(seed)
}

/// Relies on `Rng::gen_range`: a uniform draw from `0..bound`; the range
/// must be non-empty or the call panics. Nothing more is claimed of the
/// value drawn: every selection is proved correct for every outcome.
#[verifier::external_body]
pub fn chacha_gen_range(rng: &mut rand_chacha::ChaCha20Rng, bound: usize) -> (r: usize)
    requires
        bound > 0,
    ensures
        r < bound,
{
    rand::Rng::gen_range(rng, 0..bound)
}

} // verus!
