//! Seeded random source used for matrix generation and population placement:
//! a ChaCha stream cipher generator, reached only through trusted wrappers
//! whose contracts state the range of what comes back.
//!
//! Nothing here claims which value is drawn: every caller is verified for
//! every value the contracts admit. That the same seed yields the same stream
//! is a property of the outside generator, exercised by the determinism test.

use vstd::prelude::*;
use rand::Rng;
use rand::SeedableRng;

verus! {

/// Declares rand_chacha's `ChaCha8Rng` so it can stand in fields and
/// signatures; its state is opaque to the verifier.
#[verifier::external_type_specification]
#[verifier::external_body]
pub struct ExChaCha8Rng(rand_chacha::ChaCha8Rng);

/// Relies on rand_chacha's `ChaCha8Rng::seed_from_u64`: builds a generator
/// from a 64-bit seed, deterministically.
#[verifier::external_body]
pub fn seed_rng(seed: u64) -> rand_chacha::ChaCha8Rng {
    rand_chacha::ChaCha8Rng::seed_from_u64(seed)
}

/// Relies on rand's `Rng::gen_range` over `lo..hi` at `i64`: returns a value
/// of the half-open range, and panics only on an empty range, which the
/// `requires` rules out.
#[verifier::external_body]
pub fn rand_i64(rng: &mut rand_chacha::ChaCha8Rng, lo: i64, hi: i64) -> (r: i64)
    requires
        lo < hi,
    ensures
        lo <= r < hi,
{
    rng.gen_range(lo..hi)
}

/// Relies on rand's `Rng::gen_range` over `0..n` at `usize`: returns a value
/// below `n`, and panics only on an empty range, which the `requires` rules
/// out.
#[verifier::external_body]
pub fn rand_below(rng: &mut rand_chacha::ChaCha8Rng, n: usize) -> (r: usize)
    requires
        n > 0,
    ensures
        r < n,
{
    rng.gen_range(0..n)
}

} // verus!
