//! Random draws, made through `rand`'s seedable standard generator and the
//! thread's generator.
//!
//! The standard generator is deterministic: its state after seeding depends on
//! the seed alone, and each draw on the state and the range alone. Those
//! results are named (not computed) here, so that a caller can state that
//! equal seeds give equal draws. The thread's generator is seeded by the
//! operating system; of its draws only the range is stated.

use rand::rngs::StdRng;
use rand::rngs::ThreadRng;
use rand::Rng;
use rand::SeedableRng;
use vstd::prelude::*;

verus! {

#[verifier::external_type_specification]
#[verifier::external_body]
pub struct ExStdRng(rand::rngs::StdRng);

/// The state of `StdRng::seed_from_u64(seed)`.
pub uninterp spec fn seeded_generator(seed: u64) -> StdRng;

/// What `Rng::gen_range(low..=high)` gives on a standard generator in state
/// `rng`, with the state it leaves.
pub uninterp spec fn drawn_i32_between(rng: StdRng, low: i32, high: i32) -> (i32, StdRng);

/// What `Rng::gen::<bool>()` gives on a standard generator in state `rng`,
/// with the state it leaves.
pub uninterp spec fn drawn_bool(rng: StdRng) -> (bool, StdRng);

/// Calls `StdRng::seed_from_u64`: the generator's state is fixed by `seed`
/// (`rand_core` expands the seed with a fixed PCG stream into ChaCha's key).
#[verifier::external_body]
pub(crate) fn seeded_rng(seed: u64) -> (rng: StdRng)
    ensures
        rng == seeded_generator(seed),
{
    StdRng::seed_from_u64(seed)
}

/// Calls `Rng::gen_range` on the half-open range `low..high`. `rand` gives a
/// value in that range (and panics when it is empty, which `requires` rules
/// out); for integers it samples `low..=high - 1`, so the draw is the one of
/// that inclusive range.
#[verifier::external_body]
pub(crate) fn random_i32_below(rng: &mut StdRng, low: i32, high: i32) -> (value: i32)
    requires
        low < high,
    ensures
        low <= value < high,
        (value, *final(rng)) == drawn_i32_between(*old(rng), low, (high - 1) as i32),
{
    rng.gen_range(low..high)
}

/// Calls `Rng::gen_range` on the inclusive range `low..=high`, which `rand`
/// documents to give a value in that range (and to panic when it is empty,
/// which `requires` rules out).
#[verifier::external_body]
pub(crate) fn random_i32_between(rng: &mut StdRng, low: i32, high: i32) -> (value: i32)
    requires
        low <= high,
    ensures
        low <= value <= high,
        (value, *final(rng)) == drawn_i32_between(*old(rng), low, high),
{
    rng.gen_range(low..=high)
}

/// Calls `Rng::gen::<bool>`: either value may come, as the state decides.
#[verifier::external_body]
pub(crate) fn random_bool(rng: &mut StdRng) -> (value: bool)
    ensures
        (value, *final(rng)) == drawn_bool(*old(rng)),
{
    rng.gen::<bool>()
}

#[verifier::external_type_specification]
#[verifier::external_body]
pub struct ExThreadRng(rand::rngs::ThreadRng);

/// Calls `rand::thread_rng`: the calling thread's generator, seeded from the
/// operating system.
#[verifier::external_body]
pub(crate) fn thread_rng() -> ThreadRng {
    rand::thread_rng()
}

/// Calls `Rng::gen_range` on `0..high` with the thread's generator; `rand`
/// documents a value in that range (and a panic when it is empty, which
/// `requires` rules out).
#[verifier::external_body]
pub(crate) fn thread_random_i32_below(rng: &mut ThreadRng, high: i32) -> (value: i32)
    requires
        0 < high,
    ensures
        0 <= value < high,
{
    rng.gen_range(0..high)
}

/// Calls `Rng::gen_range` on `0..high` with the thread's generator, for a
/// `usize`; as above.
#[verifier::external_body]
pub(crate) fn thread_random_usize_below(rng: &mut ThreadRng, high: usize) -> (value: usize)
    requires
        0 < high,
    ensures
        value < high,
{
    rng.gen_range(0..high)
}

} // verus!
