//! The seeded random source, as far as the library relies on it.
//!
//! Nothing in this module is proved: each contract restates what the `rand` crate documents
//! or what its source shows. The generator is `rand::rngs::StdRng`, which is deterministic:
//! what it yields depends only on the seed it was made from and on the draws made since.

use rand::rngs::StdRng;
use rand::Rng;
use rand::SeedableRng;
use vstd::prelude::*;

verus! {

/// Makes `rand::rngs::StdRng` known as a type whose values cannot be looked into.
#[verifier::external_type_specification]
#[verifier::external_body]
pub struct ExStdRng(rand::rngs::StdRng);

/// The internal state of a generator (key, block counter and position in its buffer):
/// everything that its later output depends on.
pub uninterp spec fn generator_state(rng: StdRng) -> Seq<u8>;

/// The state in which `StdRng::seed_from_u64(seed)` leaves the generator it makes.
pub uninterp spec fn seeded_state(seed: u64) -> Seq<u8>;

/// What `gen_range(low..high)` with `i32` bounds does to a generator in `state`:
/// the value drawn, and the state the generator is left in.
pub uninterp spec fn point_draw(state: Seq<u8>, low: int, high: int) -> (int, Seq<u8>);

/// What `gen_range(low..high)` with `usize` bounds does to a generator in `state` on a
/// machine whose `usize` has `bits` bits: the value drawn, and the state the generator is
/// left in. The width matters because the sampler consumes words of that width.
pub uninterp spec fn index_draw(state: Seq<u8>, low: int, high: int, bits: int) -> (int, Seq<u8>);

/// Calls `StdRng::seed_from_u64`. Trusted: the state of the new generator is a function
/// of the seed alone (the seed is expanded by a fixed PCG32 sequence and handed to
/// `from_seed`).
#[verifier::external_body]
pub(crate) fn seeded_rng(seed: u64) -> (rng: StdRng)
    ensures
        generator_state(rng) == seeded_state(seed),
{
    StdRng::seed_from_u64(seed)
}

/// Calls `Rng::gen_range` on the half-open range `low..high` of `i32`. Trusted: the call
/// panics on an empty range and otherwise returns a value of the range; value and new
/// generator state are functions of the old state and the bounds.
#[verifier::external_body]
pub(crate) fn gen_point(rng: &mut StdRng, low: i32, high: i32) -> (value: i32)
    requires
        low < high,
    ensures
        low <= value < high,
        value == point_draw(generator_state(*old(rng)), low as int, high as int).0,
        generator_state(*final(rng)) == point_draw(
            generator_state(*old(rng)),
            low as int,
            high as int,
        ).1,
{
    rng.gen_range(low..high)
}

/// Calls `Rng::gen_range` on the half-open range `low..high` of `usize`. Trusted: the call
/// panics on an empty range and otherwise returns a value of the range; value and new
/// generator state are functions of the old state, the bounds and the width of `usize`.
#[verifier::external_body]
pub(crate) fn gen_index(rng: &mut StdRng, low: usize, high: usize) -> (value: usize)
    requires
        low < high,
    ensures
        low <= value < high,
        value == index_draw(
            generator_state(*old(rng)),
            low as int,
            high as int,
            usize::BITS as int,
        ).0,
        generator_state(*final(rng)) == index_draw(
            generator_state(*old(rng)),
            low as int,
            high as int,
            usize::BITS as int,
        ).1,
{
    rng.gen_range(low..high)
}

} // verus!
