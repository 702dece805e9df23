//! The seeded pseudorandom stream, as far as the library draws from it.
//!
//! The generator is `rand::rngs::StdRng`. Nothing of what it computes is
//! proved here: the items of this file state what is taken on trust.
use rand::rngs::StdRng;
use rand::Rng;
use rand::SeedableRng;
use vstd::prelude::*;

verus! {

/// `rand::rngs::StdRng`, the generator. Nothing is claimed of what a value
/// holds: it is made, drawn from and dropped.
#[verifier::external_type_specification]
#[verifier::external_body]
pub struct ExStdRng(StdRng);

/// The internal state of a generator: the bytes of its key, its counter and
/// its buffer. A generator reads nothing else, so two generators in one state
/// give out the same values from there on.
pub uninterp spec fn stream_state(rng: StdRng) -> Seq<u8>;

/// The state of a generator that has just been made from `seed`.
pub uninterp spec fn seeded_state(seed: u64) -> Seq<u8>;

/// What a generator in `state` gives out when asked for an integer from `low`
/// to `high`, both included, and the state in which that leaves it.
pub uninterp spec fn between(state: Seq<u8>, low: i32, high: i32) -> (i32, Seq<u8>);

/// What a generator in `state` gives out when asked for an index from `low`
/// to `high`, both included, and the state in which that leaves it.
pub uninterp spec fn index_between(state: Seq<u8>, low: usize, high: usize) -> (usize, Seq<u8>);

/// `StdRng::seed_from_u64` (`rand::SeedableRng`): a new generator. The seed
/// is stretched to a key by fixed integer arithmetic, so the state of the
/// generator is given by the seed alone.
#[verifier::external_body]
pub(crate) fn seeded(seed: u64) -> (rng: StdRng)
    ensures
        stream_state(rng) == seeded_state(seed),
{
    StdRng::seed_from_u64(seed)
}

/// `Rng::random_range` on `low..=high`, for `i32`: an integer of the range.
/// It panics on an empty range, which `requires` leaves out. The value and
/// the state afterwards are computed from the state before and the two bounds
/// alone.
#[verifier::external_body]
pub(crate) fn draw_between(rng: &mut StdRng, low: i32, high: i32) -> (value: i32)
    requires
        low <= high,
    ensures
        low <= value <= high,
        value == between(stream_state(*old(rng)), low, high).0,
        stream_state(*final(rng)) == between(stream_state(*old(rng)), low, high).1,
{
    rng.random_range(low..=high)
}

/// `Rng::random_range` on `low..=high`, for `usize`: an index of the range.
/// It panics on an empty range, which `requires` leaves out. The value and
/// the state afterwards are computed from the state before and the two bounds
/// alone: bounds that fit 32 bits are sampled as 32-bit integers on every
/// machine.
#[verifier::external_body]
pub(crate) fn draw_index(rng: &mut StdRng, low: usize, high: usize) -> (value: usize)
    requires
        low <= high,
    ensures
        low <= value <= high,
        value == index_between(stream_state(*old(rng)), low, high).0,
        stream_state(*final(rng)) == index_between(stream_state(*old(rng)), low, high).1,
{
    rng.random_range(low..=high)
}

} // verus!
