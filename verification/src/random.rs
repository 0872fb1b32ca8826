//! The random-draw capability: uniform draws over integer ranges, and the
//! skip-distance draw the skip-ahead sampler needs. Stateful, exclusively
//! owned, infallible; an empty range is a caller error and is excluded by
//! precondition rather than reported.

use vstd::prelude::*;

verus! {

/// Capability to draw random values. Callers may substitute any source with
/// these two operations, e.g. a seeded generator for reproducible runs.
pub trait RandomSource: Sized {
    /// Draw an integer uniformly from the half-open range `lo..hi`. An empty
    /// range is a programming error and is excluded outright.
    fn draw_uniform_range(&mut self, lo: usize, hi: usize) -> (r: usize)
        requires
            lo < hi,
        ensures
            lo <= r < hi,
    ;

    /// Draw the skip distance for a sampler whose most recently considered
    /// item sits at 1-based position `index1`: how many items the sampler
    /// advances to reach its next candidate, floored at one so that the
    /// traversal always moves forward.
    fn skip_distance(&mut self, index1: usize) -> (r: usize)
        requires
            index1 >= 1,
        ensures
            r >= 1,
    ;
}

#[verifier::external_type_specification]
#[verifier::external_body]
pub struct ExXoshiro256PlusPlus(rand_xoshiro::Xoshiro256PlusPlus);

/// Relies on rand_core::SeedableRng::seed_from_u64: builds a generator whose
/// draw sequence is a fixed function of the seed, enabling reproducible runs.
#[verifier::external_body]
fn xoshiro_from_seed(seed: u64) -> (rng: rand_xoshiro::Xoshiro256PlusPlus) {
    <rand_xoshiro::Xoshiro256PlusPlus as rand::SeedableRng>::seed_from_u64(seed)
}

/// Relies on rand::Rng::gen_range over `lo..hi`: returns a value uniform in
/// the range, and panics only on an empty range, which the precondition
/// excludes.
#[verifier::external_body]
fn xoshiro_gen_range(rng: &mut rand_xoshiro::Xoshiro256PlusPlus, lo: usize, hi: usize) -> (r:
    usize)
    requires
        lo < hi,
    ensures
        lo <= r < hi,
{
    rand::Rng::gen_range(rng, lo..hi)
}

/// Relies on rand_core::RngCore::next_u64: the next 64 random bits; nothing
/// is promised of the value.
#[verifier::external_body]
fn xoshiro_next_u64(rng: &mut rand_xoshiro::Xoshiro256PlusPlus) -> (r: u64) {
    rand::RngCore::next_u64(rng)
}

/// The skip distance determined by a 53-bit draw `u` at 1-based position
/// `index1`: for the unit draw `v == u / 2^53` it is the exact rational
/// ceiling of `v * index1 / (1 - v)`, that is `ceil(u * index1 / (2^53 - u))`,
/// floored at one and pinned to the machine's range where the quotient is
/// beyond it.
pub open spec fn skip_of(u: int, index1: int) -> int {
    let q = (u * index1 + (0x20000000000000 - u) - 1) / (0x20000000000000 - u);
    if q < 1 {
        1
    } else if q > usize::MAX as int {
        usize::MAX as int
    } else {
        q
    }
}

/// Turn one 53-bit draw into the skip distance it determines: exactly
/// `skip_of(u, index1)`, so the drawn value alone decides how far the
/// skip-ahead traversal advances.
pub fn skip_from_draw(u: u64, index1: usize) -> (r: usize)
    requires
        u < 0x20000000000000,
        index1 >= 1,
    ensures
        r == skip_of(u as int, index1 as int),
        r >= 1,
{
    proof {
        assert((u as u128) * (index1 as u128) < 0x20000000000000u128
            * 0x10000000000000000u128) by (nonlinear_arith)
            requires
                (u as u128) < 0x20000000000000u128,
                (index1 as u128) < 0x10000000000000000u128,
        ;
    }
    let num: u128 = (u as u128) * (index1 as u128);
    let den: u128 = 0x20000000000000u128 - (u as u128);
    let q: u128 = (num + (den - 1)) / den;
    if q < 1 {
        1
    } else if q > (usize::MAX as u128) {
        usize::MAX
    } else {
        q as usize
    }
}

/// A random source backed by the xoshiro256++ generator. Deterministic given
/// a fixed seed and a fixed sequence of draw requests.
pub struct XoshiroSource {
    rng: rand_xoshiro::Xoshiro256PlusPlus,
}

impl XoshiroSource {
    /// A source seeded for reproducible draws.
    pub fn seed_from_u64(seed: u64) -> (s: Self) {
        XoshiroSource { rng: xoshiro_from_seed(seed) }
    }
}

impl RandomSource for XoshiroSource {
    fn draw_uniform_range(&mut self, lo: usize, hi: usize) -> (r: usize) {
        xoshiro_gen_range(&mut self.rng, lo, hi)
    }

    /// The unit-interval draw `v` is `u / 2^53` for `u` the top 53 bits of one
    /// 64-bit draw — the same construction the generator's floating-point
    /// conversion uses — and the distance is `skip_of(u, index1)`, computed by
    /// `skip_from_draw`: only the chance of the draw stands between this
    /// method and that exact contract.
    fn skip_distance(&mut self, index1: usize) -> (r: usize) {
        let raw: u64 = xoshiro_next_u64(&mut self.rng);
        let u: u64 = raw >> 11;
        proof {
            assert(raw >> 11 < 0x20000000000000u64) by (bit_vector);
        }
        skip_from_draw(u, index1)
    }
}

} // verus!
