//! Uniform random sampling of one element from a stream of unknown length.
//!
//! The stream is consumed at most once, in bounded memory, through the
//! `FallibleSequence` abstraction: each retrieval may fail, and the first
//! failure aborts the whole sampling run. Randomness comes through the
//! `RandomSource` capability, so callers may substitute a seeded generator
//! for reproducible runs.

pub mod fetch;
pub mod random;
pub mod sampler;
pub mod sequence;
