//! Exact sample generation for a monotone, self-similar "20/80" staircase
//! curve over the unit interval.
//!
//! A recursion order `n >= 1` fixes a grid of `1 + 2^(n-1)` sample indices.
//! Each index is encoded into an exact coordinate numerator over the
//! denominator `5^(n-1)` by re-reading its binary decomposition on a 4:5
//! scale, and the curve value at a coordinate is recovered by a binary
//! search over the same index grid followed by an index mirroring step.
//! All coordinates are exact integer numerators; callers that want real
//! numbers divide by the denominator themselves.

pub mod arith;
pub mod encoder;
pub mod evaluator;
