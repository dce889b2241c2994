//! Bayesian inference engine for a hidden-target guessing game on an 8x8
//! grid holding three straight targets of lengths 2, 3 and 4.
//!
//! The engine enumerates every legal board (604,584 of them), filters the
//! hypotheses against hit/miss evidence, and aggregates per-cell weight
//! sums.  All weights are exact integers: an externally supplied prior is a
//! fixed-point number with `PRIOR_ONE` standing for 1.0, and each board's
//! combinatorial generation bias is carried as the exact denominator of its
//! generation probability.  Callers that want a normalized floating-point
//! distribution divide the per-cell sums by the returned total themselves.

pub mod bits;
pub mod placement;
pub mod boards;
pub mod laws;
pub mod smear;
