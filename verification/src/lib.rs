//! Savitzky-Golay smoothing: exact rational filter weights, and the sliding
//! dot product that applies them, with machine-checked contracts.
//!
//! The samples may be of any type. The caller says how a fraction is
//! rendered in it and how a product is added to a running sum; everything
//! else, from the weights to the positions written, is settled here.
//!
//! - `coeffs` computes the weights for a half-width and a moment order as
//!   integers over a common denominator, by integer elimination (`solver`)
//!   on the power sums of the window offsets (`moments`, `arith`).
//! - `meaning`, `uniqueness`, `fidelity` and `average` state what those
//!   weights are: the one set of fractions with the moments of a unit
//!   impulse that lies on a polynomial of the order, through which
//!   polynomials up to that order pass unchanged, and which for order zero
//!   is the moving average.
//! - `kernel` is one weighted sum, `engine` slides it across a buffer, in
//!   turn or on rayon's thread pool, and `filter` puts weights and engine
//!   together. `cache` keeps rendered weights between calls.
//! - `utils` holds counting loops and the filter on vectors.

pub mod arith;
pub mod average;
pub mod cache;
pub mod coeffs;
pub mod engine;
pub mod error;
pub mod fidelity;
pub mod filter;
pub mod kernel;
pub mod meaning;
pub mod moments;
pub mod solver;
pub mod uniqueness;
pub mod utils;

pub use crate::filter::{par_sav_gol, sav_gol};
pub use crate::kernel::dot_prod_update;
