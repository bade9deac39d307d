//! A continuous wavelet transform over fixed-point complex sequences.
//!
//! The crate synthesizes sampled wavelet kernels, convolves them with an
//! input signal, and assembles the per-scale results into a scalogram.  All
//! numeric state is fixed-point (see [`fixed::SCALE`]), so every arithmetic
//! step has an exact integer meaning that the verifier checks.

pub mod complex;
pub mod convolve;
pub mod error;
pub mod fixed;
pub mod kernel;
pub mod scalogram;
pub mod vector;

