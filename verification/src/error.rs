//! The error taxonomy of the transform pipeline.

use vstd::prelude::*;

verus! {

/// Everything that can go wrong while building a scalogram.
///
/// Failures found while sweeping the scale set carry the index of the scale
/// at which they occurred; a function used outside a sweep reports index
/// zero.
#[derive(Clone, Copy, PartialEq, Eq, Structural, Debug)]
pub enum CwtError {
    /// A signal, kernel or scale set of length zero.
    EmptyInput,
    /// A scale that is not strictly positive.
    InvalidScale { index: usize },
    /// Two sequences that should have had equal lengths did not.
    LengthMismatch,
    /// A convolution result left the representable fixed-point range.
    TransformError { index: usize },
    /// A wavelet family that is not configured with what it needs.
    UnsupportedFamily,
}

} // verus!
