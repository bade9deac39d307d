//! Fixed-point complex samples and their product.

use vstd::prelude::*;
use crate::fixed::{fmul, iabs, SCALE};
use crate::fixed::fix_mul_wide;

verus! {

/// One complex sample: real and imaginary parts, each a fixed-point number
/// in units of `1 / SCALE`.
#[derive(Clone, Copy, PartialEq, Eq, Structural, Debug)]
pub struct Complex {
    pub re: i64,
    pub im: i64,
}

/// The complex zero.
pub open spec fn czero() -> Complex {
    Complex { re: 0, im: 0 }
}

/// The complex unit: one in the real part, zero in the imaginary part.
pub open spec fn cone() -> Complex {
    Complex { re: SCALE, im: 0 }
}

/// Real part of the full complex product
/// `(ar + i ai)(br + i bi) = (ar br - ai bi) + i (ar bi + ai br)`.
pub open spec fn cmul_re(a: Complex, b: Complex) -> int {
    fmul(a.re as int, b.re as int) - fmul(a.im as int, b.im as int)
}

/// Imaginary part of the full complex product.
pub open spec fn cmul_im(a: Complex, b: Complex) -> int {
    fmul(a.re as int, b.im as int) + fmul(a.im as int, b.re as int)
}

impl Complex {
    /// The complex zero.
    pub fn zero() -> (r: Complex)
        ensures
            r == czero(),
    {
        Complex { re: 0, im: 0 }
    }

    /// The complex unit.
    pub fn one() -> (r: Complex)
        ensures
            r == cone(),
    {
        Complex { re: SCALE, im: 0 }
    }
}

/// The complex product is commutative.
pub proof fn lemma_cmul_comm(a: Complex, b: Complex)
    ensures
        cmul_re(a, b) == cmul_re(b, a),
        cmul_im(a, b) == cmul_im(b, a),
{
    crate::fixed::lemma_fmul_comm(a.re as int, b.re as int);
    crate::fixed::lemma_fmul_comm(a.im as int, b.im as int);
    crate::fixed::lemma_fmul_comm(a.re as int, b.im as int);
    crate::fixed::lemma_fmul_comm(a.im as int, b.re as int);
}

/// Multiplying by the complex unit is exact: it returns the other factor.
pub proof fn lemma_cmul_unit(a: Complex)
    ensures
        cmul_re(a, cone()) == a.re as int,
        cmul_im(a, cone()) == a.im as int,
{
    crate::fixed::lemma_fmul_unit(a.re as int);
    crate::fixed::lemma_fmul_unit(a.im as int);
    assert(fmul(a.im as int, 0) == 0);
    assert(fmul(a.re as int, 0) == 0);
}

/// Multiplying by the complex zero gives zero.
pub proof fn lemma_cmul_zero(a: Complex)
    ensures
        cmul_re(a, czero()) == 0,
        cmul_im(a, czero()) == 0,
{
    assert(fmul(a.re as int, 0) == 0);
    assert(fmul(a.im as int, 0) == 0);
}

/// Full complex product of two samples, computed exactly in wide words.
pub fn cmul_wide(a: &Complex, b: &Complex) -> (r: (i128, i128))
    ensures
        r.0 == cmul_re(*a, *b),
        r.1 == cmul_im(*a, *b),
        iabs(r.0 as int) <= 0x4_0000_0000_0000_0000_0000_0000int,
        iabs(r.1 as int) <= 0x4_0000_0000_0000_0000_0000_0000int,
{
    let p1: i128 = fix_mul_wide(a.re, b.re);
    let p2: i128 = fix_mul_wide(a.im, b.im);
    let p3: i128 = fix_mul_wide(a.re, b.im);
    let p4: i128 = fix_mul_wide(a.im, b.re);
    proof {
        let bound: int = 0x8000_0000_0000_0000;
        vstd::arithmetic::mul::lemma_mul_upper_bound(iabs(a.re as int), bound,
            iabs(b.re as int), bound);
        vstd::arithmetic::mul::lemma_mul_upper_bound(iabs(a.im as int), bound,
            iabs(b.im as int), bound);
        vstd::arithmetic::mul::lemma_mul_upper_bound(iabs(a.re as int), bound,
            iabs(b.im as int), bound);
        vstd::arithmetic::mul::lemma_mul_upper_bound(iabs(a.im as int), bound,
            iabs(b.re as int), bound);
        assert(iabs(p1 as int) <= 0x2_0000_0000_0000_0000_0000_0000int);
        assert(iabs(p2 as int) <= 0x2_0000_0000_0000_0000_0000_0000int);
        assert(iabs(p3 as int) <= 0x2_0000_0000_0000_0000_0000_0000int);
        assert(iabs(p4 as int) <= 0x2_0000_0000_0000_0000_0000_0000int);
    }
    (p1 - p2, p3 + p4)
}

} // verus!
