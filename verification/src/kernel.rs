//! Wavelet kernel synthesis.
//!
//! The Ricker ("Mexican hat") kernel is evaluated in fixed point:
//! `k(x) = amp(s) * (1 - (x/s)^2) * exp(-(x/s)^2 / 2)` with the amplitude
//! `amp(s) = 2 / (sqrt(3 s) * pi^(1/4))`.  Each factor is the fixed-point
//! image of the real formula, so the kernel value is an exact integer
//! function of the scale and the grid position.

use vstd::prelude::*;
use crate::complex::Complex;
use crate::error::CwtError;
use crate::fixed::{fdiv, fexp_neg, fmul, fsqrt, iabs, SCALE};
use crate::fixed::{exp_neg, fix_mul, fix_sqrt};
use crate::fixed::{lemma_fmul_abs, lemma_sqrtf_bounds};
use vstd::arithmetic::mul::lemma_mul_upper_bound;
use vstd::arithmetic::mul::lemma_mul_inequality;
use vstd::arithmetic::div_mod::lemma_fundamental_div_mod;
use vstd::arithmetic::div_mod::lemma_mod_bound;
use vstd::arithmetic::div_mod::lemma_div_pos_is_pos;

verus! {

/// The wavelet families the synthesizer knows about.
#[derive(Clone, Copy, PartialEq, Eq, Structural, Debug)]
pub enum WaveletType {
    Ricker,
    Morlet,
    Custom,
}

/// `pi^(1/4)` in fixed-point units, rounded toward zero.
pub const QUARTIC_ROOT_PI: i64 = 1_331_335_363;

/// Grid positions at least this far from the center, measured in units of
/// the scale, give a kernel value of zero: the Gaussian envelope there is
/// far below the fixed-point resolution.
pub const RICKER_CUTOFF: i64 = 12_000_000_000;

/// Largest accepted scale, in fixed-point units.
pub const MAX_SCALE: i64 = 1_000_000_000_000_000;

/// Every Ricker kernel value fits well inside this magnitude.
pub const KERNEL_LIMIT: i64 = 4_000_000_000_000_000;

/// Fixed-point image of the Ricker amplitude `2 / (sqrt(3 s) * pi^(1/4))`.
pub open spec fn ricker_amp(s: int) -> int
    recommends
        s >= 1,
{
    fdiv(2 * (SCALE as int), fmul(fsqrt(3 * s), QUARTIC_ROOT_PI as int))
}

/// Fixed-point image of `|x| / s`.
pub open spec fn ricker_u(s: int, x: int) -> int
    recommends
        s >= 1,
{
    fdiv(iabs(x), s)
}

/// Fixed-point Ricker kernel value at grid position `x` for scale `s`;
/// the kernel is real-valued.
pub open spec fn ricker_point(s: int, x: int) -> int
    recommends
        s >= 1,
{
    let u = ricker_u(s, x);
    if u >= RICKER_CUTOFF as int {
        0
    } else {
        let u2 = fmul(u, u);
        let e = fexp_neg(u2 / 2);
        fmul(fmul(ricker_amp(s), (SCALE as int) - u2), e)
    }
}

/// A quotient is at least `c` as soon as the dividend is at least `c`
/// times the divisor.
proof fn lemma_quotient_at_least(p: int, d: int, c: int)
    requires
        p >= 0,
        d >= 1,
        c >= 0,
        c * d <= p,
    ensures
        p / d >= c,
{
    lemma_fundamental_div_mod(p, d);
    lemma_mod_bound(p, d);
    lemma_div_pos_is_pos(p, d);
    let q = p / d;
    assert(d * q >= c * d - d + 1);
    assert(q >= c) by (nonlinear_arith)
        requires
            d >= 1,
            c >= 0,
            q >= 0,
            d * q >= c * d - d + 1,
    ;
}

/// At the center of the grid the Ricker kernel equals its amplitude
/// `2 / (sqrt(3 s) * pi^(1/4))`: the quadratic factor and the envelope are
/// both exactly one there.
pub proof fn lemma_ricker_at_origin(s: int)
    requires
        s >= 1,
    ensures
        ricker_point(s, 0) == ricker_amp(s),
{
    assert(iabs(0) == 0);
    assert(0 * (SCALE as int) == 0);
    assert(ricker_u(s, 0) == 0);
    assert(fmul(0, 0) == 0);
    crate::fixed::lemma_fexp_neg_zero();
    crate::fixed::lemma_fmul_unit(ricker_amp(s));
    assert(ricker_point(s, 0) == fmul(fmul(ricker_amp(s), SCALE as int), SCALE as int));
}

/// The Ricker kernel is symmetric: it depends on the grid position only
/// through its distance from the center.
pub proof fn lemma_ricker_symmetric(s: int, x: int)
    requires
        s >= 1,
    ensures
        ricker_point(s, x) == ricker_point(s, -x),
{
    assert(iabs(x as int) == iabs(-x as int));
}

/// Ricker kernel value at one grid position.
pub fn ricker_point_at(s: i64, x: i64) -> (r: i64)
    requires
        1 <= s <= MAX_SCALE,
    ensures
        r == ricker_point(s as int, x as int),
        iabs(r as int) <= KERNEL_LIMIT,
{
    let xa: u64 = if x < 0 {
        (-(x as i128)) as u64
    } else {
        x as u64
    };
    proof {
        assert(xa == iabs(x as int));
        lemma_mul_upper_bound(xa as int, 0x8000_0000_0000_0000, SCALE as int, SCALE as int);
    }
    let uw: u128 = ((xa as u128) * (SCALE as u128)) / (s as u128);
    proof {
        assert(uw == ricker_u(s as int, x as int));
    }
    if uw >= RICKER_CUTOFF as u128 {
        return 0;
    }
    let u: i64 = uw as i64;
    proof {
        lemma_mul_upper_bound(u as int, RICKER_CUTOFF as int, u as int, RICKER_CUTOFF as int);
        lemma_fmul_abs(u as int, u as int);
    }
    let u2: i64 = fix_mul(u, u);
    proof {
        assert(0 <= u2 <= 144_000_000_000);
    }
    let t: u64 = (u2 as u64) / 2;
    let e64: u64 = exp_neg(t);
    let e: i64 = e64 as i64;
    proof {
        assert(e == fexp_neg((u2 as int) / 2));
    }
    let s3: i64 = 3 * s;
    let sq: i64 = fix_sqrt(s3);
    proof {
        lemma_mul_inequality(3, s3 as int, SCALE as int);
        lemma_mul_upper_bound(s3 as int, 3_000_000_000_000_000, SCALE as int, SCALE as int);
        lemma_sqrtf_bounds(((s3 as int) * (SCALE as int)) as nat);
        assert(sq >= 54772) by (nonlinear_arith)
            requires
                sq >= 0,
                ((sq + 1) * (sq + 1)) as int > 3_000_000_000,
        ;
        assert(sq <= 2_000_000_000_000) by (nonlinear_arith)
            requires
                sq >= 0,
                ((sq as int) * (sq as int)) <= 3_000_000_000_000_000_000_000_000int,
        ;
        lemma_fmul_abs(sq as int, QUARTIC_ROOT_PI as int);
        lemma_mul_upper_bound(sq as int, 2_000_000_000_000, QUARTIC_ROOT_PI as int,
            QUARTIC_ROOT_PI as int);
    }
    let b: i64 = fix_mul(sq, QUARTIC_ROOT_PI);
    proof {
        lemma_mul_inequality(54772, sq as int, QUARTIC_ROOT_PI as int);
        lemma_quotient_at_least((sq as int) * (QUARTIC_ROOT_PI as int), SCALE as int, 72919);
        assert(b >= 72919);
    }
    let ampw: i128 = crate::fixed::fix_div_wide(2 * SCALE, b);
    proof {
        lemma_div_pos_is_pos(2 * (SCALE as int) * (SCALE as int), b as int);
        lemma_fundamental_div_mod(2 * (SCALE as int) * (SCALE as int), b as int);
        lemma_mod_bound(2 * (SCALE as int) * (SCALE as int), b as int);
        assert((b as int) * (ampw as int) <= 2 * (SCALE as int) * (SCALE as int));
        lemma_mul_inequality(72919, b as int, ampw as int);
        assert(0 <= ampw <= 27_427_693_742_371);
    }
    let amp: i64 = ampw as i64;
    let omu: i64 = SCALE - u2;
    proof {
        assert(iabs(omu as int) <= 144_000_000_000);
        lemma_fmul_abs(amp as int, omu as int);
        lemma_mul_upper_bound(iabs(amp as int), 27_427_693_742_371, iabs(omu as int),
            144_000_000_000);
    }
    let m1: i64 = fix_mul(amp, omu);
    proof {
        assert(iabs(m1 as int) <= KERNEL_LIMIT);
        lemma_fmul_abs(m1 as int, e as int);
        lemma_mul_inequality(e as int, SCALE as int, iabs(m1 as int));
        assert((iabs(m1 as int)) * (e as int) == (e as int) * (iabs(m1 as int)))
            by (nonlinear_arith);
        assert((iabs(m1 as int)) * (SCALE as int) == (SCALE as int) * (iabs(m1 as int)))
            by (nonlinear_arith);
    }
    let k: i64 = fix_mul(m1, e);
    proof {
        assert(iabs(k as int) <= iabs(m1 as int));
    }
    k
}

/// A bank of sampled kernels: one row of `data` per scale.
#[derive(Clone, Debug, PartialEq)]
pub struct Wavelet {
    pub wavelet_type: WaveletType,
    pub scales: Vec<i64>,
    pub data: Vec<Vec<Complex>>,
}

impl Wavelet {
    /// Samples the Ricker kernel of width `sigma` on the grid `x`.
    ///
    /// The kernel is purely real.  A scale that is not strictly positive is
    /// rejected; called outside a scale sweep, the reported index is zero.
    pub fn ricker(x: &Vec<i64>, sigma: i64) -> (r: Result<Vec<Complex>, CwtError>)
        requires
            sigma <= MAX_SCALE,
        ensures
            sigma <= 0 ==> r == Err::<Vec<Complex>, CwtError>(CwtError::InvalidScale { index: 0 }),
            sigma >= 1 ==> r is Ok,
            r matches Ok(k) ==> {
                &&& sigma >= 1
                &&& k@.len() == x@.len()
                &&& (forall|j: int|
                    0 <= j < x@.len() ==> k@[j].re == ricker_point(sigma as int, x@[j] as int)
                        && k@[j].im == 0)
                &&& (forall|j: int|
                    0 <= j < x@.len() ==> iabs(k@[j].re as int) <= KERNEL_LIMIT)
            },
    {
        if sigma <= 0 {
            return Err(CwtError::InvalidScale { index: 0 });
        }
        let n: usize = x.len();
        let mut out: Vec<Complex> = Vec::new();
        let mut j: usize = 0;
        while j < n
            invariant
                1 <= sigma <= MAX_SCALE,
                j <= n,
                n == x@.len(),
                out@.len() == j,
                forall|m: int|
                    0 <= m < j ==> out@[m].re == ricker_point(sigma as int, x@[m] as int)
                        && out@[m].im == 0,
                forall|m: int| 0 <= m < j ==> iabs(out@[m].re as int) <= KERNEL_LIMIT,
            decreases n - j,
        {
            let v: i64 = ricker_point_at(sigma, x[j]);
            out.push(Complex { re: v, im: 0 });
            j = j + 1;
        }
        Ok(out)
    }

    /// The Morlet family needs a carrier frequency that this crate leaves
    /// as an open configuration decision, so requesting it reports that the
    /// family is not configured.
    pub fn morlet() -> (r: Result<Vec<Complex>, CwtError>)
        ensures
            r == Err::<Vec<Complex>, CwtError>(CwtError::UnsupportedFamily),
    {
        Err(CwtError::UnsupportedFamily)
    }

    /// Builds the kernel bank for `scales` on the grid `input`.
    ///
    /// Ricker is the only family the synthesizer computes itself: Morlet is
    /// not configured, and a Custom kernel is supplied by the caller rather
    /// than synthesized, so both report `UnsupportedFamily` here.  The scale
    /// sweep fails fast at the first non-positive scale.
    pub fn new(wavelet_type: WaveletType, scales: Vec<i64>, input: Vec<i64>) -> (r: Result<
        Wavelet,
        CwtError,
    >)
        requires
            forall|i: int| 0 <= i < scales@.len() ==> scales@[i] <= MAX_SCALE,
        ensures
            scales@.len() == 0 ==> r == Err::<Wavelet, CwtError>(CwtError::EmptyInput),
            scales@.len() > 0 && !(wavelet_type is Ricker) ==> r == Err::<
                Wavelet,
                CwtError,
            >(CwtError::UnsupportedFamily),
            r is Ok <==> (scales@.len() > 0 && wavelet_type is Ricker && (forall|
                i: int,
            | 0 <= i < scales@.len() ==> scales@[i] >= 1)),
            scales@.len() > 0 && wavelet_type is Ricker && !(r is Ok) ==> (r matches
                Err(CwtError::InvalidScale { index }) && 0 <= index < scales@.len()
                && scales@[index as int] <= 0 && (forall|j: int|
                    0 <= j < index ==> scales@[j] >= 1)),
            r matches Ok(w) ==> w.wavelet_type is Ricker && w.scales@ == scales@
                && w.data@.len() == scales@.len(),
            r matches Ok(w) ==> (forall|i: int|
                0 <= i < scales@.len() ==> w.data@[i]@.len() == input@.len()),
            r matches Ok(w) ==> (forall|i: int, j: int|
                0 <= i < scales@.len() && 0 <= j < input@.len() ==> w.data@[i]@[j].re
                    == ricker_point(scales@[i] as int, input@[j] as int) && w.data@[i]@[j].im
                    == 0),
    {
        if scales.len() == 0 {
            return Err(CwtError::EmptyInput);
        }
        match wavelet_type {
            WaveletType::Morlet => {
                return Err(CwtError::UnsupportedFamily);
            },
            WaveletType::Custom => {
                return Err(CwtError::UnsupportedFamily);
            },
            WaveletType::Ricker => Self::ricker_bank(scales, input),
        }
    }

    /// The Ricker arm of [`Wavelet::new`]: sweeps the scales in order.
    fn ricker_bank(scales: Vec<i64>, input: Vec<i64>) -> (r: Result<Wavelet, CwtError>)
        requires
            scales@.len() > 0,
            forall|i: int| 0 <= i < scales@.len() ==> scales@[i] <= MAX_SCALE,
        ensures
            r is Ok <==> (forall|i: int| 0 <= i < scales@.len() ==> scales@[i] >= 1),
            !(r is Ok) ==> (r matches Err(CwtError::InvalidScale { index })
                && 0 <= index < scales@.len() && scales@[index as int] <= 0 && (forall|j: int|
                    0 <= j < index ==> scales@[j] >= 1)),
            r matches Ok(w) ==> {
                &&& w.wavelet_type is Ricker
                &&& w.scales@ == scales@
                &&& w.data@.len() == scales@.len()
                &&& (forall|i: int| 0 <= i < scales@.len() ==> w.data@[i]@.len() == input@.len())
                &&& (forall|i: int, j: int|
                    0 <= i < scales@.len() && 0 <= j < input@.len() ==> w.data@[i]@[j].re
                        == ricker_point(scales@[i] as int, input@[j] as int)
                        && w.data@[i]@[j].im == 0)
            },
    {
        let n: usize = scales.len();
        let mut data: Vec<Vec<Complex>> = Vec::new();
        let mut i: usize = 0;
        while i < n
            invariant
                i <= n,
                n == scales@.len(),
                forall|m: int| 0 <= m < n ==> scales@[m] <= MAX_SCALE,
                data@.len() == i,
                forall|m: int| 0 <= m < i ==> scales@[m] >= 1,
                forall|m: int| 0 <= m < i ==> data@[m]@.len() == input@.len(),
                forall|m: int, j: int|
                    0 <= m < i && 0 <= j < input@.len() ==> data@[m]@[j].re == ricker_point(
                        scales@[m] as int,
                        input@[j] as int,
                    ) && data@[m]@[j].im == 0,
            decreases n - i,
        {
            let s: i64 = scales[i];
            if s <= 0 {
                return Err(CwtError::InvalidScale { index: i });
            }
            let row: Vec<Complex> = match Self::ricker(&input, s) {
                Ok(row) => row,
                Err(_) => {
                    return Err(CwtError::InvalidScale { index: i });
                },
            };
            data.push(row);
            i = i + 1;
        }
        Ok(Wavelet { wavelet_type: WaveletType::Ricker, scales, data })
    }
}

} // verus!
