//! Spectral convolution engine.
//!
//! The engine computes, sample by sample, the circular convolution that
//! spectral multiplication yields: both inputs are zero-padded to the length
//! of the longer one (the documented policy), and
//! `c[n] = sum over k of a[k] * b[(n - k) mod L]`.  Every partial sum is
//! held exactly in a wide word, so the one numerical failure is a result
//! component leaving the representable fixed-point range.

use vstd::prelude::*;
use crate::complex::{cmul_im, cmul_re, cmul_wide, cone, czero, Complex};
use crate::error::CwtError;
use crate::fixed::{iabs, lemma_fmul_abs};
use crate::vector::bounded_seq;
use vstd::arithmetic::mul::lemma_mul_upper_bound;
use vstd::arithmetic::div_mod::lemma_mod_add_multiples_vanish;
use vstd::arithmetic::div_mod::lemma_mod_bound;
use vstd::arithmetic::div_mod::lemma_small_mod;

verus! {

/// Largest component magnitude the engine accepts in its inputs.
pub const CONV_LIMIT: i64 = 10_000_000_000_000_000;

/// Largest padded length the engine accepts.
pub const MAX_CONV_LEN: usize = 100_000;

/// Largest machine-word value: result components must stay within it.
pub const RESULT_LIMIT: i64 = 0x7fff_ffff_ffff_ffff;

/// Bound on one summand of a convolution component, for inputs within
/// `CONV_LIMIT`.
pub const TERM_LIMIT: i128 = 200_000_000_000_000_000_000_000;

/// `s` zero-padded at the end to length `n`.
pub open spec fn pad_to(s: Seq<Complex>, n: int) -> Seq<Complex>
    recommends
        s.len() <= n,
{
    Seq::new(n as nat, |i: int| if i < s.len() { s[i] } else { czero() })
}

/// Real part of the first `k` summands of circular-convolution sample `n`.
pub open spec fn conv_re_partial(a: Seq<Complex>, b: Seq<Complex>, n: int, k: int) -> int
    recommends
        a.len() == b.len(),
        a.len() > 0,
    decreases k,
{
    if k <= 0 {
        0
    } else {
        conv_re_partial(a, b, n, k - 1) + cmul_re(a[k - 1], b[(n - (k - 1)) % (a.len() as int)])
    }
}

/// Imaginary part of the first `k` summands of circular-convolution sample
/// `n`.
pub open spec fn conv_im_partial(a: Seq<Complex>, b: Seq<Complex>, n: int, k: int) -> int
    recommends
        a.len() == b.len(),
        a.len() > 0,
    decreases k,
{
    if k <= 0 {
        0
    } else {
        conv_im_partial(a, b, n, k - 1) + cmul_im(a[k - 1], b[(n - (k - 1)) % (a.len() as int)])
    }
}

/// Real part of circular-convolution sample `n` of two equal-length
/// sequences.
pub open spec fn conv_re(a: Seq<Complex>, b: Seq<Complex>, n: int) -> int
    recommends
        a.len() == b.len(),
        a.len() > 0,
{
    conv_re_partial(a, b, n, a.len() as int)
}

/// Imaginary part of circular-convolution sample `n`.
pub open spec fn conv_im(a: Seq<Complex>, b: Seq<Complex>, n: int) -> int
    recommends
        a.len() == b.len(),
        a.len() > 0,
{
    conv_im_partial(a, b, n, a.len() as int)
}

/// Every component of the circular convolution of `a` and `b` fits in a
/// machine word.
pub open spec fn conv_fits(a: Seq<Complex>, b: Seq<Complex>) -> bool
    recommends
        a.len() == b.len(),
        a.len() > 0,
{
    forall|n: int|
        0 <= n < a.len() ==> iabs(#[trigger] conv_re(a, b, n)) <= RESULT_LIMIT as int && iabs(
            conv_im(a, b, n),
        ) <= RESULT_LIMIT as int
}

/// Convolution of a padded sequence with the unit impulse, summand by
/// summand: only the summand at `k - 1 == n` contributes.
proof fn lemma_conv_partial_impulse(a: Seq<Complex>, b: Seq<Complex>, n: int, k: int)
    requires
        a.len() == b.len(),
        a.len() > 0,
        0 <= n < a.len(),
        0 <= k <= a.len(),
        b[0] == cone(),
        forall|j: int| 1 <= j < b.len() ==> b[j] == czero(),
    ensures
        conv_re_partial(a, b, n, k) == if k > n {
            a[n].re as int
        } else {
            0int
        },
        conv_im_partial(a, b, n, k) == if k > n {
            a[n].im as int
        } else {
            0int
        },
    decreases k,
{
    let ll = a.len() as int;
    if k > 0 {
        lemma_conv_partial_impulse(a, b, n, k - 1);
        let j = k - 1;
        if j == n {
            lemma_small_mod(0nat, a.len());
            assert((n - j) % ll == 0);
            crate::complex::lemma_cmul_unit(a[n]);
        } else if j < n {
            lemma_small_mod((n - j) as nat, a.len());
            assert((n - j) % ll == n - j);
            crate::complex::lemma_cmul_zero(a[j]);
        } else {
            lemma_mod_add_multiples_vanish(n - j, ll);
            lemma_small_mod((n - j + ll) as nat, a.len());
            assert((n - j) % ll == n - j + ll);
            assert(1 <= n - j + ll < ll);
            crate::complex::lemma_cmul_zero(a[j]);
        }
    }
}

/// Convolving any sequence with the unit impulse (one at index zero, zero
/// elsewhere) reproduces the sequence exactly.
pub proof fn lemma_convolve_impulse(a: Seq<Complex>, b: Seq<Complex>)
    requires
        a.len() == b.len(),
        a.len() > 0,
        b[0] == cone(),
        forall|j: int| 1 <= j < b.len() ==> b[j] == czero(),
    ensures
        forall|n: int| 0 <= n < a.len() ==> #[trigger] conv_re(a, b, n) == a[n].re as int,
        forall|n: int| 0 <= n < a.len() ==> #[trigger] conv_im(a, b, n) == a[n].im as int,
{
    assert forall|n: int| 0 <= n < a.len() implies #[trigger] conv_re(a, b, n)
        == a[n].re as int by {
        lemma_conv_partial_impulse(a, b, n, a.len() as int);
    }
    assert forall|n: int| 0 <= n < a.len() implies #[trigger] conv_im(a, b, n)
        == a[n].im as int by {
        lemma_conv_partial_impulse(a, b, n, a.len() as int);
    }
}

/// Circular convolution of `signal` and `kernel`, both zero-padded to the
/// length of the longer one.
pub fn convolve(signal: &Vec<Complex>, kernel: &Vec<Complex>) -> (r: Result<Vec<Complex>, CwtError>)
    requires
        signal@.len() <= MAX_CONV_LEN,
        kernel@.len() <= MAX_CONV_LEN,
    ensures
        ({
            let ll = if signal@.len() >= kernel@.len() {
                signal@.len() as int
            } else {
                kernel@.len() as int
            };
            let pa = pad_to(signal@, ll);
            let pb = pad_to(kernel@, ll);
            &&& ((signal@.len() == 0 || kernel@.len() == 0) <==> r == Err::<
                Vec<Complex>,
                CwtError,
            >(CwtError::EmptyInput))
            &&& (r is Ok <==> (signal@.len() > 0 && kernel@.len() > 0 && bounded_seq(
                signal@,
                CONV_LIMIT as int,
            ) && bounded_seq(kernel@, CONV_LIMIT as int) && conv_fits(pa, pb)))
            &&& (signal@.len() > 0 && kernel@.len() > 0 && !(r is Ok) ==> r == Err::<
                Vec<Complex>,
                CwtError,
            >(CwtError::TransformError { index: 0 }))
            &&& (r matches Ok(c) ==> c@.len() == ll && (forall|n: int|
                0 <= n < ll ==> c@[n].re == conv_re(pa, pb, n) && c@[n].im == conv_im(pa, pb, n)))
        }),
        r matches Ok(c) ==> (forall|n: int|
            0 <= n < c@.len() ==> (#[trigger] c@[n]).re == conv_re(
                pad_to(signal@, c@.len() as int),
                pad_to(kernel@, c@.len() as int),
                n,
            ) && c@[n].im == conv_im(
                pad_to(signal@, c@.len() as int),
                pad_to(kernel@, c@.len() as int),
                n,
            )),
{
    let ls: usize = signal.len();
    let lk: usize = kernel.len();
    if ls == 0 || lk == 0 {
        return Err(CwtError::EmptyInput);
    }
    let mut j0: usize = 0;
    while j0 < ls
        invariant
            j0 <= ls,
            0 < ls == signal@.len(),
            0 < lk == kernel@.len(),
            forall|m: int|
                0 <= m < j0 ==> iabs(#[trigger] signal@[m].re as int) <= CONV_LIMIT as int && iabs(
                    signal@[m].im as int,
                ) <= CONV_LIMIT as int,
        decreases ls - j0,
    {
        let v: Complex = signal[j0];
        if v.re > CONV_LIMIT || v.re < -CONV_LIMIT || v.im > CONV_LIMIT || v.im < -CONV_LIMIT {
            proof {
                assert(!bounded_seq(signal@, CONV_LIMIT as int));
            }
            return Err(CwtError::TransformError { index: 0 });
        }
        j0 = j0 + 1;
    }
    let mut j1: usize = 0;
    while j1 < lk
        invariant
            j1 <= lk,
            0 < ls == signal@.len(),
            0 < lk == kernel@.len(),
            forall|m: int|
                0 <= m < j1 ==> iabs(#[trigger] kernel@[m].re as int) <= CONV_LIMIT as int && iabs(
                    kernel@[m].im as int,
                ) <= CONV_LIMIT as int,
        decreases lk - j1,
    {
        let v: Complex = kernel[j1];
        if v.re > CONV_LIMIT || v.re < -CONV_LIMIT || v.im > CONV_LIMIT || v.im < -CONV_LIMIT {
            proof {
                assert(!bounded_seq(kernel@, CONV_LIMIT as int));
            }
            return Err(CwtError::TransformError { index: 0 });
        }
        j1 = j1 + 1;
    }
    proof {
        assert(bounded_seq(signal@, CONV_LIMIT as int));
        assert(bounded_seq(kernel@, CONV_LIMIT as int));
    }
    let ll: usize = if ls >= lk {
        ls
    } else {
        lk
    };
    let ghost pa = pad_to(signal@, ll as int);
    let ghost pb = pad_to(kernel@, ll as int);
    let mut a: Vec<Complex> = Vec::new();
    let mut j: usize = 0;
    while j < ll
        invariant
            j <= ll,
            ls == signal@.len() <= ll,
            a@.len() == j,
            pa == pad_to(signal@, ll as int),
            forall|m: int| 0 <= m < j ==> a@[m] == pa[m],
        decreases ll - j,
    {
        if j < ls {
            a.push(signal[j]);
        } else {
            a.push(Complex::zero());
        }
        j = j + 1;
    }
    let mut b: Vec<Complex> = Vec::new();
    let mut j2: usize = 0;
    while j2 < ll
        invariant
            j2 <= ll,
            lk == kernel@.len() <= ll,
            b@.len() == j2,
            pb == pad_to(kernel@, ll as int),
            forall|m: int| 0 <= m < j2 ==> b@[m] == pb[m],
        decreases ll - j2,
    {
        if j2 < lk {
            b.push(kernel[j2]);
        } else {
            b.push(Complex::zero());
        }
        j2 = j2 + 1;
    }
    proof {
        assert(a@ =~= pa);
        assert(b@ =~= pb);
        assert forall|m: int| 0 <= m < ll implies iabs(#[trigger] a@[m].re as int)
            <= CONV_LIMIT as int && iabs(a@[m].im as int) <= CONV_LIMIT as int && iabs(
            b@[m].re as int,
        ) <= CONV_LIMIT as int && iabs(b@[m].im as int) <= CONV_LIMIT as int by {
            if m < ls {
                assert(a@[m] == signal@[m]);
                assert(iabs(signal@[m].re as int) <= CONV_LIMIT as int);
            } else {
                assert(a@[m] == czero());
            }
            if m < lk {
                assert(b@[m] == kernel@[m]);
                assert(iabs(kernel@[m].re as int) <= CONV_LIMIT as int);
            } else {
                assert(b@[m] == czero());
            }
        }
    }
    let mut out: Vec<Complex> = Vec::new();
    let mut n: usize = 0;
    while n < ll
        invariant
            n <= ll,
            0 < ll <= MAX_CONV_LEN,
            a@ == pa,
            b@ == pb,
            a@.len() == ll,
            b@.len() == ll,
            0 < ls == signal@.len(),
            0 < lk == kernel@.len(),
            ls >= lk ==> ll == ls,
            ls < lk ==> ll == lk,
            pa == pad_to(signal@, ll as int),
            pb == pad_to(kernel@, ll as int),
            bounded_seq(signal@, CONV_LIMIT as int),
            bounded_seq(kernel@, CONV_LIMIT as int),
            forall|m: int|
                0 <= m < ll ==> iabs(#[trigger] a@[m].re as int) <= CONV_LIMIT as int && iabs(
                    a@[m].im as int,
                ) <= CONV_LIMIT as int && iabs(b@[m].re as int) <= CONV_LIMIT as int && iabs(
                    b@[m].im as int,
                ) <= CONV_LIMIT as int,
            out@.len() == n,
            forall|m: int|
                0 <= m < n ==> (#[trigger] out@[m]).re == conv_re(pa, pb, m) && out@[m].im
                    == conv_im(pa, pb, m),
            forall|m: int|
                0 <= m < n ==> iabs(#[trigger] conv_re(pa, pb, m)) <= RESULT_LIMIT as int && iabs(
                    conv_im(pa, pb, m),
                ) <= RESULT_LIMIT as int,
        decreases ll - n,
    {
        let mut sre: i128 = 0;
        let mut sim: i128 = 0;
        let mut k: usize = 0;
        while k < ll
            invariant
                k <= ll,
                n < ll,
                0 < ll <= MAX_CONV_LEN,
                a@ == pa,
                b@ == pb,
                a@.len() == ll,
                b@.len() == ll,
                forall|m: int|
                    0 <= m < ll ==> iabs(#[trigger] a@[m].re as int) <= CONV_LIMIT as int && iabs(
                        a@[m].im as int,
                    ) <= CONV_LIMIT as int && iabs(b@[m].re as int) <= CONV_LIMIT as int && iabs(
                        b@[m].im as int,
                    ) <= CONV_LIMIT as int,
                sre == conv_re_partial(pa, pb, n as int, k as int),
                sim == conv_im_partial(pa, pb, n as int, k as int),
                iabs(sre as int) <= k * (TERM_LIMIT as int),
                iabs(sim as int) <= k * (TERM_LIMIT as int),
        decreases ll - k,
        {
            let idx: usize = (n + ll - k) % ll;
            proof {
                lemma_mod_add_multiples_vanish(n as int - k as int, ll as int);
                assert((n + ll - k) as int == (ll as int) + (n as int - k as int));
                assert(idx as int == (n as int - k as int) % (ll as int));
                lemma_mod_bound((n + ll - k) as int, ll as int);
            }
            let (tre, tim) = cmul_wide(&a[k], &b[idx]);
            proof {
                let av = a@[k as int];
                let bv = b@[idx as int];
                assert(iabs(a@[idx as int].re as int) <= CONV_LIMIT as int);
                assert(iabs(av.re as int) <= CONV_LIMIT as int && iabs(av.im as int)
                    <= CONV_LIMIT as int);
                assert(iabs(bv.re as int) <= CONV_LIMIT as int && iabs(bv.im as int)
                    <= CONV_LIMIT as int);
                lemma_fmul_abs(av.re as int, bv.re as int);
                lemma_fmul_abs(av.im as int, bv.im as int);
                lemma_fmul_abs(av.re as int, bv.im as int);
                lemma_fmul_abs(av.im as int, bv.re as int);
                lemma_mul_upper_bound(iabs(av.re as int), CONV_LIMIT as int, iabs(bv.re as int),
                    CONV_LIMIT as int);
                lemma_mul_upper_bound(iabs(av.im as int), CONV_LIMIT as int, iabs(bv.im as int),
                    CONV_LIMIT as int);
                lemma_mul_upper_bound(iabs(av.re as int), CONV_LIMIT as int, iabs(bv.im as int),
                    CONV_LIMIT as int);
                lemma_mul_upper_bound(iabs(av.im as int), CONV_LIMIT as int, iabs(bv.re as int),
                    CONV_LIMIT as int);
                assert(iabs(tre as int) <= TERM_LIMIT as int);
                assert(iabs(tim as int) <= TERM_LIMIT as int);
                assert((k + 1) * (TERM_LIMIT as int) == k * (TERM_LIMIT as int) + (
                TERM_LIMIT as int)) by (nonlinear_arith);
                lemma_mul_upper_bound(k as int, MAX_CONV_LEN as int, TERM_LIMIT as int,
                    TERM_LIMIT as int);
            }
            sre = sre + tre;
            sim = sim + tim;
            k = k + 1;
        }
        proof {
            lemma_mul_upper_bound(ll as int, MAX_CONV_LEN as int, TERM_LIMIT as int,
                TERM_LIMIT as int);
            assert(sre == conv_re(pa, pb, n as int));
            assert(sim == conv_im(pa, pb, n as int));
        }
        if sre > RESULT_LIMIT as i128 || sre < -(RESULT_LIMIT as i128) || sim
            > RESULT_LIMIT as i128 || sim < -(RESULT_LIMIT as i128) {
            proof {
                assert(iabs(conv_re(pa, pb, n as int)) > RESULT_LIMIT as int || iabs(
                    conv_im(pa, pb, n as int),
                ) > RESULT_LIMIT as int);
                assert(!conv_fits(pa, pb));
            }
            return Err(CwtError::TransformError { index: 0 });
        }
        out.push(Complex { re: sre as i64, im: sim as i64 });
        n = n + 1;
    }
    proof {
        assert(conv_fits(pa, pb));
    }
    Ok(out)
}

} // verus!
