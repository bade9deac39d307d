//! Fixed-point scalar arithmetic.
//!
//! Every real quantity in this crate is held as an `i64` count of units of
//! `1 / SCALE`, rounded toward zero.  All arithmetic on such numbers is exact
//! integer arithmetic, so each operation has a precise mathematical
//! description that the verifier checks.

use vstd::prelude::*;
use vstd::arithmetic::div_mod::lemma_div_is_ordered_by_denominator;
use vstd::arithmetic::div_mod::lemma_div_by_multiple;
use vstd::arithmetic::mul::lemma_mul_upper_bound;
use vstd::arithmetic::mul::lemma_mul_inequality;
use vstd::arithmetic::div_mod::lemma_div_is_ordered;

verus! {

/// Number of fixed-point units per whole unit.
pub const SCALE: i64 = 1_000_000_000;

/// Absolute value of a mathematical integer.
pub open spec fn iabs(a: int) -> int {
    if a >= 0 {
        a
    } else {
        -a
    }
}

/// Fixed-point product: `a * b / SCALE`, rounded toward zero.
pub open spec fn fmul(a: int, b: int) -> int {
    let p = a * b;
    if p >= 0 {
        p / (SCALE as int)
    } else {
        -((-p) / (SCALE as int))
    }
}

/// Fixed-point quotient: `a * SCALE / b`, rounded toward zero.
/// Meaningful only for `b > 0`, which is how the crate uses it.
pub open spec fn fdiv(a: int, b: int) -> int
    recommends
        b > 0,
{
    let p = a * (SCALE as int);
    if p >= 0 {
        p / b
    } else {
        -((-p) / b)
    }
}

proof fn lemma_abs_mul(a: int, b: int)
    ensures
        iabs(a) * iabs(b) == iabs(a * b),
{
    assert(iabs(a) * iabs(b) == iabs(a * b)) by (nonlinear_arith);
}

/// Exact fixed-point product of two machine words, in a wide word so that no
/// input can overflow it.
pub fn fix_mul_wide(a: i64, b: i64) -> (r: i128)
    ensures
        r == fmul(a as int, b as int),
        iabs(r as int) <= iabs(a as int) * iabs(b as int),
        (SCALE as int) * iabs(r as int) <= iabs(a as int) * iabs(b as int),
{
    let neg: bool = (a < 0) != (b < 0);
    let am: u64 = if a < 0 {
        (-(a as i128)) as u64
    } else {
        a as u64
    };
    let bm: u64 = if b < 0 {
        (-(b as i128)) as u64
    } else {
        b as u64
    };
    proof {
        assert(am == iabs(a as int));
        assert(bm == iabs(b as int));
        lemma_mul_upper_bound(am as int, 0x8000_0000_0000_0000, bm as int, 0x8000_0000_0000_0000);
    }
    let p: u128 = (am as u128) * (bm as u128);
    let m: u128 = p / (SCALE as u128);
    proof {
        lemma_abs_mul(a as int, b as int);
        assert(p == iabs((a as int) * (b as int)));
        lemma_div_is_ordered_by_denominator(p as int, 1, SCALE as int);
        assert(m <= p);
        vstd::arithmetic::div_mod::lemma_fundamental_div_mod(p as int, SCALE as int);
        vstd::arithmetic::div_mod::lemma_mod_bound(p as int, SCALE as int);
        assert((SCALE as int) * (m as int) <= p);
        assert(((a as int) >= 0 && (b as int) >= 0) || ((a as int) <= 0 && (b as int) <= 0)
            ==> (a as int) * (b as int) >= 0) by (nonlinear_arith);
        assert(((a as int) >= 0 && (b as int) <= 0) || ((a as int) <= 0 && (b as int) >= 0)
            ==> (a as int) * (b as int) <= 0) by (nonlinear_arith);
    }
    if neg {
        -(m as i128)
    } else {
        m as i128
    }
}

/// Exact fixed-point quotient `a * SCALE / b` in a wide word.
pub fn fix_div_wide(a: i64, b: i64) -> (r: i128)
    requires
        b > 0,
    ensures
        r == fdiv(a as int, b as int),
{
    let neg: bool = a < 0;
    let am: u64 = if a < 0 {
        (-(a as i128)) as u64
    } else {
        a as u64
    };
    proof {
        assert(am == iabs(a as int));
        lemma_mul_upper_bound(am as int, 0x8000_0000_0000_0000, SCALE as int, SCALE as int);
    }
    let p: u128 = (am as u128) * (SCALE as u128);
    let m: u128 = p / (b as u128);
    proof {
        assert(iabs(a as int) * (SCALE as int) == iabs((a as int) * (SCALE as int)))
            by (nonlinear_arith);
        assert(p == iabs((a as int) * (SCALE as int)));
        lemma_div_is_ordered_by_denominator(p as int, 1, b as int);
        assert(m <= p);
    }
    if neg {
        -(m as i128)
    } else {
        m as i128
    }
}

/// Fixed-point product narrowed to a machine word; the caller shows the
/// mathematical result fits.
pub fn fix_mul(a: i64, b: i64) -> (r: i64)
    requires
        -0x7fff_ffff_ffff_ffff <= fmul(a as int, b as int) <= 0x7fff_ffff_ffff_ffff,
    ensures
        r == fmul(a as int, b as int),
{
    let w: i128 = fix_mul_wide(a, b);
    w as i64
}

/// Multiplying by the unit `SCALE` is exact: it returns the other factor.
pub proof fn lemma_fmul_unit(a: int)
    ensures
        fmul(a, SCALE as int) == a,
{
    if a >= 0 {
        lemma_div_by_multiple(a, SCALE as int);
        assert(a * (SCALE as int) / (SCALE as int) == a);
    } else {
        assert(-(a * (SCALE as int)) == (-a) * (SCALE as int)) by (nonlinear_arith);
        lemma_div_by_multiple(-a, SCALE as int);
    }
}

/// The magnitude of a fixed-point product is bounded by the product of the
/// magnitudes, both before and after the unit scaling.
pub proof fn lemma_fmul_abs(a: int, b: int)
    ensures
        iabs(fmul(a, b)) <= iabs(a) * iabs(b),
        (SCALE as int) * iabs(fmul(a, b)) <= iabs(a) * iabs(b),
        a >= 0 && b >= 0 ==> fmul(a, b) >= 0,
{
    let p = a * b;
    lemma_abs_mul(a, b);
    assert(a >= 0 && b >= 0 ==> a * b >= 0) by (nonlinear_arith);
    if p >= 0 {
        vstd::arithmetic::div_mod::lemma_fundamental_div_mod(p, SCALE as int);
        vstd::arithmetic::div_mod::lemma_mod_bound(p, SCALE as int);
        vstd::arithmetic::div_mod::lemma_div_pos_is_pos(p, SCALE as int);
        lemma_div_is_ordered_by_denominator(p, 1, SCALE as int);
    } else {
        vstd::arithmetic::div_mod::lemma_fundamental_div_mod(-p, SCALE as int);
        vstd::arithmetic::div_mod::lemma_mod_bound(-p, SCALE as int);
        vstd::arithmetic::div_mod::lemma_div_pos_is_pos(-p, SCALE as int);
        lemma_div_is_ordered_by_denominator(-p, 1, SCALE as int);
    }
}

/// `fmul` is commutative.
pub proof fn lemma_fmul_comm(a: int, b: int)
    ensures
        fmul(a, b) == fmul(b, a),
{
    assert(a * b == b * a);
}

/// Integer square root, rounded down.
pub open spec fn sqrtf(n: nat) -> nat
    decreases n,
{
    if n == 0 {
        0
    } else {
        let r = sqrtf((n - 1) as nat);
        if (r + 1) * (r + 1) <= n {
            r + 1
        } else {
            r
        }
    }
}

/// `sqrtf(n)` is the floor of the square root of `n`.
pub proof fn lemma_sqrtf_bounds(n: nat)
    ensures
        sqrtf(n) * sqrtf(n) <= n,
        n < (sqrtf(n) + 1) * (sqrtf(n) + 1),
    decreases n,
{
    if n == 0 {
        let s1: nat = sqrtf(n) + 1;
        assert(s1 * s1 == 1) by (nonlinear_arith)
            requires
                s1 == 1,
        ;
    } else {
        lemma_sqrtf_bounds((n - 1) as nat);
        let r = sqrtf((n - 1) as nat);
        if (r + 1) * (r + 1) <= n {
            assert(sqrtf(n) == r + 1);
            assert(n <= (r + 1) * (r + 1));
            assert((r + 1) * (r + 1) < (r + 2) * (r + 2)) by (nonlinear_arith);
        } else {
            assert(sqrtf(n) == r);
        }
    }
}

/// Any `r` with `r^2 <= n < (r+1)^2` is the integer square root of `n`.
pub proof fn lemma_sqrtf_unique(n: nat, r: nat)
    requires
        r * r <= n,
        n < (r + 1) * (r + 1),
    ensures
        r == sqrtf(n),
{
    lemma_sqrtf_bounds(n);
    let s = sqrtf(n);
    assert(r * r <= n < (s + 1) * (s + 1) && s * s <= n < (r + 1) * (r + 1) ==> r == s)
        by (nonlinear_arith);
}

/// Integer square root by bisection.
pub fn isqrt(n: u128) -> (r: u64)
    requires
        n < 0x4000_0000_0000_0000_0000_0000_0000_0000int,
    ensures
        r == sqrtf(n as nat),
{
    let mut lo: u128 = 0;
    let mut hi: u128 = 0x8000_0000_0000_0000;
    proof {
        assert(hi * hi > n) by (nonlinear_arith)
            requires
                hi == 0x8000_0000_0000_0000,
                n < 0x4000_0000_0000_0000_0000_0000_0000_0000int,
        ;
    }
    while hi - lo > 1
        invariant
            lo < hi <= 0x8000_0000_0000_0000,
            lo * lo <= n,
            n < hi * hi,
        decreases hi - lo,
    {
        let mid: u128 = lo + (hi - lo) / 2;
        proof {
            assert(lo < mid < hi);
            lemma_mul_upper_bound(mid as int, 0x8000_0000_0000_0000, mid as int,
                0x8000_0000_0000_0000);
        }
        let sq: u128 = mid * mid;
        if sq <= n {
            lo = mid;
        } else {
            hi = mid;
        }
    }
    proof {
        assert(hi == lo + 1);
        lemma_sqrtf_unique(n as nat, lo as nat);
    }
    lo as u64
}

/// Fixed-point square root of a non-negative fixed-point number:
/// the floor of `sqrt(a / SCALE) * SCALE`.
pub open spec fn fsqrt(a: int) -> int
    recommends
        a >= 0,
{
    if a <= 0 {
        0
    } else {
        sqrtf((a * (SCALE as int)) as nat) as int
    }
}

/// Fixed-point square root of a machine word.
pub fn fix_sqrt(a: i64) -> (r: i64)
    requires
        0 <= a,
    ensures
        r == fsqrt(a as int),
        0 <= r,
{
    if a == 0 {
        0
    } else {
        proof {
            lemma_mul_upper_bound(a as int, 0x8000_0000_0000_0000, SCALE as int, SCALE as int);
        }
        let n: u128 = (a as u128) * (SCALE as u128);
        let r: u64 = isqrt(n);
        proof {
            lemma_sqrtf_bounds(n as nat);
            assert((r as int) * (r as int) <= n);
            assert(n < 0x8000_0000_0000_0000 * 0x8000_0000_0000_0000);
            assert((r as int) * (r as int) < 0x8000_0000_0000_0000 * 0x8000_0000_0000_0000
                ==> (r as int) < 0x8000_0000_0000_0000) by (nonlinear_arith);
        }
        r as i64
    }
}

/// Argument bound below which `fexp_neg` uses its polynomial segment
/// directly: one sixteenth of a unit.
pub const EXP_SEGMENT: i64 = 62_500_000;

/// Truncated alternating series for `exp(-t)` on the small segment
/// `0 <= t <= EXP_SEGMENT`, in fixed point.
pub open spec fn epoly(t: int) -> int {
    let t2 = fmul(t, t);
    let t3 = fmul(t2, t);
    let t4 = fmul(t3, t);
    (SCALE as int) - t + t2 / 2 - t3 / 6 + t4 / 24
}

/// Fixed-point decaying exponential `exp(-t / SCALE) * SCALE`: the series
/// segment on small arguments, and the square-and-split identity
/// `exp(-t) == exp(-t/2) * exp(-(t - t/2))` above them.
pub open spec fn fexp_neg(t: int) -> int
    decreases t,
{
    if t < 0 {
        SCALE as int
    } else if t <= EXP_SEGMENT as int {
        epoly(t)
    } else {
        fmul(fexp_neg(t / 2), fexp_neg(t - t / 2))
    }
}

/// At zero the approximation is exactly one.
pub proof fn lemma_fexp_neg_zero()
    ensures
        fexp_neg(0) == SCALE as int,
{
    assert(fmul(0, 0) == 0);
    assert(epoly(0) == SCALE as int);
}

/// Decaying exponential of a non-negative fixed-point argument.
pub fn exp_neg(t: u64) -> (r: u64)
    ensures
        r == fexp_neg(t as int),
        r <= SCALE as u64,
    decreases t,
{
    let sc: u64 = SCALE as u64;
    if t <= EXP_SEGMENT as u64 {
        let sm: u64 = EXP_SEGMENT as u64;
        proof {
            lemma_mul_upper_bound(t as int, EXP_SEGMENT as int, t as int, EXP_SEGMENT as int);
            lemma_mul_inequality(t as int, EXP_SEGMENT as int, t as int);
            lemma_mul_inequality(EXP_SEGMENT as int, SCALE as int, t as int);
            lemma_div_is_ordered((t * t) as int, (SCALE as int) * (t as int), SCALE as int);
            lemma_div_by_multiple(t as int, SCALE as int);
            assert((t as int) * (SCALE as int) == (SCALE as int) * (t as int));
        }
        let t2: u64 = (t * t) / sc;
        proof {
            assert(t2 <= t);
            lemma_mul_upper_bound(t2 as int, EXP_SEGMENT as int, t as int, EXP_SEGMENT as int);
            lemma_mul_inequality(t as int, SCALE as int, t2 as int);
            assert((t2 as int) * (t as int) == (t as int) * (t2 as int)) by (nonlinear_arith);
            assert((t2 as int) * (SCALE as int) == (SCALE as int) * (t2 as int))
                by (nonlinear_arith);
            lemma_div_is_ordered((t2 * t) as int, (t2 as int) * (SCALE as int), SCALE as int);
            lemma_div_by_multiple(t2 as int, SCALE as int);
        }
        let t3: u64 = (t2 * t) / sc;
        proof {
            assert(t3 <= t2);
            lemma_mul_upper_bound(t3 as int, EXP_SEGMENT as int, t as int, EXP_SEGMENT as int);
            lemma_mul_inequality(t as int, SCALE as int, t3 as int);
            assert((t3 as int) * (t as int) == (t as int) * (t3 as int)) by (nonlinear_arith);
            assert((t3 as int) * (SCALE as int) == (SCALE as int) * (t3 as int))
                by (nonlinear_arith);
            lemma_div_is_ordered((t3 * t) as int, (t3 as int) * (SCALE as int), SCALE as int);
            lemma_div_by_multiple(t3 as int, SCALE as int);
        }
        let t4: u64 = (t3 * t) / sc;
        proof {
            assert(t4 <= t3);
            lemma_div_is_ordered_by_denominator(t2 as int, 1, 2);
            lemma_div_is_ordered_by_denominator(t3 as int, 1, 6);
            lemma_div_is_ordered_by_denominator(t4 as int, 6, 24);
            lemma_div_is_ordered(t4 as int, t3 as int, 6);
            lemma_div_is_ordered(t2 as int, t as int, 2);
            lemma_div_is_ordered_by_denominator(t as int, 1, 2);
        }
        let r: u64 = sc - t + t2 / 2 - t3 / 6 + t4 / 24;
        proof {
            assert(r == epoly(t as int));
        }
        r
    } else {
        let h: u64 = t / 2;
        proof {
            vstd::arithmetic::div_mod::lemma_div_is_strictly_smaller(t as int, 2);
            lemma_div_is_ordered(2, t as int, 2);
        }
        let r1: u64 = exp_neg(h);
        let r2: u64 = exp_neg(t - h);
        proof {
            lemma_mul_upper_bound(r1 as int, SCALE as int, r2 as int, SCALE as int);
            lemma_div_is_ordered((r1 * r2) as int, (SCALE as int) * (SCALE as int), SCALE as int);
            lemma_div_by_multiple(SCALE as int, SCALE as int);
        }
        let p: u64 = (r1 * r2) / sc;
        p
    }
}

} // verus!
