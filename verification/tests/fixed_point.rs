//! Unit checks of the fixed-point primitives.

use cwt::fixed::{exp_neg, fix_mul, fix_mul_wide, fix_div_wide, fix_sqrt, isqrt, SCALE};

#[test]
fn fix_mul_exact_products() {
    // 1.5 * 2.5 = 3.75
    assert_eq!(fix_mul(1_500_000_000, 2_500_000_000), 3_750_000_000);
    // Signs: rounding is toward zero on every combination.
    assert_eq!(fix_mul(-1_500_000_000, 2_500_000_000), -3_750_000_000);
    assert_eq!(fix_mul(1_500_000_000, -2_500_000_000), -3_750_000_000);
    assert_eq!(fix_mul(-1_500_000_000, -2_500_000_000), 3_750_000_000);
    // Products below one unit truncate to zero.
    assert_eq!(fix_mul(1, 1), 0);
    assert_eq!(fix_mul(-1, 1), 0);
    // Multiplying by one is exact.
    assert_eq!(fix_mul(123_456_789, SCALE), 123_456_789);
}

#[test]
fn fix_mul_wide_handles_large_words() {
    let big: i64 = 4_000_000_000_000_000_000;
    let w = fix_mul_wide(big, big);
    assert_eq!(w, (big as i128) * (big as i128) / (SCALE as i128));
}

#[test]
fn fix_div_wide_exact_quotients() {
    // 5.0 / 2.0 = 2.5
    assert_eq!(fix_div_wide(5_000_000_000, 2_000_000_000), 2_500_000_000);
    // -5.0 / 2.0 rounds toward zero.
    assert_eq!(fix_div_wide(-5_000_000_000, 3_000_000_000), -1_666_666_666);
}

#[test]
fn isqrt_exact_values() {
    assert_eq!(isqrt(0), 0);
    assert_eq!(isqrt(1), 1);
    assert_eq!(isqrt(3), 1);
    assert_eq!(isqrt(4), 2);
    assert_eq!(isqrt(10_000_000_018_000_000_000), 3_162_277_663);
}

#[test]
fn fix_sqrt_matches_float_sqrt() {
    assert_eq!(fix_sqrt(4 * SCALE), 2 * SCALE);
    assert_eq!(fix_sqrt(0), 0);
    // sqrt(2) = 1.41421356237...
    assert_eq!(fix_sqrt(2 * SCALE), 1_414_213_562);
    for &v in &[0.25f64, 3.0, 10.5, 12345.0] {
        let u = (v * SCALE as f64) as i64;
        let r = fix_sqrt(u) as f64 / SCALE as f64;
        assert!((r - v.sqrt()).abs() < 1e-6, "sqrt of {v}");
    }
}

#[test]
fn exp_neg_matches_float_exp() {
    let sc = SCALE as u64;
    // Exactly one at zero.
    assert_eq!(exp_neg(0), sc);
    // Exact fixed-point value of the approximation at one.
    assert_eq!(exp_neg(sc), 367_879_483);
    for &t in &[0.001f64, 0.1, 0.5, 1.0, 2.0, 5.0, 10.0, 30.0] {
        let u = (t * SCALE as f64) as u64;
        let r = exp_neg(u) as f64 / SCALE as f64;
        assert!((r - (-t).exp()).abs() < 1e-6, "exp(-{t})");
    }
    // Far in the tail the approximation underflows to zero.
    assert_eq!(exp_neg(100 * sc), 0);
}
