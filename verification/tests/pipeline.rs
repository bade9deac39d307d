//! End-to-end checks of the fixed-point transform pipeline.

use cwt::complex::Complex;
use cwt::convolve::convolve;
use cwt::error::CwtError;
use cwt::fixed::SCALE;
use cwt::kernel::{Wavelet, WaveletType};
use cwt::scalogram::transform;
use cwt::vector::Cwt;

const SC: i64 = SCALE;

fn fx(v: f64) -> i64 {
    (v * SC as f64) as i64
}

fn to_f(u: i64) -> f64 {
    u as f64 / SC as f64
}

fn c(re: i64, im: i64) -> Complex {
    Complex { re, im }
}

/// Float-side Ricker formula, for reference values.
fn ricker_ref(s: f64, x: f64) -> f64 {
    (2.0 / ((3.0 * s).sqrt() * std::f64::consts::PI.powf(0.25))) * (1.0 - (x / s).powi(2))
        * (-(x * x) / (2.0 * s * s)).exp()
}

#[test]
fn ricker_at_origin_matches_closed_form() {
    // At x = 0 the kernel equals 2 / (sqrt(3 s) * pi^(1/4)).
    for &s in &[1.0f64, 2.0, 0.5, 7.25] {
        let k = Wavelet::ricker(&vec![0i64], fx(s)).unwrap();
        let expect = 2.0 / ((3.0 * s).sqrt() * std::f64::consts::PI.powf(0.25));
        assert!((to_f(k[0].re) - expect).abs() < 1e-6, "s = {s}");
        assert_eq!(k[0].im, 0);
    }
    // Exact fixed-point value for s = 1.0.
    let k = Wavelet::ricker(&vec![0i64], SC).unwrap();
    assert_eq!(k[0].re, 867_325_071);
}

#[test]
fn ricker_symmetric_on_symmetric_grid() {
    let grid: Vec<i64> = vec![-3 * SC, -2 * SC, -SC, 0, SC, 2 * SC, 3 * SC];
    let k = Wavelet::ricker(&grid, fx(1.5)).unwrap();
    for j in 0..3 {
        assert_eq!(k[j], k[6 - j]);
    }
}

#[test]
fn ricker_known_values() {
    // Exact fixed-point kernel on the centered grid of 8 points, s = 1.0.
    let grid: Vec<i64> = (0..8).map(|j| (j - 4) * SC).collect();
    let k = Wavelet::ricker(&grid, SC).unwrap();
    let expect: Vec<i64> = vec![
        -4_364_319,
        -77_080_872,
        -352_139_132,
        0,
        867_325_071,
        0,
        -352_139_132,
        -77_080_872,
    ];
    for j in 0..8 {
        assert_eq!(k[j].re, expect[j], "index {j}");
        assert_eq!(k[j].im, 0);
    }
    // And each is close to the real formula.
    for j in 0..8 {
        assert!((to_f(k[j].re) - ricker_ref(1.0, (j as f64) - 4.0)).abs() < 1e-6);
    }
}

#[test]
fn ricker_rejects_nonpositive_scale() {
    assert_eq!(
        Wavelet::ricker(&vec![0i64], 0),
        Err(CwtError::InvalidScale { index: 0 })
    );
    assert_eq!(
        Wavelet::ricker(&vec![0i64], -SC),
        Err(CwtError::InvalidScale { index: 0 })
    );
}

#[test]
fn morlet_is_unconfigured() {
    assert_eq!(Wavelet::morlet(), Err(CwtError::UnsupportedFamily));
}

#[test]
fn wavelet_new_builds_ricker_bank() {
    let grid: Vec<i64> = (0..4).map(|j| (j - 2) * SC).collect();
    let w = Wavelet::new(WaveletType::Ricker, vec![SC, 2 * SC], grid.clone()).unwrap();
    assert_eq!(w.scales, vec![SC, 2 * SC]);
    assert_eq!(w.data.len(), 2);
    let k0 = Wavelet::ricker(&grid, SC).unwrap();
    let k1 = Wavelet::ricker(&grid, 2 * SC).unwrap();
    assert_eq!(w.data[0], k0);
    assert_eq!(w.data[1], k1);
}

#[test]
fn wavelet_new_error_cases() {
    let grid: Vec<i64> = vec![0, SC];
    assert_eq!(
        Wavelet::new(WaveletType::Ricker, vec![], grid.clone()),
        Err(CwtError::EmptyInput)
    );
    assert_eq!(
        Wavelet::new(WaveletType::Morlet, vec![SC], grid.clone()),
        Err(CwtError::UnsupportedFamily)
    );
    assert_eq!(
        Wavelet::new(WaveletType::Custom, vec![SC], grid.clone()),
        Err(CwtError::UnsupportedFamily)
    );
    assert_eq!(
        Wavelet::new(WaveletType::Ricker, vec![SC, -1, SC], grid),
        Err(CwtError::InvalidScale { index: 1 })
    );
}

#[test]
fn pad_vector_equalizes_lengths() {
    let a = vec![c(SC, 0), c(2 * SC, SC)];
    let b = vec![c(3 * SC, 0), c(0, 0), c(5, 5), c(7, 7)];
    let (pa, pb) = Cwt::pad_vector(a.clone(), b.clone()).unwrap();
    assert_eq!(pa.len(), 4);
    assert_eq!(pb.len(), 4);
    // The longer input is untouched, the shorter keeps its prefix.
    assert_eq!(pb, b);
    assert_eq!(&pa[..2], &a[..]);
    assert_eq!(pa[2], c(0, 0));
    assert_eq!(pa[3], c(0, 0));
    // Equal lengths come back unchanged.
    let (qa, qb) = Cwt::pad_vector(b.clone(), b.clone()).unwrap();
    assert_eq!(qa, b);
    assert_eq!(qb, b);
}

#[test]
fn pad_vector_rejects_empty() {
    assert_eq!(
        Cwt::pad_vector(vec![], vec![c(SC, 0)]),
        Err(CwtError::EmptyInput)
    );
    assert_eq!(
        Cwt::pad_vector(vec![c(SC, 0)], vec![]),
        Err(CwtError::EmptyInput)
    );
}

#[test]
fn mult_vector_is_true_complex_product() {
    // (1 + 2i)(3 + 4i) = -5 + 10i: the cross terms must be there.
    let a = vec![c(SC, 2 * SC)];
    let b = vec![c(3 * SC, 4 * SC)];
    let p = Cwt::mult_vector(a, b).unwrap();
    assert_eq!(p[0], c(-5 * SC, 10 * SC));
}

#[test]
fn mult_vector_commutes() {
    let a = vec![c(SC, 2 * SC), c(-SC, fx(0.5)), c(7, -9)];
    let b = vec![c(3 * SC, 4 * SC), c(fx(2.5), -SC), c(11, 13)];
    assert_eq!(
        Cwt::mult_vector(a.clone(), b.clone()),
        Cwt::mult_vector(b, a)
    );
}

#[test]
fn mult_vector_error_cases() {
    assert_eq!(
        Cwt::mult_vector(vec![], vec![c(SC, 0)]),
        Err(CwtError::EmptyInput)
    );
    assert_eq!(
        Cwt::mult_vector(vec![c(SC, 0)], vec![]),
        Err(CwtError::EmptyInput)
    );
    assert_eq!(
        Cwt::mult_vector(vec![c(SC, 0)], vec![c(SC, 0), c(0, 0)]),
        Err(CwtError::LengthMismatch)
    );
}

#[test]
fn convolve_with_impulse_reproduces_signal() {
    let signal = vec![c(SC, -2 * SC), c(fx(0.25), fx(1.5)), c(-7 * SC, 11), c(42, -42)];
    let mut impulse = vec![c(0, 0); 4];
    impulse[0] = c(SC, 0);
    let out = convolve(&signal, &impulse).unwrap();
    assert_eq!(out, signal);
}

#[test]
fn convolve_error_cases() {
    let signal = vec![c(SC, 0)];
    assert_eq!(convolve(&signal, &vec![]), Err(CwtError::EmptyInput));
    assert_eq!(convolve(&vec![], &signal), Err(CwtError::EmptyInput));
    // A component beyond the engine's input bound is a numerical failure.
    let huge = vec![c(20_000_000_000_000_000, 0)];
    assert_eq!(
        convolve(&signal, &huge),
        Err(CwtError::TransformError { index: 0 })
    );
}

#[test]
fn transform_rows_follow_scale_order() {
    let signal: Vec<Complex> = (0..8).map(|j| c(fx((j as f64).sin()), 0)).collect();
    let s1 = fx(1.0);
    let s2 = fx(2.0);
    let sc = transform(WaveletType::Ricker, &vec![s1, s2], &signal).unwrap();
    assert_eq!(sc.rows.len(), 2);
    // Row 0 is the convolution at s1, row 1 at s2, regardless of sweep order.
    let grid: Vec<i64> = (0..8).map(|j| (j - 4) * SC).collect();
    let k1 = Wavelet::ricker(&grid, s1).unwrap();
    let k2 = Wavelet::ricker(&grid, s2).unwrap();
    assert_eq!(sc.rows[0], convolve(&signal, &k1).unwrap());
    assert_eq!(sc.rows[1], convolve(&signal, &k2).unwrap());
}

#[test]
fn transform_error_cases() {
    let signal = vec![c(SC, 0), c(0, 0)];
    assert_eq!(
        transform(WaveletType::Ricker, &vec![], &signal),
        Err(CwtError::EmptyInput)
    );
    assert_eq!(
        transform(WaveletType::Ricker, &vec![SC], &vec![]),
        Err(CwtError::EmptyInput)
    );
    assert_eq!(
        transform(WaveletType::Morlet, &vec![SC], &signal),
        Err(CwtError::UnsupportedFamily)
    );
    assert_eq!(
        transform(WaveletType::Custom, &vec![SC], &signal),
        Err(CwtError::UnsupportedFamily)
    );
    // A negative scale is reported with its index.
    assert_eq!(
        transform(WaveletType::Ricker, &vec![SC, 2 * SC, -SC], &signal),
        Err(CwtError::InvalidScale { index: 2 })
    );
    assert_eq!(
        transform(WaveletType::Ricker, &vec![0, SC], &signal),
        Err(CwtError::InvalidScale { index: 0 })
    );
}

#[test]
fn sine_scalogram_matches_reference() {
    // Eight samples of a sine wave, scales 1, 2 and 4: a 3 x 8 scalogram
    // whose samples match a float-computed circular convolution within the
    // fixed-point resolution.
    let n = 8usize;
    let sine: Vec<f64> = (0..n).map(|j| (2.0 * std::f64::consts::PI * j as f64 / n as f64).sin())
        .collect();
    let signal: Vec<Complex> = sine.iter().map(|&v| c(fx(v), 0)).collect();
    let scales = vec![fx(1.0), fx(2.0), fx(4.0)];
    let sc = transform(WaveletType::Ricker, &scales, &signal).unwrap();
    assert_eq!(sc.rows.len(), 3);
    for row in &sc.rows {
        assert_eq!(row.len(), n);
    }
    // Reference: float kernel on the centered grid, circular convolution.
    for (ri, &s) in [1.0f64, 2.0, 4.0].iter().enumerate() {
        let kern: Vec<f64> = (0..n).map(|j| ricker_ref(s, j as f64 - 4.0)).collect();
        for t in 0..n {
            let mut acc = 0.0f64;
            for k in 0..n {
                acc += to_f(signal[k].re) * kern[(t + n - k) % n];
            }
            assert!(
                (to_f(sc.rows[ri][t].re) - acc).abs() < 1e-5,
                "row {ri} sample {t}: {} vs {acc}",
                to_f(sc.rows[ri][t].re)
            );
            assert_eq!(sc.rows[ri][t].im, 0);
        }
    }
}
