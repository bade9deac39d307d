//! The scale sweep: one convolution per scale, assembled into a scalogram.

use vstd::prelude::*;
use crate::complex::Complex;
use crate::convolve::{conv_fits, conv_im, conv_re, convolve, pad_to, CONV_LIMIT, MAX_CONV_LEN};
use crate::error::CwtError;
use crate::fixed::{iabs, SCALE};
use crate::kernel::{ricker_point, Wavelet, WaveletType, KERNEL_LIMIT, MAX_SCALE};
use crate::vector::bounded_seq;

verus! {

/// The output of a transform: one row of convolution samples per scale,
/// all rows of equal length.
#[derive(Clone, Debug, PartialEq)]
pub struct Scalogram {
    pub rows: Vec<Vec<Complex>>,
}

impl Scalogram {
    /// The common row length.
    pub open spec fn width(&self) -> nat {
        if self.rows@.len() == 0 {
            0
        } else {
            self.rows@[0]@.len()
        }
    }

    /// All rows have the same length.
    pub open spec fn well_formed(&self) -> bool {
        forall|i: int|
            0 <= i < self.rows@.len() ==> (#[trigger] self.rows@[i]@).len() == self.width()
    }

    /// Number of rows.
    pub fn row_count(&self) -> (r: usize)
        ensures
            r == self.rows@.len(),
    {
        self.rows.len()
    }
}

/// The coordinate grid for a signal of length `n`: sample positions
/// centered on the middle of the signal, one unit apart.
pub open spec fn grid_of(n: int) -> Seq<i64> {
    Seq::new(n as nat, |j: int| ((j - n / 2) * (SCALE as int)) as i64)
}

/// The sampled Ricker kernel for scale `s` on the centered grid of length
/// `n`.
pub open spec fn kernel_row(s: int, n: int) -> Seq<Complex> {
    Seq::new(
        n as nat,
        |j: int| Complex { re: ricker_point(s, grid_of(n)[j] as int) as i64, im: 0 },
    )
}

/// The row for scale `s` can be computed within the representable range:
/// the signal is within the engine's input bound and every convolution
/// sample fits in a machine word.
pub open spec fn row_ok(s: int, signal: Seq<Complex>) -> bool {
    bounded_seq(signal, CONV_LIMIT as int) && conv_fits(signal, kernel_row(s, signal.len() as int))
}

/// The whole transform: for each scale in order, synthesize the kernel on
/// the signal's grid, convolve, and store the result as that scale's row.
///
/// The sweep fails fast: an empty scale set or signal reports `EmptyInput`,
/// a family other than Ricker reports `UnsupportedFamily`, and a
/// non-positive scale or an out-of-range convolution reports the index of
/// the scale at which it was found.
pub fn transform(family: WaveletType, scales: &Vec<i64>, signal: &Vec<Complex>) -> (r: Result<
    Scalogram,
    CwtError,
>)
    requires
        signal@.len() <= MAX_CONV_LEN,
        forall|i: int| 0 <= i < scales@.len() ==> scales@[i] <= MAX_SCALE,
    ensures
        scales@.len() == 0 ==> r == Err::<Scalogram, CwtError>(CwtError::EmptyInput),
        scales@.len() > 0 && signal@.len() == 0 ==> r == Err::<Scalogram, CwtError>(
            CwtError::EmptyInput,
        ),
        scales@.len() > 0 && signal@.len() > 0 && !(family is Ricker) ==> r == Err::<
            Scalogram,
            CwtError,
        >(CwtError::UnsupportedFamily),
        r is Ok <==> (scales@.len() > 0 && signal@.len() > 0 && family is Ricker && (forall|i: int|
            0 <= i < scales@.len() ==> scales@[i] >= 1 && row_ok(#[trigger] scales@[i] as int,
            signal@))),
        r matches Err(CwtError::InvalidScale { index }) ==> 0 <= index < scales@.len()
            && scales@[index as int] <= 0 && (forall|j: int|
            0 <= j < index ==> scales@[j] >= 1 && row_ok(#[trigger] scales@[j] as int, signal@)),
        r matches Err(CwtError::TransformError { index }) ==> 0 <= index < scales@.len()
            && scales@[index as int] >= 1 && !row_ok(scales@[index as int] as int, signal@) && (
        forall|j: int|
            0 <= j < index ==> scales@[j] >= 1 && row_ok(#[trigger] scales@[j] as int, signal@)),
        r matches Ok(sc) ==> sc.rows@.len() == scales@.len() && (forall|i: int|
            0 <= i < scales@.len() ==> (#[trigger] sc.rows@[i]@).len() == signal@.len()) && (
        forall|i: int, m: int|
            0 <= i < scales@.len() && 0 <= m < signal@.len() ==> (#[trigger] sc.rows@[i]@[m]).re
                == conv_re(signal@, kernel_row(scales@[i] as int, signal@.len() as int), m)
                && sc.rows@[i]@[m].im == conv_im(
                signal@,
                kernel_row(scales@[i] as int, signal@.len() as int),
                m,
            )),
        r matches Ok(sc) ==> sc.well_formed(),
{
    if scales.len() == 0 {
        return Err(CwtError::EmptyInput);
    }
    if signal.len() == 0 {
        return Err(CwtError::EmptyInput);
    }
    match family {
        WaveletType::Morlet => {
            return Err(CwtError::UnsupportedFamily);
        },
        WaveletType::Custom => {
            return Err(CwtError::UnsupportedFamily);
        },
        WaveletType::Ricker => ricker_sweep(scales, signal),
    }
}

/// The Ricker arm of [`transform`].
fn ricker_sweep(scales: &Vec<i64>, signal: &Vec<Complex>) -> (r: Result<Scalogram, CwtError>)
    requires
        scales@.len() > 0,
        0 < signal@.len() <= MAX_CONV_LEN,
        forall|i: int| 0 <= i < scales@.len() ==> scales@[i] <= MAX_SCALE,
    ensures
        r is Ok <==> (forall|i: int|
            0 <= i < scales@.len() ==> scales@[i] >= 1 && row_ok(#[trigger] scales@[i] as int,
            signal@)),
        r matches Err(CwtError::InvalidScale { index }) ==> 0 <= index < scales@.len()
            && scales@[index as int] <= 0 && (forall|j: int|
            0 <= j < index ==> scales@[j] >= 1 && row_ok(#[trigger] scales@[j] as int, signal@)),
        r matches Err(CwtError::TransformError { index }) ==> 0 <= index < scales@.len()
            && scales@[index as int] >= 1 && !row_ok(scales@[index as int] as int, signal@) && (
        forall|j: int|
            0 <= j < index ==> scales@[j] >= 1 && row_ok(#[trigger] scales@[j] as int, signal@)),
        !(r is Ok) ==> (r matches Err(CwtError::InvalidScale { index }) || r matches Err(
            CwtError::TransformError { index },
        )),
        r matches Ok(sc) ==> sc.rows@.len() == scales@.len() && (forall|i: int|
            0 <= i < scales@.len() ==> (#[trigger] sc.rows@[i]@).len() == signal@.len()) && (
        forall|i: int, m: int|
            0 <= i < scales@.len() && 0 <= m < signal@.len() ==> (#[trigger] sc.rows@[i]@[m]).re
                == conv_re(signal@, kernel_row(scales@[i] as int, signal@.len() as int), m)
                && sc.rows@[i]@[m].im == conv_im(
                signal@,
                kernel_row(scales@[i] as int, signal@.len() as int),
                m,
            )),
        r matches Ok(sc) ==> sc.well_formed(),
{
    let n: usize = signal.len();
    let c: usize = n / 2;
    let mut grid: Vec<i64> = Vec::new();
    let mut j: usize = 0;
    while j < n
        invariant
            j <= n,
            0 < n == signal@.len() <= MAX_CONV_LEN,
            c == n / 2,
            grid@.len() == j,
            forall|m: int| 0 <= m < j ==> grid@[m] == grid_of(n as int)[m],
        decreases n - j,
    {
        proof {
            assert(iabs(j as int - c as int) <= MAX_CONV_LEN as int);
            assert(-100_000_000_000_000 <= (j as int - c as int) * (SCALE as int)
                <= 100_000_000_000_000) by (nonlinear_arith)
                requires
                    iabs(j as int - c as int) <= 100_000,
                    SCALE == 1_000_000_000,
            ;
        }
        let x: i64 = (j as i64 - c as i64) * SCALE;
        grid.push(x);
        j = j + 1;
    }
    proof {
        assert(grid@ =~= grid_of(n as int));
    }
    let ghost sig = signal@;
    let nscales: usize = scales.len();
    let mut rows: Vec<Vec<Complex>> = Vec::new();
    let mut i: usize = 0;
    while i < nscales
        invariant
            i <= nscales,
            nscales == scales@.len(),
            0 < n == signal@.len() <= MAX_CONV_LEN,
            sig == signal@,
            grid@ == grid_of(n as int),
            grid@.len() == n,
            forall|m: int| 0 <= m < nscales ==> scales@[m] <= MAX_SCALE,
            rows@.len() == i,
            forall|m: int|
                0 <= m < i ==> scales@[m] >= 1 && row_ok(#[trigger] scales@[m] as int, signal@),
            forall|m: int| 0 <= m < i ==> (#[trigger] rows@[m]@).len() == n,
            forall|m: int, t: int|
                0 <= m < i && 0 <= t < n ==> (#[trigger] rows@[m]@[t]).re == conv_re(
                    signal@,
                    kernel_row(scales@[m] as int, n as int),
                    t,
                ) && rows@[m]@[t].im == conv_im(
                    signal@,
                    kernel_row(scales@[m] as int, n as int),
                    t,
                ),
        decreases nscales - i,
    {
        let s: i64 = scales[i];
        if s <= 0 {
            return Err(CwtError::InvalidScale { index: i });
        }
        let kern: Vec<Complex> = match Wavelet::ricker(&grid, s) {
            Ok(kern) => kern,
            Err(_) => {
                return Err(CwtError::InvalidScale { index: i });
            },
        };
        proof {
            assert forall|t: int| 0 <= t < n implies kern@[t] == kernel_row(s as int, n as int)[t]
            by {
                assert(kern@[t].re == ricker_point(s as int, grid@[t] as int));
            }
            assert(kern@ =~= kernel_row(s as int, n as int));
            assert forall|t: int|
                0 <= t < kern@.len() implies iabs(#[trigger] kern@[t].re as int)
                <= CONV_LIMIT as int && iabs(kern@[t].im as int) <= CONV_LIMIT as int by {
                assert(iabs(kern@[t].re as int) <= KERNEL_LIMIT);
            }
            assert(bounded_seq(kern@, CONV_LIMIT as int));
        }
        let row: Vec<Complex> = match convolve(signal, &kern) {
            Ok(row) => row,
            Err(_) => {
                proof {
                    assert(pad_to(signal@, n as int) =~= signal@);
                    assert(pad_to(kern@, n as int) =~= kern@);
                    assert(!row_ok(s as int, signal@));
                }
                return Err(CwtError::TransformError { index: i });
            },
        };
        proof {
            assert(pad_to(signal@, n as int) =~= signal@);
            assert(pad_to(kern@, n as int) =~= kern@);
            assert(row_ok(s as int, signal@));
            assert(row@.len() == n);
            assert forall|t: int| 0 <= t < n implies (#[trigger] row@[t]).re == conv_re(
                signal@,
                kernel_row(s as int, n as int),
                t,
            ) && row@[t].im == conv_im(signal@, kernel_row(s as int, n as int), t) by {
                assert(row@[t].re == conv_re(pad_to(signal@, row@.len() as int),
                pad_to(kern@, row@.len() as int), t));
                assert(pad_to(signal@, row@.len() as int) == pad_to(signal@, n as int));
                assert(pad_to(kern@, row@.len() as int) == pad_to(kern@, n as int));
            }
        }
        rows.push(row);
        i = i + 1;
    }
    let result = Scalogram { rows };
    proof {
        assert(result.rows@.len() == nscales);
        assert forall|m: int| 0 <= m < nscales implies (#[trigger] result.rows@[m]@).len()
            == result.width() by {
            assert(result.rows@[0]@.len() == n);
        }
    }
    Ok(result)
}

} // verus!
