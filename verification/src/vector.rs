//! Vector utilities: length equalization and element-wise complex
//! multiplication.

use vstd::prelude::*;
use crate::complex::{czero, cmul_im, cmul_re, cmul_wide, Complex};
use crate::error::CwtError;
use crate::fixed::iabs;
use crate::fixed::lemma_fmul_abs;
use crate::kernel::Wavelet;
use vstd::arithmetic::mul::lemma_mul_upper_bound;

verus! {

/// Largest component magnitude `mult_vector` accepts; it keeps the exact
/// product of two samples inside a machine word.
pub const COMPONENT_LIMIT: i64 = 10_000_000_000_000;

/// Every component of every sample of `s` is at most `m` in magnitude.
pub open spec fn bounded_seq(s: Seq<Complex>, m: int) -> bool {
    forall|i: int|
        0 <= i < s.len() ==> iabs(#[trigger] s[i].re as int) <= m && iabs(s[i].im as int) <= m
}

/// The pointwise complex product of two equal-length sequences, as exact
/// integer pairs.
pub open spec fn spec_mult(a: Seq<Complex>, b: Seq<Complex>) -> Seq<(int, int)>
    recommends
        a.len() == b.len(),
{
    Seq::new(a.len(), |i: int| (cmul_re(a[i], b[i]), cmul_im(a[i], b[i])))
}

/// Element-wise complex multiplication is commutative.
pub proof fn lemma_mult_vector_comm(a: Seq<Complex>, b: Seq<Complex>)
    requires
        a.len() == b.len(),
    ensures
        spec_mult(a, b) == spec_mult(b, a),
{
    assert forall|i: int| 0 <= i < a.len() implies #[trigger] spec_mult(a, b)[i] == spec_mult(
        b,
        a,
    )[i] by {
        crate::complex::lemma_cmul_comm(a[i], b[i]);
    }
    assert(spec_mult(a, b) =~= spec_mult(b, a));
}

/// A transform in progress: the synthesized wavelet bank, the input signal,
/// and the output rows.
pub struct Cwt {
    pub wavelet: Wavelet,
    pub input: Vec<Complex>,
    pub output: Vec<Vec<Complex>>,
}

impl Cwt {
    /// Zero-pads the shorter of two sequences so both come back with the
    /// length of the longer one; the longer sequence is returned untouched,
    /// and the shorter keeps all its samples ahead of the padding.  Empty
    /// input is the one failure.
    pub fn pad_vector(vec1: Vec<Complex>, vec2: Vec<Complex>) -> (r: Result<
        (Vec<Complex>, Vec<Complex>),
        CwtError,
    >)
        ensures
            r is Err <==> (vec1@.len() == 0 || vec2@.len() == 0),
            r is Err ==> r == Err::<(Vec<Complex>, Vec<Complex>), CwtError>(CwtError::EmptyInput),
            r matches Ok(p) ==> {
                let n = if vec1@.len() >= vec2@.len() {
                    vec1@.len()
                } else {
                    vec2@.len()
                };
                &&& p.0@.len() == n
                &&& p.1@.len() == n
                &&& (forall|i: int| 0 <= i < vec1@.len() ==> p.0@[i] == vec1@[i])
                &&& (forall|i: int| vec1@.len() <= i < n ==> p.0@[i] == czero())
                &&& (forall|i: int| 0 <= i < vec2@.len() ==> p.1@[i] == vec2@[i])
                &&& (forall|i: int| vec2@.len() <= i < n ==> p.1@[i] == czero())
            },
    {
        let l1: usize = vec1.len();
        let l2: usize = vec2.len();
        if l1 == 0 || l2 == 0 {
            return Err(CwtError::EmptyInput);
        }
        let n: usize = if l1 >= l2 {
            l1
        } else {
            l2
        };
        let ghost v1 = vec1@;
        let ghost v2 = vec2@;
        let mut a: Vec<Complex> = vec1;
        let mut b: Vec<Complex> = vec2;
        while a.len() < n
            invariant
                l1 == v1.len(),
                l1 <= a@.len() <= n,
                forall|i: int| 0 <= i < l1 ==> a@[i] == v1[i],
                forall|i: int| l1 <= i < a@.len() ==> a@[i] == czero(),
            decreases n - a.len(),
        {
            a.push(Complex::zero());
        }
        while b.len() < n
            invariant
                l2 == v2.len(),
                l2 <= b@.len() <= n,
                forall|i: int| 0 <= i < l2 ==> b@[i] == v2[i],
                forall|i: int| l2 <= i < b@.len() ==> b@[i] == czero(),
            decreases n - b.len(),
        {
            b.push(Complex::zero());
        }
        Ok((a, b))
    }

    /// Multiplies two equal-length sequences sample by sample with the full
    /// complex product.  Empty input and unequal lengths are the failures.
    pub fn mult_vector(vec1: Vec<Complex>, vec2: Vec<Complex>) -> (r: Result<
        Vec<Complex>,
        CwtError,
    >)
        requires
            bounded_seq(vec1@, COMPONENT_LIMIT as int),
            bounded_seq(vec2@, COMPONENT_LIMIT as int),
        ensures
            (vec1@.len() == 0 || vec2@.len() == 0) ==> r == Err::<Vec<Complex>, CwtError>(
                CwtError::EmptyInput,
            ),
            (vec1@.len() > 0 && vec2@.len() > 0 && vec1@.len() != vec2@.len()) ==> r == Err::<
                Vec<Complex>,
                CwtError,
            >(CwtError::LengthMismatch),
            r is Ok <==> (vec1@.len() > 0 && vec1@.len() == vec2@.len()),
            r matches Ok(c) ==> c@.len() == vec1@.len() && (forall|i: int|
                0 <= i < c@.len() ==> c@[i].re == cmul_re(vec1@[i], vec2@[i]) && c@[i].im
                    == cmul_im(vec1@[i], vec2@[i])),
    {
        let l1: usize = vec1.len();
        let l2: usize = vec2.len();
        if l1 == 0 || l2 == 0 {
            return Err(CwtError::EmptyInput);
        }
        if l1 != l2 {
            return Err(CwtError::LengthMismatch);
        }
        let mut out: Vec<Complex> = Vec::new();
        let mut i: usize = 0;
        while i < l1
            invariant
                i <= l1,
                l1 == vec1@.len() == vec2@.len(),
                bounded_seq(vec1@, COMPONENT_LIMIT as int),
                bounded_seq(vec2@, COMPONENT_LIMIT as int),
                out@.len() == i,
                forall|j: int|
                    0 <= j < i ==> out@[j].re == cmul_re(vec1@[j], vec2@[j]) && out@[j].im
                        == cmul_im(vec1@[j], vec2@[j]),
            decreases l1 - i,
        {
            let (wre, wim) = cmul_wide(&vec1[i], &vec2[i]);
            proof {
                let av = vec1@[i as int];
                let bv = vec2@[i as int];
                lemma_fmul_abs(av.re as int, bv.re as int);
                lemma_fmul_abs(av.im as int, bv.im as int);
                lemma_fmul_abs(av.re as int, bv.im as int);
                lemma_fmul_abs(av.im as int, bv.re as int);
                lemma_mul_upper_bound(iabs(av.re as int), COMPONENT_LIMIT as int,
                    iabs(bv.re as int), COMPONENT_LIMIT as int);
                lemma_mul_upper_bound(iabs(av.im as int), COMPONENT_LIMIT as int,
                    iabs(bv.im as int), COMPONENT_LIMIT as int);
                lemma_mul_upper_bound(iabs(av.re as int), COMPONENT_LIMIT as int,
                    iabs(bv.im as int), COMPONENT_LIMIT as int);
                lemma_mul_upper_bound(iabs(av.im as int), COMPONENT_LIMIT as int,
                    iabs(bv.re as int), COMPONENT_LIMIT as int);
            }
            out.push(Complex { re: wre as i64, im: wim as i64 });
            i = i + 1;
        }
        Ok(out)
    }
}

} // verus!
