//! Polynomials over the Goldilocks field: products and values by NTT, and helpers for raw values.

use vstd::arithmetic::div_mod::lemma_mod_bound;
use vstd::arithmetic::power::{lemma_pow0, pow};
use vstd::arithmetic::power2::{
    lemma_pow2_pos, lemma_pow2_strictly_increases, lemma_pow2_unfold, pow2,
};
use vstd::prelude::*;

use crate::fields::goldilocks::{element, prime, root, Goldilocks, GOLDILOCKS};
use crate::fields::lagrange::{lemma_one_polynomial, passes_through, LagrangePrecompute};
use crate::fields::modular::{lemma_canonical, lemma_inside, lemma_same, same};
use crate::fields::ntt::{fits_ntt, is_ntt_size, lemma_log_of, log_of, next_power_of_two};
use crate::fields::poly::{
    convolution, distinct, eval, lemma_eval_product, lemma_padding, lemma_push, lemma_same_eval,
    product, same_coefficients,
};
use crate::fields::transform::{
    all_wf, inverse_root, lemma_ntt_round_trip, transformed, untransformed, values,
};

verus! {

/// The elements, followed by zeros up to a length.
pub open spec fn padded(a: Seq<Goldilocks>, n: nat) -> Seq<Goldilocks> {
    Seq::new(
        n,
        |i: int|
            if i < a.len() {
                a[i]
            } else {
                Goldilocks { value: 0 }
            },
    )
}

/// Copies elements and adds zeros up to a length.
fn pad(a: &[Goldilocks], n: usize) -> (r: Vec<Goldilocks>)
    requires
        a@.len() <= n,
        all_wf(a@),
    ensures
        r@ == padded(a@, n as nat),
        all_wf(r@),
{
    let mut r: Vec<Goldilocks> = Vec::with_capacity(n);
    for i in 0..n
        invariant
            all_wf(a@),
            r@ == padded(a@, n as nat).take(i as int),
            all_wf(r@),
    {
        if i < a.len() {
            assert(a@[i as int].wf());
            r.push(a[i]);
        } else {
            r.push(Goldilocks::zero());
        }
        assert(r@ =~= padded(a@, n as nat).take(i + 1));
    }
    assert(r@ =~= padded(a@, n as nat));
    r
}

/// Zeros at the end change no value.
proof fn lemma_padded_values(a: Seq<Goldilocks>, n: nat, x: int)
    requires
        a.len() <= n,
    ensures
        eval(values(padded(a, n)), x) == eval(values(a), x),
{
    let zeros = Seq::new((n - a.len()) as nat, |i: int| 0int);
    lemma_padding(values(a), (n - a.len()) as nat, x);
    assert(values(padded(a, n)) =~= values(a) + zeros);
}

/// The product of two polynomials over the field.
pub open spec fn poly_product(a: Seq<Goldilocks>, b: Seq<Goldilocks>) -> Seq<Goldilocks> {
    if a.len() == 0 || b.len() == 0 {
        Seq::empty()
    } else {
        Seq::new(
            (a.len() + b.len() - 1) as nat,
            |k: int| element(convolution(values(a), values(b), k, a.len())),
        )
    }
}

/// The transform of the product is the product of the transforms.
proof fn lemma_product_transformed(
    a: Seq<Goldilocks>,
    b: Seq<Goldilocks>,
    c: Seq<Goldilocks>,
    n: nat,
    w: int,
)
    requires
        a.len() > 0,
        b.len() > 0,
        a.len() + b.len() - 1 <= n,
        c.len() == n,
        forall|i: int|
            0 <= i < n ==> #[trigger] c[i] == element(
                transformed(padded(a, n), w)[i].value * transformed(padded(b, n), w)[i].value,
            ),
    ensures
        c == transformed(padded(poly_product(a, b), n), w),
{
    let p = prime();
    let r = poly_product(a, b);
    let (va, vb) = (values(a), values(b));
    assert forall|i: int| 0 <= i < n implies #[trigger] c[i] == transformed(padded(r, n), w)[i] by {
        let x = pow(w, i as nat);
        lemma_padded_values(a, n, x);
        lemma_padded_values(b, n, x);
        lemma_padded_values(r, n, x);
        lemma_eval_product(va, vb, x);
        let (u, v) = (eval(va, x), eval(vb, x));
        lemma_mod_bound(u, p);
        lemma_mod_bound(v, p);
        lemma_inside(u, v % p, p);
        lemma_inside(u, v, p);
        assert(same((u % p) * (v % p), u * v, p));
        assert(same_coefficients(values(r), product(va, vb), p)) by {
            assert forall|k: int| 0 <= k < r.len() implies #[trigger] same(
                values(r)[k],
                product(va, vb)[k],
                p,
            ) by {
                let e = convolution(va, vb, k, a.len());
                lemma_mod_bound(e, p);
                lemma_inside(e, 0, p);
            }
        }
        lemma_same_eval(values(r), product(va, vb), x, x, p);
    }
    assert(c =~= transformed(padded(r, n), w));
}

impl Goldilocks {
    /// Multiplies two polynomials using NTT.
    ///
    /// Returns coefficients of a(x) * b(x).
    /// The result has degree deg(a) + deg(b).
    pub fn poly_mul_ntt(a: &[Goldilocks], b: &[Goldilocks]) -> (r: Vec<Goldilocks>)
        requires
            all_wf(a@),
            all_wf(b@),
            a@.len() > 0 && b@.len() > 0 ==> fits_ntt((a@.len() + b@.len() - 1) as nat),
        ensures
            all_wf(r@),
            r@ == poly_product(a@, b@),
    {
        if a.len() == 0 || b.len() == 0 {
            return Vec::new();
        }
        // Result degree = deg(a) + deg(b), so we need n >= len(a) + len(b) - 1

        let result_len: usize = (a.len() - 1) + b.len();
        let n: usize = next_power_of_two(result_len);
        let ghost l = log_of(n as nat);
        let ghost w = root(l);
        proof {
            let k = choose|k: nat| k <= 32 && n == pow2(k);
            lemma_log_of(k);
        }

        // Pad to power of 2
        let mut a_padded = pad(a, n);
        let mut b_padded = pad(b, n);

        // Forward NTT
        Goldilocks::ntt(a_padded.as_mut_slice());
        Goldilocks::ntt(b_padded.as_mut_slice());
        let ghost (ta, tb) = (a_padded@, b_padded@);

        // Pointwise multiplication
        for i in 0..n
            invariant
                n == ta.len() == tb.len(),
                a_padded@.len() == n,
                b_padded@ == tb,
                all_wf(a_padded@),
                forall|k: int|
                    0 <= k < n ==> #[trigger] a_padded@[k] == if k < i {
                        element(ta[k].value * tb[k].value)
                    } else {
                        ta[k]
                    },
        {
            proof {
                lemma_mod_bound(ta[i as int].value * tb[i as int].value, prime());
            }
            let prod = a_padded[i] * b_padded[i];
            a_padded.set(i, prod);
        }
        let ghost want = padded(poly_product(a@, b@), n as nat);
        proof {
            lemma_product_transformed(a@, b@, a_padded@, n as nat, w);
            assert(all_wf(want)) by {
                assert forall|i: int| 0 <= i < n implies (#[trigger] want[i]).wf() by {
                    if i < result_len {
                        lemma_mod_bound(
                            convolution(values(a@), values(b@), i, a@.len()),
                            prime(),
                        );
                    }
                }
            }
            lemma_ntt_round_trip(want, l);
        }

        // Inverse NTT
        Goldilocks::intt(a_padded.as_mut_slice());
        assert(a_padded@ == want);

        // Trim to actual result length
        a_padded.truncate(result_len);
        assert(a_padded@ =~= poly_product(a@, b@));
        a_padded
    }

    /// Evaluates a polynomial at multiple points using NTT.
    ///
    /// Given coefficients [c_0, c_1, ..., c_{n-1}], returns evaluations
    /// at [1, ω, ω², ..., ω^{n-1}] where ω is the primitive n-th root of unity.
    pub fn poly_eval_ntt(coeffs: &[Goldilocks]) -> (r: Vec<Goldilocks>)
        requires
            all_wf(coeffs@),
            coeffs@.len() > 0 ==> fits_ntt(coeffs@.len()),
        ensures
            all_wf(r@),
            is_ntt_evaluation(coeffs@, r@),
    {
        if coeffs.len() == 0 {
            return Vec::new();
        }
        let n: usize = next_power_of_two(coeffs.len());
        let mut out = pad(coeffs, n);
        Goldilocks::ntt(out.as_mut_slice());
        proof {
            let w = root(log_of(n as nat));
            assert forall|i: int| 0 <= i < n implies (#[trigger] out@[i]) == element(
                eval(values(coeffs@), pow(w, i as nat)),
            ) by {
                lemma_padded_values(coeffs@, n as nat, pow(w, i as nat));
            }
        }
        out
    }

    /// Interpolates a polynomial from evaluations at roots of unity.
    ///
    /// Given evaluations [f(1), f(ω), f(ω²), ..., f(ω^{n-1})],
    /// returns coefficients [c_0, c_1, ..., c_{n-1}].
    pub fn poly_interpolate_ntt(evals: &[Goldilocks]) -> (r: Vec<Goldilocks>)
        requires
            all_wf(evals@),
            evals@.len() > 0 ==> fits_ntt(evals@.len()),
        ensures
            all_wf(r@),
            is_ntt_interpolation(evals@, r@),
    {
        if evals.len() == 0 {
            return Vec::new();
        }
        let n: usize = next_power_of_two(evals.len());
        let mut out = pad(evals, n);
        Goldilocks::intt(out.as_mut_slice());
        out
    }

    /// Interpolates from u64 points and values, returns u64 coefficients.
    ///
    /// This is a convenience wrapper for code that uses raw u64 values.
    pub fn interpolate_u64(points: &[u64], wanted: &[u64]) -> (r: Vec<u64>)
        requires
            points@.len() == wanted@.len(),
            points@.len() < usize::MAX,
            distinct(values(elements(points@)), prime()),
        ensures
            forall|i: int| 0 <= i < r@.len() ==> #[trigger] r@[i] < GOLDILOCKS,
            passes_through(elements(r@), elements(points@), elements(wanted@)),
    {
        let points_g = from_words(points);
        let wanted_g = from_words(wanted);
        let coeffs = Goldilocks::interpolate(points_g.as_slice(), wanted_g.as_slice());
        to_words(coeffs.as_slice())
    }

    /// Evaluates a polynomial (given as u64 coefficients) at a u64 point.
    pub fn poly_eval_u64(coeffs: &[u64], x: u64) -> (r: u64)
        ensures
            r == element(
                eval(values(elements(coeffs@)), element(x as int).value as int),
            ).value,
            r < GOLDILOCKS,
    {
        let x_g = Goldilocks::new(x);
        let ghost c = values(elements(coeffs@));
        let ghost at = x_g.value as int;
        let ghost p = prime();
        let mut result = Goldilocks::zero();
        let mut x_pow = Goldilocks::one();
        proof {
            lemma_pow0(at);
            assert(c.take(0) =~= Seq::<int>::empty());
        }
        for i in 0..coeffs.len()
            invariant
                c == values(elements(coeffs@)),
                at == x_g.value,
                p == prime(),
                x_g.wf(),
                result.wf(),
                x_pow.wf(),
                same(x_pow.value as int, pow(at, i as nat), p),
                same(result.value as int, eval(c.take(i as int), at), p),
        {
            let coeff = Goldilocks::new(coeffs[i]);
            proof {
                let (y, z) = (coeff.value as int, x_pow.value as int);
                assert(c[i as int] == y);
                assert(c.take(i + 1) =~= c.take(i as int).push(y));
                lemma_push(c.take(i as int), y, at);
                lemma_same(y, y, z, pow(at, i as nat), p);
                lemma_mod_bound(y * z, p);
                lemma_inside(y * z, 0, p);
                lemma_same(
                    result.value as int,
                    eval(c.take(i as int), at),
                    (y * z) % p,
                    y * pow(at, i as nat),
                    p,
                );
                lemma_mod_bound(result.value + (y * z) % p, p);
                lemma_inside(result.value + (y * z) % p, 0, p);
                vstd::arithmetic::power::lemma_pow_adds(at, i as nat, 1);
                vstd::arithmetic::power::lemma_pow1(at);
                lemma_same(z, pow(at, i as nat), at, at, p);
                lemma_mod_bound(z * at, p);
                lemma_inside(z * at, 0, p);
            }
            result = result + coeff * x_pow;
            x_pow = x_pow * x_g;
        }
        proof {
            assert(c.take(coeffs@.len() as int) =~= c);
            lemma_canonical(result.value as int, p);
        }
        result.inner()
    }

    /// Multiplies two polynomials (given as u64 coefficients) using NTT.
    pub fn poly_mul_u64(a: &[u64], b: &[u64]) -> (r: Vec<u64>)
        requires
            a@.len() > 0 && b@.len() > 0 ==> fits_ntt((a@.len() + b@.len() - 1) as nat),
        ensures
            forall|i: int| 0 <= i < r@.len() ==> #[trigger] r@[i] < GOLDILOCKS,
            elements(r@) == poly_product(elements(a@), elements(b@)),
    {
        let a_g = from_words(a);
        let b_g = from_words(b);
        let result = Goldilocks::poly_mul_ntt(a_g.as_slice(), b_g.as_slice());
        to_words(result.as_slice())
    }
}

/// The smallest size of a transform that is not below a length.
pub open spec fn is_size_for(n: nat, len: nat) -> bool {
    &&& is_ntt_size(n)
    &&& len <= n
    &&& n > 1 ==> n / 2 < len
}

/// The values of a polynomial at the powers of a root of unity, as many as the smallest transform
/// that takes the coefficients has.
pub open spec fn is_ntt_evaluation(coeffs: Seq<Goldilocks>, r: Seq<Goldilocks>) -> bool {
    if coeffs.len() == 0 {
        r.len() == 0
    } else {
        &&& is_size_for(r.len(), coeffs.len())
        &&& forall|i: int|
            0 <= i < r.len() ==> (#[trigger] r[i]) == element(
                eval(values(coeffs), pow(root(log_of(r.len())), i as nat)),
            )
    }
}

/// The coefficients of the polynomial with given values at the powers of a root of unity.
pub open spec fn is_ntt_interpolation(evals: Seq<Goldilocks>, r: Seq<Goldilocks>) -> bool {
    if evals.len() == 0 {
        r.len() == 0
    } else {
        &&& is_size_for(r.len(), evals.len())
        &&& r == untransformed(padded(evals, r.len()), inverse_root(log_of(r.len())))
    }
}

/// Interpolating the values that a polynomial was evaluated to gives its coefficients back, with
/// zeros behind them.
pub proof fn lemma_interpolation_undoes_evaluation(
    coeffs: Seq<Goldilocks>,
    evals: Seq<Goldilocks>,
    r: Seq<Goldilocks>,
)
    requires
        all_wf(coeffs),
        is_ntt_evaluation(coeffs, evals),
        is_ntt_interpolation(evals, r),
    ensures
        r.len() == evals.len(),
        r == padded(coeffs, evals.len()),
{
    if coeffs.len() > 0 {
        let n = evals.len();
        let k = choose|k: nat| k <= 32 && n == pow2(k);
        let j = choose|j: nat| j <= 32 && r.len() == pow2(j);
        lemma_pow2_pos(k);
        if j > k {
            if j > k + 1 {
                lemma_pow2_strictly_increases(k + 1, j);
            }
            lemma_pow2_unfold(k + 1);
        } else if j < k {
            lemma_pow2_strictly_increases(j, k);
        }
        lemma_log_of(k);
        let a = padded(coeffs, n);
        assert(padded(evals, n) =~= evals);
        assert forall|i: int| 0 <= i < n implies evals[i] == transformed(a, root(k))[i] by {
            lemma_padded_values(coeffs, n, pow(root(k), i as nat));
        }
        assert(evals =~= transformed(a, root(k)));
        lemma_ntt_round_trip(a, k);
    } else {
        assert(r =~= padded(coeffs, evals.len()));
    }
}

/// Evaluating the polynomial that was interpolated through given points gives the given values
/// back, modulo the prime.
pub proof fn lemma_evaluation_undoes_interpolation(
    points: Seq<u64>,
    wanted: Seq<u64>,
    coeffs: Seq<u64>,
    i: int,
)
    requires
        points.len() == wanted.len(),
        passes_through(elements(coeffs), elements(points), elements(wanted)),
        0 <= i < points.len(),
    ensures
        element(eval(values(elements(coeffs)), element(points[i] as int).value as int)).value
            == wanted[i] as int % prime(),
{
    assert(elements(points)[i] == element(points[i] as int));
    lemma_mod_bound(wanted[i] as int, prime());
}

/// Interpolating with precomputed points gives what direct interpolation gives, as often as they
/// are used.
pub proof fn lemma_precomputed_interpolation(
    pre: LagrangePrecompute,
    points: Seq<Goldilocks>,
    wanted: Seq<Goldilocks>,
    direct: Seq<Goldilocks>,
    reused: Seq<Goldilocks>,
)
    requires
        distinct(values(points), prime()),
        pre.points@ == points,
        passes_through(direct, points, wanted),
        passes_through(reused, pre.points@, wanted),
    ensures
        reused == direct,
{
    lemma_one_polynomial(reused, direct, points, wanted);
}

/// The elements that words are congruent to.
pub open spec fn elements(words: Seq<u64>) -> Seq<Goldilocks> {
    Seq::new(words.len(), |i: int| element(words[i] as int))
}

/// Makes elements of words.
fn from_words(words: &[u64]) -> (r: Vec<Goldilocks>)
    ensures
        all_wf(r@),
        r@ == elements(words@),
{
    let mut out: Vec<Goldilocks> = Vec::with_capacity(words.len());
    for i in 0..words.len()
        invariant
            all_wf(out@),
            out@ == elements(words@).take(i as int),
    {
        out.push(Goldilocks::new(words[i]));
        assert(out@ =~= elements(words@).take(i + 1));
    }
    assert(out@ =~= elements(words@));
    out
}

/// The values of elements.
fn to_words(a: &[Goldilocks]) -> (r: Vec<u64>)
    requires
        all_wf(a@),
    ensures
        elements(r@) == a@,
        r@.len() == a@.len(),
        forall|i: int| 0 <= i < r@.len() ==> #[trigger] r@[i] < GOLDILOCKS,
{
    let mut out: Vec<u64> = Vec::with_capacity(a.len());
    for i in 0..a.len()
        invariant
            all_wf(a@),
            out@.len() == i,
            forall|k: int|
                0 <= k < i ==> #[trigger] out@[k] == a@[k].value && out@[k] < GOLDILOCKS,
    {
        assert(a@[i as int].wf());
        out.push(a[i].inner());
    }
    assert forall|i: int| 0 <= i < a@.len() implies elements(out@)[i] == a@[i] by {
        assert(out@[i] == a@[i].value);
        lemma_canonical(a@[i].value as int, prime());
    }
    assert(elements(out@) =~= a@);
    out
}

impl LagrangePrecompute {
    /// Creates a precomputed context from u64 points.
    pub fn new_u64(points: &[u64]) -> (r: LagrangePrecompute)
        requires
            points@.len() < usize::MAX,
            distinct(values(elements(points@)), prime()),
        ensures
            r.wf(),
            r.points@ == elements(points@),
            r.n == points@.len(),
    {
        let points_g = from_words(points);
        LagrangePrecompute::new(points_g.as_slice())
    }

    /// Fast interpolation from u64 values, returns u64 coefficients.
    pub fn interpolate_u64(&self, wanted: &[u64]) -> (r: Vec<u64>)
        requires
            self.wf(),
            wanted@.len() == self.n,
        ensures
            forall|i: int| 0 <= i < r@.len() ==> #[trigger] r@[i] < GOLDILOCKS,
            passes_through(elements(r@), self.points@, elements(wanted@)),
    {
        let wanted_g = from_words(wanted);
        let coeffs = self.interpolate(wanted_g.as_slice());
        to_words(coeffs.as_slice())
    }
}

/// Multiplying polynomials is multiplying their values at every point.
pub proof fn lemma_product_values(a: Seq<Goldilocks>, b: Seq<Goldilocks>, x: int)
    requires
        a.len() > 0,
        b.len() > 0,
    ensures
        same(
            eval(values(poly_product(a, b)), x),
            eval(values(a), x) * eval(values(b), x),
            prime(),
        ),
{
    let p = prime();
    let (va, vb) = (values(a), values(b));
    let r = poly_product(a, b);
    assert(same_coefficients(values(r), product(va, vb), p)) by {
        assert forall|k: int| 0 <= k < r.len() implies #[trigger] same(
            values(r)[k],
            product(va, vb)[k],
            p,
        ) by {
            let e = convolution(va, vb, k, a.len());
            lemma_mod_bound(e, p);
            lemma_inside(e, 0, p);
        }
    }
    lemma_same_eval(values(r), product(va, vb), x, x, p);
    lemma_eval_product(va, vb, x);
}

} // verus!
