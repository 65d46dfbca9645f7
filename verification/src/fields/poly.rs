//! Polynomials with integer coefficients, the lowest first.

use vstd::arithmetic::power::{lemma_pow0, lemma_pow1, lemma_pow_adds, pow};
use vstd::prelude::*;

use crate::fields::modular::{
    is_prime, lemma_canonical, lemma_difference, lemma_no_zero_divisors, lemma_same, same,
};

verus! {

/// The value of a polynomial at a point.
pub open spec fn eval(c: Seq<int>, x: int) -> int
    decreases c.len(),
{
    if c.len() == 0 {
        0
    } else {
        c[0] + x * eval(c.skip(1), x)
    }
}

/// The coefficients at even places.
pub open spec fn evens(c: Seq<int>) -> Seq<int> {
    Seq::new(((c.len() + 1) / 2) as nat, |i: int| c[2 * i])
}

/// The coefficients at odd places.
pub open spec fn odds(c: Seq<int>) -> Seq<int> {
    Seq::new((c.len() / 2) as nat, |i: int| c[2 * i + 1])
}

/// The coefficients have the same remainders.
pub open spec fn same_coefficients(c: Seq<int>, d: Seq<int>, m: int) -> bool {
    &&& c.len() == d.len()
    &&& forall|i: int| 0 <= i < c.len() ==> #[trigger] same(c[i], d[i], m)
}

/// Polynomials of the same coefficients have the same values at the same points.
pub proof fn lemma_same_eval(c: Seq<int>, d: Seq<int>, x: int, y: int, m: int)
    requires
        m > 0,
        same_coefficients(c, d, m),
        same(x, y, m),
    ensures
        same(eval(c, x), eval(d, y), m),
    decreases c.len(),
{
    if c.len() > 0 {
        assert(same(c[0], d[0], m));
        assert forall|i: int| 0 <= i < c.skip(1).len() implies #[trigger] same(
            c.skip(1)[i],
            d.skip(1)[i],
            m,
        ) by {
            assert(same(c[i + 1], d[i + 1], m));
        }
        lemma_same_eval(c.skip(1), d.skip(1), x, y, m);
        let (p, q) = (eval(c.skip(1), x), eval(d.skip(1), y));
        lemma_same(x, y, p, q, m);
        lemma_same(c[0], d[0], x * p, y * q, m);
    }
}

/// A polynomial has the same value at points with the same remainder.
pub proof fn lemma_same_point(c: Seq<int>, x: int, y: int, m: int)
    requires
        m > 0,
        same(x, y, m),
    ensures
        same(eval(c, x), eval(c, y), m),
{
    lemma_same_eval(c, c, x, y, m);
}

/// A polynomial is its even part plus its odd part, each at the square of the point.
pub proof fn lemma_even_odd(c: Seq<int>, x: int)
    ensures
        eval(c, x) == eval(evens(c), x * x) + x * eval(odds(c), x * x),
    decreases c.len(),
{
    if c.len() == 0 {
        assert(x * 0 == 0) by (nonlinear_arith);
    } else {
        let rest = c.skip(1);
        lemma_even_odd(rest, x);
        assert(evens(rest) =~= odds(c));
        assert(odds(rest) =~= evens(c).skip(1));
        let (e, o) = (eval(evens(c).skip(1), x * x), eval(odds(c), x * x));
        assert(eval(evens(c), x * x) == c[0] + (x * x) * e);
        assert(x * (o + x * e) == (x * x) * e + x * o) by (nonlinear_arith);
    }
}

/// Zero coefficients at the end change no value.
pub proof fn lemma_padding(c: Seq<int>, n: nat, x: int)
    ensures
        eval(c + Seq::new(n, |i: int| 0int), x) == eval(c, x),
    decreases c.len() + n,
{
    let padded = c + Seq::new(n, |i: int| 0int);
    if c.len() > 0 {
        assert(padded.skip(1) =~= c.skip(1) + Seq::new(n, |i: int| 0int));
        lemma_padding(c.skip(1), n, x);
    } else if n > 0 {
        assert(padded.skip(1) =~= c + Seq::new((n - 1) as nat, |i: int| 0int));
        lemma_padding(c, (n - 1) as nat, x);
        assert(x * 0 == 0) by (nonlinear_arith);
    } else {
        assert(padded =~= c);
    }
}

/// One coefficient more at the end.
pub proof fn lemma_push(c: Seq<int>, a: int, x: int)
    ensures
        eval(c.push(a), x) == eval(c, x) + a * pow(x, c.len()),
    decreases c.len(),
{
    if c.len() == 0 {
        lemma_pow0(x);
        assert(c.push(a).skip(1) =~= Seq::<int>::empty());
        assert(eval(c.push(a).skip(1), x) == 0);
        assert(a + x * 0 == 0 + a * 1) by (nonlinear_arith);
    } else {
        assert(c.push(a).skip(1) =~= c.skip(1).push(a));
        lemma_push(c.skip(1), a, x);
        lemma_pow_adds(x, 1, (c.len() - 1) as nat);
        lemma_pow1(x);
        let (e, p) = (eval(c.skip(1), x), pow(x, (c.len() - 1) as nat));
        assert(x * (e + a * p) == x * e + a * (x * p)) by (nonlinear_arith);
    }
}

/// The sum of two polynomials.
pub open spec fn plus(c: Seq<int>, d: Seq<int>) -> Seq<int> {
    Seq::new(c.len(), |i: int| c[i] + d[i])
}

/// A polynomial times a number.
pub open spec fn scaled(c: Seq<int>, k: int) -> Seq<int> {
    Seq::new(c.len(), |i: int| c[i] * k)
}

/// The value of a sum is the sum of the values.
pub proof fn lemma_eval_plus(c: Seq<int>, d: Seq<int>, x: int)
    requires
        c.len() == d.len(),
    ensures
        eval(plus(c, d), x) == eval(c, x) + eval(d, x),
    decreases c.len(),
{
    if c.len() > 0 {
        assert(plus(c, d).skip(1) =~= plus(c.skip(1), d.skip(1)));
        lemma_eval_plus(c.skip(1), d.skip(1), x);
        let (e, f) = (eval(c.skip(1), x), eval(d.skip(1), x));
        assert(x * (e + f) == x * e + x * f) by (nonlinear_arith);
    }
}

/// The value of a multiple is the multiple of the value.
pub proof fn lemma_eval_scaled(c: Seq<int>, k: int, x: int)
    ensures
        eval(scaled(c, k), x) == eval(c, x) * k,
    decreases c.len(),
{
    if c.len() > 0 {
        assert(scaled(c, k).skip(1) =~= scaled(c.skip(1), k));
        lemma_eval_scaled(c.skip(1), k, x);
        let (a, e) = (c[0], eval(c.skip(1), x));
        assert((a + x * e) * k == a * k + x * (e * k)) by (nonlinear_arith);
    } else {
        assert(0 * k == 0) by (nonlinear_arith);
    }
}

/// The polynomial whose coefficients are all zero.
pub open spec fn zeros(n: nat) -> Seq<int> {
    Seq::new(n, |i: int| 0int)
}

/// It has the value zero.
pub proof fn lemma_eval_zeros(n: nat, x: int)
    ensures
        eval(zeros(n), x) == 0,
    decreases n,
{
    if n > 0 {
        assert(zeros(n).skip(1) =~= zeros((n - 1) as nat));
        lemma_eval_zeros((n - 1) as nat, x);
        assert(x * 0 == 0) by (nonlinear_arith);
    }
}

/// The coefficient of the product of two polynomials at a place: the sum over the first `n` places
/// of the one.
pub open spec fn convolution(a: Seq<int>, b: Seq<int>, k: int, n: nat) -> int
    decreases n,
{
    if n == 0 {
        0
    } else {
        let i = n - 1;
        convolution(a, b, k, (n - 1) as nat) + if 0 <= k - i < b.len() {
            a[i] * b[k - i]
        } else {
            0
        }
    }
}

/// The product of two polynomials.
pub open spec fn product(a: Seq<int>, b: Seq<int>) -> Seq<int> {
    Seq::new((a.len() + b.len() - 1) as nat, |k: int| convolution(a, b, k, a.len()))
}

/// A polynomial moved up by some places, filled up to a length.
spec fn shifted(b: Seq<int>, by: nat, n: nat) -> Seq<int> {
    Seq::new(
        n,
        |k: int|
            if by <= k < by + b.len() {
                b[k - by]
            } else {
                0
            },
    )
}

/// Moving up multiplies by a power of the point.
proof fn lemma_eval_shifted(b: Seq<int>, by: nat, n: nat, x: int)
    requires
        by + b.len() <= n,
    ensures
        eval(shifted(b, by, n), x) == pow(x, by) * eval(b, x),
    decreases by,
{
    if by == 0 {
        lemma_padding(b, (n - b.len()) as nat, x);
        assert(shifted(b, by, n) =~= b + Seq::new((n - b.len()) as nat, |i: int| 0int));
        lemma_pow0(x);
        let e = eval(b, x);
        assert(1 * e == e) by (nonlinear_arith);
    } else {
        let k = (by - 1) as nat;
        lemma_eval_shifted(b, k, (n - 1) as nat, x);
        assert(shifted(b, by, n).skip(1) =~= shifted(b, k, (n - 1) as nat));
        lemma_pow_adds(x, 1, k);
        lemma_pow1(x);
        let (p, e) = (pow(x, k), eval(b, x));
        assert(0 + x * (p * e) == (x * p) * e) by (nonlinear_arith);
    }
}

/// The partial products of the first `n` coefficients.
spec fn partial(a: Seq<int>, b: Seq<int>, n: nat) -> Seq<int> {
    Seq::new((a.len() + b.len() - 1) as nat, |k: int| convolution(a, b, k, n))
}

proof fn lemma_eval_partial(a: Seq<int>, b: Seq<int>, n: nat, x: int)
    requires
        a.len() > 0,
        b.len() > 0,
        n <= a.len(),
    ensures
        eval(partial(a, b, n), x) == eval(a.take(n as int), x) * eval(b, x),
    decreases n,
{
    let len = (a.len() + b.len() - 1) as nat;
    if n == 0 {
        assert(partial(a, b, n) =~= zeros(len));
        lemma_eval_zeros(len, x);
        assert(a.take(0) =~= Seq::<int>::empty());
        let e = eval(b, x);
        assert(0 * e == 0) by (nonlinear_arith);
    } else {
        let i = (n - 1) as nat;
        lemma_eval_partial(a, b, i, x);
        let term = scaled(shifted(b, i, len), a[i as int]);
        assert forall|k: int| 0 <= k < len implies partial(a, b, n)[k] == plus(
            partial(a, b, i),
            term,
        )[k] by {
            if 0 <= k - i < b.len() {
                let (u, v) = (a[i as int], b[k - i]);
                assert(u * v == v * u) by (nonlinear_arith);
            } else {
                let u = a[i as int];
                assert(0 * u == 0) by (nonlinear_arith);
            }
        }
        assert(partial(a, b, n) =~= plus(partial(a, b, i), term));
        lemma_eval_plus(partial(a, b, i), term, x);
        lemma_eval_scaled(shifted(b, i, len), a[i as int], x);
        lemma_eval_shifted(b, i, len, x);
        assert(a.take(n as int) =~= a.take(i as int).push(a[i as int]));
        lemma_push(a.take(i as int), a[i as int], x);
        let (s, p, e, u) = (eval(a.take(i as int), x), pow(x, i), eval(b, x), a[i as int]);
        assert(s * e + (p * e) * u == (s + u * p) * e) by (nonlinear_arith);
    }
}

/// The value of a product is the product of the values.
pub proof fn lemma_eval_product(a: Seq<int>, b: Seq<int>, x: int)
    requires
        a.len() > 0,
        b.len() > 0,
    ensures
        eval(product(a, b), x) == eval(a, x) * eval(b, x),
{
    lemma_eval_partial(a, b, a.len(), x);
    assert(partial(a, b, a.len()) =~= product(a, b));
    assert(a.take(a.len() as int) =~= a);
}

/// The quotient of a polynomial by `x - r`, by synthetic division.
pub open spec fn quotient(c: Seq<int>, r: int) -> Seq<int> {
    Seq::new((c.len() - 1) as nat, |k: int| eval(c.skip(k + 1), r))
}

/// A polynomial is `x - r` times its quotient, plus its value at `r`.
pub proof fn lemma_division(c: Seq<int>, r: int, x: int)
    requires
        c.len() > 0,
    ensures
        eval(c, x) == (x - r) * eval(quotient(c, r), x) + eval(c, r),
    decreases c.len(),
{
    if c.len() == 1 {
        assert(quotient(c, r) =~= Seq::<int>::empty());
        assert(c.skip(1) =~= Seq::<int>::empty());
        assert(x * 0 == 0 && r * 0 == 0 && (x - r) * 0 == 0) by (nonlinear_arith);
        assert(eval(quotient(c, r), x) == 0);
        assert(eval(c.skip(1), x) == 0 && eval(c.skip(1), r) == 0);
    } else {
        let rest = c.skip(1);
        lemma_division(rest, r, x);
        assert(quotient(c, r).skip(1) =~= quotient(rest, r)) by {
            assert forall|k: int| 0 <= k < rest.len() - 1 implies quotient(c, r).skip(1)[k]
                == quotient(rest, r)[k] by {
                assert(c.skip(k + 2) =~= rest.skip(k + 1));
            }
        }
        assert(quotient(c, r)[0] == eval(rest, r)) by {
            assert(c.skip(0int + 1) =~= rest);
        }
        let (a, q, v) = (c[0], eval(quotient(rest, r), x), eval(rest, r));
        assert(eval(quotient(c, r), x) == v + x * q);
        assert(eval(c, x) == a + x * eval(rest, x) && eval(c, r) == a + r * v);
        assert(a + x * ((x - r) * q + v) == (x - r) * (v + x * q) + (a + r * v))
            by (nonlinear_arith);
    }
}

/// No two points have the same remainder.
pub open spec fn distinct(points: Seq<int>, m: int) -> bool {
    forall|i: int, j: int|
        #![trigger points[i], points[j]]
        0 <= i < j < points.len() ==> !same(points[i], points[j], m)
}

/// A polynomial with as many zeros as coefficients is zero.
pub proof fn lemma_zeros(c: Seq<int>, points: Seq<int>, p: int)
    requires
        is_prime(p),
        points.len() == c.len(),
        distinct(points, p),
        forall|i: int| 0 <= i < points.len() ==> #[trigger] same(eval(c, points[i]), 0, p),
    ensures
        forall|k: int| 0 <= k < c.len() ==> #[trigger] same(c[k], 0, p),
    decreases c.len(),
{
    if c.len() > 0 {
        let r = points[0];
        let q = quotient(c, r);
        let rest = points.skip(1);
        lemma_canonical(0, p);
        assert(same(eval(c, points[0]), 0, p));
        assert forall|i: int| 0 <= i < rest.len() implies #[trigger] same(
            eval(q, rest[i]),
            0,
            p,
        ) by {
            let x = points[i + 1];
            assert(same(eval(c, x), 0, p));
            assert(!same(points[0], points[i + 1], p));
            lemma_division(c, r, x);
            lemma_same(eval(c, x), 0, eval(c, r), 0, p);
            lemma_difference(x, r, p);
            lemma_no_zero_divisors(x - r, eval(q, x), p);
        }
        assert(distinct(rest, p)) by {
            assert forall|i: int, j: int|
                #![trigger rest[i], rest[j]]
                0 <= i < j < rest.len() implies !same(rest[i], rest[j], p) by {
                assert(!same(points[i + 1], points[j + 1], p));
            }
        }
        lemma_zeros(q, rest, p);
        // c[k] = q[k-1] - r * q[k], and the value at r is zero
        assert forall|k: int| 0 <= k < c.len() implies #[trigger] same(c[k], 0, p) by {
            lemma_from_quotient(c, r, k);
            let before = if k == 0 {
                eval(c, r)
            } else {
                q[k - 1]
            };
            let after = if k == c.len() - 1 {
                0
            } else {
                q[k]
            };
            if k > 0 {
                assert(same(q[k - 1], 0, p));
            }
            if k < c.len() - 1 {
                assert(same(q[k], 0, p));
            }
            lemma_same(r, r, after, 0, p);
            assert(r * 0 == 0) by (nonlinear_arith);
            lemma_same(before, 0, r * after, 0, p);
        }
    }
}

/// A coefficient from those of the quotient.
pub proof fn lemma_from_quotient(c: Seq<int>, r: int, k: int)
    requires
        0 <= k < c.len(),
    ensures
        c[k] == (if k == 0 {
            eval(c, r)
        } else {
            quotient(c, r)[k - 1]
        }) - r * (if k == c.len() - 1 {
            0
        } else {
            quotient(c, r)[k]
        }),
{
    let tail = c.skip(k);
    assert(tail[0] == c[k]);
    assert(tail.skip(1) =~= c.skip(k + 1));
    assert(eval(tail, r) == c[k] + r * eval(c.skip(k + 1), r));
    if k == 0 {
        assert(tail =~= c);
    } else {
        assert(quotient(c, r)[k - 1] == eval(c.skip(k - 1 + 1), r));
    }
    if k == c.len() - 1 {
        assert(c.skip(k + 1) =~= Seq::<int>::empty());
    }
}

/// There is one polynomial with given values at as many different points as it has coefficients.
pub proof fn lemma_interpolation_unique(c: Seq<int>, d: Seq<int>, points: Seq<int>, p: int)
    requires
        is_prime(p),
        points.len() == c.len(),
        points.len() == d.len(),
        distinct(points, p),
        forall|i: int|
            0 <= i < points.len() ==> #[trigger] same(eval(c, points[i]), eval(d, points[i]), p),
    ensures
        same_coefficients(c, d, p),
{
    let diff = plus(c, scaled(d, -1));
    lemma_canonical(0, p);
    assert forall|i: int| 0 <= i < points.len() implies #[trigger] same(
        eval(diff, points[i]),
        0,
        p,
    ) by {
        let x = points[i];
        assert(same(eval(c, x), eval(d, x), p));
        lemma_eval_plus(c, scaled(d, -1), x);
        lemma_eval_scaled(d, -1, x);
        lemma_difference(eval(c, x), eval(d, x), p);
        let v = eval(d, x);
        assert(v * (-1) == -v) by (nonlinear_arith);
    }
    lemma_zeros(diff, points, p);
    assert forall|k: int| 0 <= k < c.len() implies #[trigger] same(c[k], d[k], p) by {
        assert(same(diff[k], 0, p));
        let v = d[k];
        assert(v * (-1) == -v) by (nonlinear_arith);
        lemma_difference(c[k], d[k], p);
    }
}

} // verus!
