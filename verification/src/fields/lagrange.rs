//! Lagrange interpolation over the Goldilocks field.

use vstd::arithmetic::div_mod::lemma_mod_bound;
use vstd::prelude::*;

use crate::fields::goldilocks::{element, prime, Goldilocks};
use crate::fields::goldilocks_prime::lemma_goldilocks_prime;
use crate::fields::modular::{
    inverse, lemma_canonical, lemma_difference, lemma_inside, lemma_no_zero_divisors, lemma_same,
    same,
};
use crate::fields::poly::{
    distinct, eval, lemma_division, lemma_eval_plus, lemma_eval_scaled, lemma_eval_zeros,
    lemma_interpolation_unique, lemma_same_eval, plus, quotient, same_coefficients, scaled, zeros,
};
use crate::fields::transform::{all_wf, values};

verus! {

/// A polynomial times `x - p`.
pub open spec fn times_linear(c: Seq<int>, p: int) -> Seq<int> {
    Seq::new(
        c.len() + 1,
        |k: int|
            (if k > 0 {
                c[k - 1]
            } else {
                0
            }) - (if k < c.len() {
                c[k] * p
            } else {
                0
            }),
    )
}

/// The product of `x - p` over all points.
pub open spec fn master(points: Seq<int>) -> Seq<int>
    decreases points.len(),
{
    if points.len() == 0 {
        seq![1]
    } else {
        times_linear(master(points.drop_last()), points.last())
    }
}

/// The product of the differences of a number to all points.
pub open spec fn differences(points: Seq<int>, x: int) -> int
    decreases points.len(),
{
    if points.len() == 0 {
        1
    } else {
        differences(points.drop_last(), x) * (x - points.last())
    }
}

/// The product of the differences of a point to the first `n` points but itself.
pub open spec fn denominator(points: Seq<int>, i: int, n: nat) -> int
    decreases n,
{
    if n == 0 {
        1
    } else if n - 1 == i {
        denominator(points, i, (n - 1) as nat)
    } else {
        denominator(points, i, (n - 1) as nat) * (points[i] - points[n - 1])
    }
}

/// The value of a polynomial times `x - p`.
pub proof fn lemma_eval_linear(c: Seq<int>, p: int, x: int)
    ensures
        eval(times_linear(c, p), x) == eval(c, x) * (x - p),
    decreases c.len(),
{
    let d = times_linear(c, p);
    if c.len() == 0 {
        assert(d.len() == 1);
        assert(d.skip(1) =~= Seq::<int>::empty());
        assert(eval(d.skip(1), x) == 0);
        assert(x * 0 == 0 && 0 * (x - p) == 0) by (nonlinear_arith);
    } else {
        // d = -c0 p + x (c0 + times_linear(rest)), where the first coefficient of the latter is
        // less by nothing
        let rest = c.skip(1);
        lemma_eval_linear(rest, p, x);
        let e = times_linear(rest, p);
        let first = Seq::new(d.skip(1).len(), |k: int| if k == 0 { c[0] } else { 0 });
        assert(d.skip(1) =~= plus(first, e));
        lemma_eval_plus(first, e, x);
        assert(first.skip(1) =~= zeros((first.len() - 1) as nat));
        lemma_eval_zeros((first.len() - 1) as nat, x);
        assert(x * 0 == 0) by (nonlinear_arith);
        assert(eval(first, x) == c[0]);
        let (a, v) = (c[0], eval(rest, x));
        assert(d[0] == -(a * p));
        assert(-(a * p) + x * (a + v * (x - p)) == (a + x * v) * (x - p)) by (nonlinear_arith);
    }
}

/// The value of the product of linear factors is the product of their values.
proof fn lemma_eval_master(points: Seq<int>, x: int)
    ensures
        eval(master(points), x) == differences(points, x),
        master(points).len() == points.len() + 1,
    decreases points.len(),
{
    if points.len() == 0 {
        assert(seq![1int].skip(1) =~= Seq::<int>::empty());
        assert(eval(seq![1int].skip(1), x) == 0);
        assert(x * 0 == 0) by (nonlinear_arith);
    } else {
        lemma_eval_master(points.drop_last(), x);
        lemma_eval_linear(master(points.drop_last()), points.last(), x);
    }
}

/// Linear factors commute.
proof fn lemma_factors_commute(c: Seq<int>, p: int, q: int)
    ensures
        times_linear(times_linear(c, p), q) == times_linear(times_linear(c, q), p),
{
    let (a, b) = (times_linear(times_linear(c, p), q), times_linear(times_linear(c, q), p));
    assert forall|k: int| 0 <= k < a.len() implies a[k] == b[k] by {
        let x: int = if 0 <= k - 1 < c.len() {
            c[k - 1]
        } else {
            0
        };
        let y: int = if k < c.len() {
            c[k]
        } else {
            0
        };
        assert((x - y * p) * q == x * q - (y * p) * q) by (nonlinear_arith);
        assert((x - y * q) * p == x * p - (y * q) * p) by (nonlinear_arith);
        assert((y * p) * q == (y * q) * p) by (nonlinear_arith);
        assert(0 * p == 0 && 0 * q == 0) by (nonlinear_arith);
        let z: int = if k >= 2 {
            c[k - 2]
        } else {
            0
        };
        let (cp, cq) = (times_linear(c, p), times_linear(c, q));
        if k > 0 {
            assert(cp[k - 1] == z - x * p);
            assert(cq[k - 1] == z - x * q);
        }
        if k < cp.len() {
            assert(cp[k] == x - y * p);
            assert(cq[k] == x - y * q);
        } else {
            assert(x == 0 && y == 0);
        }
    }
    assert(a =~= b);
}

/// A factor can be taken out of the product.
proof fn lemma_take_out(points: Seq<int>, i: int)
    requires
        0 <= i < points.len(),
    ensures
        master(points) == times_linear(master(points.remove(i)), points[i]),
    decreases points.len(),
{
    let rest = points.drop_last();
    if i == points.len() - 1 {
        assert(points.remove(i) =~= rest);
    } else {
        lemma_take_out(rest, i);
        let other = points.remove(i);
        assert(other.drop_last() =~= rest.remove(i));
        assert(other.last() == points.last());
        lemma_factors_commute(master(rest.remove(i)), points[i], points.last());
    }
}

/// Dividing a product by its linear factor gives the other factor.
proof fn lemma_divide_linear(c: Seq<int>, r: int)
    ensures
        quotient(times_linear(c, r), r) == c,
        eval(times_linear(c, r), r) == 0,
{
    let d = times_linear(c, r);
    lemma_eval_linear(c, r, r);
    let v = eval(c, r);
    assert(v * (r - r) == 0) by (nonlinear_arith);
    assert forall|k: int| 0 <= k < c.len() implies quotient(d, r)[k] == c[k] by {
        lemma_tail(c, r, k);
    }
    assert(quotient(d, r) =~= c);
}

/// The tail of a product with a linear factor has at the zero of the factor a coefficient as its
/// value.
proof fn lemma_tail(c: Seq<int>, r: int, k: int)
    requires
        0 <= k < c.len(),
    ensures
        eval(times_linear(c, r).skip(k + 1), r) == c[k],
    decreases c.len() - k,
{
    let d = times_linear(c, r);
    let tail = d.skip(k + 1);
    assert(tail.skip(1) =~= d.skip(k + 2));
    assert(tail[0] == d[k + 1]);
    if k == c.len() - 1 {
        assert(d.skip(k + 2) =~= Seq::<int>::empty());
        assert(eval(d.skip(k + 2), r) == 0);
        assert(r * 0 == 0) by (nonlinear_arith);
    } else {
        lemma_tail(c, r, k + 1);
        let x = c[k + 1];
        assert(x * r == r * x) by (nonlinear_arith);
    }
}

/// The differences to the other points are the denominator.
proof fn lemma_denominator(points: Seq<int>, i: int, n: nat)
    requires
        0 <= i < points.len(),
        n <= points.len(),
    ensures
        i < n ==> differences(points.take(n as int).remove(i), points[i]) == denominator(
            points,
            i,
            n,
        ),
        i >= n ==> differences(points.take(n as int), points[i]) == denominator(points, i, n),
    decreases n,
{
    if n == 0 {
    } else {
        lemma_denominator(points, i, (n - 1) as nat);
        let (now, before) = (points.take(n as int), points.take(n - 1));
        assert(now.drop_last() =~= before);
        if i == n - 1 {
            assert(now.remove(i) =~= before);
        } else if i < n - 1 {
            assert(now.remove(i).drop_last() =~= before.remove(i));
            assert(now.remove(i).last() == points[n - 1]);
        } else {
            assert(now.last() == points[n - 1]);
        }
    }
}

/// The quotient of the product by the factor of a point has at this point the denominator as its
/// value, and is zero at the others.
proof fn lemma_quotient_values(points: Seq<int>, i: int, j: int)
    requires
        distinct(points, prime()),
        0 <= i < points.len(),
        0 <= j < points.len(),
    ensures
        quotient(master(points), points[i]).len() == points.len(),
        i == j ==> eval(quotient(master(points), points[i]), points[i]) == denominator(
            points,
            i,
            points.len(),
        ),
        i != j ==> same(eval(quotient(master(points), points[i]), points[j]), 0, prime()),
{
    let p = prime();
    let (r, x) = (points[i], points[j]);
    lemma_take_out(points, i);
    let other = master(points.remove(i));
    lemma_divide_linear(other, r);
    lemma_eval_master(points.remove(i), r);
    assert(points.take(points.len() as int) =~= points);
    lemma_denominator(points, i, points.len());
    if i != j {
        lemma_take_out(points, j);
        lemma_divide_linear(master(points.remove(j)), x);
        lemma_division(master(points), r, x);
        let v = eval(other, x);
        assert((x - r) * v == 0);
        lemma_goldilocks_prime();
        lemma_canonical(0, p);
        if i < j {
            assert(!same(points[i], points[j], p));
        } else {
            assert(!same(points[j], points[i], p));
        }
        lemma_difference(x, r, p);
        lemma_no_zero_divisors(x - r, v, p);
    }
}

/// A denominator of distinct points is not zero.
proof fn lemma_denominator_invertible(points: Seq<int>, i: int, n: nat)
    requires
        distinct(points, prime()),
        0 <= i < points.len(),
        n <= points.len(),
    ensures
        denominator(points, i, n) % prime() != 0,
    decreases n,
{
    let p = prime();
    lemma_canonical(1, p);
    if n > 0 {
        lemma_denominator_invertible(points, i, (n - 1) as nat);
        if n - 1 != i {
            if i < n - 1 {
                assert(!same(points[i], points[n - 1], p));
            } else {
                assert(!same(points[n - 1], points[i], p));
            }
            lemma_difference(points[i], points[n - 1], p);
            let (d, e) = (denominator(points, i, (n - 1) as nat), points[i] - points[n - 1]);
            lemma_goldilocks_prime();
            if (d * e) % p == 0 {
                lemma_no_zero_divisors(d, e, p);
            }
        }
    }
}

/// The sum of the first `n` quotients, each times its factor.
spec fn partial_sum(points: Seq<int>, factors: Seq<int>, n: nat) -> Seq<int>
    decreases n,
{
    if n == 0 {
        zeros(points.len())
    } else {
        plus(
            partial_sum(points, factors, (n - 1) as nat),
            scaled(quotient(master(points), points[n - 1]), factors[n - 1]),
        )
    }
}

proof fn lemma_partial_len(points: Seq<int>, factors: Seq<int>, n: nat)
    requires
        n <= points.len(),
    ensures
        partial_sum(points, factors, n).len() == points.len(),
    decreases n,
{
    if n > 0 {
        lemma_partial_len(points, factors, (n - 1) as nat);
    }
}

/// The factor of a point: its value divided by its denominator.
spec fn is_factor(points: Seq<int>, wanted: Seq<int>, factors: Seq<int>, i: int) -> bool {
    same(factors[i] * denominator(points, i, points.len()), wanted[i], prime())
}

/// With the right factors, the sum has the wanted values at the points.
proof fn lemma_partial_values(
    points: Seq<int>,
    wanted: Seq<int>,
    factors: Seq<int>,
    n: nat,
    j: int,
)
    requires
        distinct(points, prime()),
        n <= points.len(),
        0 <= j < points.len(),
        forall|i: int| 0 <= i < n ==> #[trigger] is_factor(points, wanted, factors, i),
    ensures
        same(
            eval(partial_sum(points, factors, n), points[j]),
            if j < n {
                wanted[j]
            } else {
                0
            },
            prime(),
        ),
    decreases n,
{
    let p = prime();
    let x = points[j];
    lemma_canonical(0, p);
    if n == 0 {
        lemma_eval_zeros(points.len(), x);
    } else {
        let i = n - 1;
        lemma_partial_values(points, wanted, factors, (n - 1) as nat, j);
        lemma_partial_len(points, factors, (n - 1) as nat);
        let before = partial_sum(points, factors, (n - 1) as nat);
        let q = quotient(master(points), points[i]);
        lemma_quotient_values(points, i, j);
        lemma_eval_plus(before, scaled(q, factors[i]), x);
        lemma_eval_scaled(q, factors[i], x);
        let (e, f) = (eval(q, x), factors[i]);
        if i == j {
            assert(is_factor(points, wanted, factors, i));
            assert(e * f == f * e) by (nonlinear_arith);
            lemma_same(eval(before, x), 0, e * f, wanted[j], p);
        } else {
            lemma_same(e, 0, f, f, p);
            assert(0 * f == 0) by (nonlinear_arith);
            let v: int = if j < n - 1 {
                wanted[j]
            } else {
                0
            };
            lemma_same(eval(before, x), v, e * f, 0, p);
        }
    }
}

/// The elements have the same remainders as the coefficients.
spec fn stands_for(a: Seq<Goldilocks>, c: Seq<int>) -> bool {
    all_wf(a) && same_coefficients(values(a), c, prime())
}

/// A polynomial through the points.
pub open spec fn passes_through(
    coeffs: Seq<Goldilocks>,
    points: Seq<Goldilocks>,
    wanted: Seq<Goldilocks>,
) -> bool {
    &&& coeffs.len() == points.len()
    &&& all_wf(coeffs)
    &&& forall|i: int|
        0 <= i < points.len() ==> element(eval(values(coeffs), (#[trigger] points[i]).value as int))
            == wanted[i]
}

/// There is one polynomial through points of which no two are equal.
pub proof fn lemma_one_polynomial(
    a: Seq<Goldilocks>,
    b: Seq<Goldilocks>,
    points: Seq<Goldilocks>,
    wanted: Seq<Goldilocks>,
)
    requires
        distinct(values(points), prime()),
        passes_through(a, points, wanted),
        passes_through(b, points, wanted),
    ensures
        a == b,
{
    let p = prime();
    let (c, d, xs) = (values(a), values(b), values(points));
    lemma_goldilocks_prime();
    assert forall|i: int| 0 <= i < xs.len() implies #[trigger] same(
        eval(c, xs[i]),
        eval(d, xs[i]),
        p,
    ) by {
        let x = points[i].value as int;
        assert(element(eval(c, x)) == wanted[i] && element(eval(d, x)) == wanted[i]);
        lemma_mod_bound(eval(c, x), p);
        lemma_mod_bound(eval(d, x), p);
    }
    lemma_interpolation_unique(c, d, xs, p);
    assert forall|k: int| 0 <= k < a.len() implies a[k] == b[k] by {
        assert(same(c[k], d[k], p));
        assert(a[k].wf() && b[k].wf());
        lemma_canonical(c[k], p);
        lemma_canonical(d[k], p);
    }
    assert(a =~= b);
}

/// Computes the denominators: d_i = ∏_{j≠i}(x_i - x_j).
fn denominators(points: &[Goldilocks]) -> (r: Vec<Goldilocks>)
    requires
        all_wf(points@),
    ensures
        r@.len() == points@.len(),
        all_wf(r@),
        forall|i: int|
            0 <= i < points@.len() ==> same(
                (#[trigger] r@[i]).value as int,
                denominator(values(points@), i, points@.len()),
                prime(),
            ),
{
    let n: usize = points.len();
    let ghost xs = values(points@);
    let mut denoms: Vec<Goldilocks> = Vec::with_capacity(n);
    for i in 0..n
        invariant
            n == points@.len(),
            xs == values(points@),
            all_wf(points@),
            denoms@.len() == i,
            all_wf(denoms@),
            forall|k: int|
                0 <= k < i ==> same(
                    (#[trigger] denoms@[k]).value as int,
                    denominator(xs, k, n as nat),
                    prime(),
                ),
    {
        let mut d = Goldilocks::one();
        for j in 0..n
            invariant
                i < n == points@.len(),
                xs == values(points@),
                all_wf(points@),
                d.wf(),
                same(d.value as int, denominator(xs, i as int, j as nat), prime()),
        {
            if i != j {
                assert(points@[i as int].wf() && points@[j as int].wf());
                proof {
                    let p = prime();
                    let (x, y) = (xs[i as int], xs[j as int]);
                    lemma_mod_bound(x - y, p);
                    lemma_inside(d.value as int, x - y, p);
                    lemma_mod_bound(d.value * ((x - y) % p), p);
                    lemma_inside(d.value * ((x - y) % p), 0, p);
                    lemma_same(
                        d.value as int,
                        denominator(xs, i as int, j as nat),
                        x - y,
                        x - y,
                        p,
                    );
                }
                d = d * (points[i] - points[j]);
            }
        }
        denoms.push(d);
    }
    denoms
}

/// Computes ∏(x - x_j) for all j.
fn master_polynomial(points: &[Goldilocks]) -> (r: Vec<Goldilocks>)
    requires
        all_wf(points@),
        points@.len() < usize::MAX,
    ensures
        r@.len() == points@.len() + 1,
        stands_for(r@, master(values(points@))),
{
    let n: usize = points.len();
    let ghost xs = values(points@);
    let mut current: Vec<Goldilocks> = Vec::new();
    current.push(Goldilocks::one());
    assert(values(current@) =~= seq![1int]);
    assert(xs.take(0) =~= Seq::<int>::empty());
    for i in 0..n
        invariant
            n == points@.len(),
            n < usize::MAX,
            xs == values(points@),
            all_wf(points@),
            current@.len() == i + 1,
            stands_for(current@, master(xs.take(i as int))),
    {
        // Multiply by (x - p)
        let p = points[i];
        assert(points@[i as int].wf());
        let ghost c = master(xs.take(i as int));
        let ghost d = times_linear(c, p.value as int);
        assert(xs.take(i + 1).drop_last() =~= xs.take(i as int));
        let mut next: Vec<Goldilocks> = Vec::with_capacity(i + 2);
        for k in 0..current.len() + 1
            invariant
                current@.len() == i + 1,
                i < n < usize::MAX,
                p.wf(),
                stands_for(current@, c),
                d == times_linear(c, p.value as int),
                next@.len() == k,
                all_wf(next@),
                forall|t: int|
                    0 <= t < k ==> #[trigger] same(next@[t].value as int, d[t], prime()),
        {
            let above = if k > 0 {
                current[k - 1]
            } else {
                Goldilocks::zero()
            };
            let here = if k < current.len() {
                current[k]
            } else {
                Goldilocks::zero()
            };
            proof {
                let m = prime();
                let (x, y, z) = (above.value as int, here.value as int, p.value as int);
                let u: int = if k > 0 {
                    c[k - 1]
                } else {
                    0
                };
                let v: int = if k < c.len() {
                    c[k as int]
                } else {
                    0
                };
                if k > 0 {
                    assert(current@[k - 1].wf());
                    assert(same(values(current@)[k - 1], c[k - 1], m));
                }
                if k < c.len() {
                    assert(current@[k as int].wf());
                    assert(same(values(current@)[k as int], c[k as int], m));
                }
                assert(0 * z == 0) by (nonlinear_arith);
                lemma_same(y, v, z, z, m);
                lemma_same(x, u, y * z, v * z, m);
                lemma_mod_bound(y * z, m);
                lemma_inside(x, y * z, m);
                lemma_mod_bound(x - (y * z) % m, m);
                lemma_inside(x - (y * z) % m, 0, m);
            }
            next.push(above - here * p);
        }
        assert(same_coefficients(values(next@), d, prime())) by {
            assert forall|t: int| 0 <= t < d.len() implies #[trigger] same(
                values(next@)[t],
                d[t],
                prime(),
            ) by {
                assert(same(next@[t].value as int, d[t], prime()));
            }
        }
        current = next;
    }
    assert(xs.take(n as int) =~= xs);
    current
}

/// Divides a polynomial by `x - r` using synthetic division.
fn divide(c: &Vec<Goldilocks>, r: Goldilocks) -> (q: Vec<Goldilocks>)
    requires
        c@.len() > 0,
        all_wf(c@),
        r.wf(),
    ensures
        q@.len() == c@.len() - 1,
        stands_for(q@, quotient(values(c@), r.value as int)),
{
    let n: usize = c.len() - 1;
    let ghost cs = values(c@);
    let ghost x = r.value as int;
    let mut q: Vec<Goldilocks> = Vec::new();
    for i in 0..n
        invariant
            q@.len() == i,
            forall|k: int| 0 <= k < i ==> (#[trigger] q@[k]) == (Goldilocks { value: 0 }),
    {
        q.push(Goldilocks::zero());
    }
    let mut remainder = Goldilocks::zero();
    proof {
        lemma_canonical(0, prime());
        assert(cs.skip(n + 1) =~= Seq::<int>::empty());
        assert(x * 0 == 0) by (nonlinear_arith);
    }
    for step in 0..n
        invariant
            n + 1 == c@.len(),
            cs == values(c@),
            x == r.value,
            all_wf(c@),
            r.wf(),
            q@.len() == n,
            all_wf(q@),
            remainder.wf(),
            same(remainder.value as int, x * eval(cs.skip(n + 1 - step), x), prime()),
            forall|t: int|
                n - step <= t < n ==> #[trigger] same(
                    q@[t].value as int,
                    eval(cs.skip(t + 1), x),
                    prime(),
                ),
    {
        let k: usize = n - step;
        let coeff = c[k];
        assert(c@[k as int].wf());
        proof {
            let p = prime();
            let tail = cs.skip(k as int);
            assert(tail.skip(1) =~= cs.skip(n + 1 - step));
            assert(tail[0] == coeff.value);
            let v = coeff.value + remainder.value;
            lemma_same(
                coeff.value as int,
                coeff.value as int,
                remainder.value as int,
                x * eval(cs.skip(n + 1 - step), x),
                p,
            );
            assert(same(v, eval(tail, x), p));
            lemma_mod_bound(v, p);
            lemma_inside(v, x, p);
            lemma_inside(v, 0, p);
            lemma_mod_bound((v % p) * x, p);
            lemma_inside((v % p) * x, 0, p);
            lemma_same(v % p, eval(tail, x), x, x, p);
            let e = eval(tail, x);
            assert(e * x == x * e) by (nonlinear_arith);
        }
        let new_coeff = coeff + remainder;
        q.set(k - 1, new_coeff);
        remainder = new_coeff * r;
    }
    assert(same_coefficients(values(q@), quotient(cs, x), prime())) by {
        assert forall|t: int| 0 <= t < n implies #[trigger] same(
            values(q@)[t],
            quotient(cs, x)[t],
            prime(),
        ) by {
            assert(same(q@[t].value as int, eval(cs.skip(t + 1), x), prime()));
        }
    }
    q
}

/// The quotient of a polynomial stands for the quotient of what the polynomial stands for.
proof fn lemma_same_quotient(c: Seq<int>, d: Seq<int>, q: Seq<int>, r: int)
    requires
        same_coefficients(c, d, prime()),
        same_coefficients(q, quotient(c, r), prime()),
        c.len() > 0,
    ensures
        same_coefficients(q, quotient(d, r), prime()),
{
    let p = prime();
    assert forall|k: int| 0 <= k < q.len() implies #[trigger] same(q[k], quotient(d, r)[k], p) by {
        assert(same(q[k], quotient(c, r)[k], p));
        let (x, y) = (c.skip(k + 1), d.skip(k + 1));
        assert(same_coefficients(x, y, p)) by {
            assert forall|i: int| 0 <= i < x.len() implies #[trigger] same(x[i], y[i], p) by {
                assert(same(c[i + k + 1], d[i + k + 1], p));
            }
        }
        lemma_same_eval(x, y, r, r, p);
    }
}

/// Adds a multiple of a polynomial to another one.
fn add_scaled(result: &mut Vec<Goldilocks>, q: &[Goldilocks], scale: Goldilocks)
    requires
        old(result)@.len() == q@.len(),
        all_wf(old(result)@),
        all_wf(q@),
        scale.wf(),
    ensures
        final(result)@.len() == old(result)@.len(),
        stands_for(
            final(result)@,
            plus(values(old(result)@), scaled(values(q@), scale.value as int)),
        ),
{
    let ghost before = result@;
    let ghost want = plus(values(before), scaled(values(q@), scale.value as int));
    let n: usize = result.len();
    for k in 0..n
        invariant
            n == q@.len() == before.len(),
            result@.len() == n,
            all_wf(before),
            all_wf(result@),
            all_wf(q@),
            scale.wf(),
            want == plus(values(before), scaled(values(q@), scale.value as int)),
            forall|t: int| k <= t < n ==> #[trigger] result@[t] == before[t],
            forall|t: int|
                0 <= t < k ==> #[trigger] same(result@[t].value as int, want[t], prime()),
    {
        assert(before[k as int].wf() && q@[k as int].wf());
        proof {
            let p = prime();
            let (x, y, z) = (
                before[k as int].value as int,
                q@[k as int].value as int,
                scale.value as int,
            );
            lemma_mod_bound(y * z, p);
            lemma_inside(x, y * z, p);
            lemma_mod_bound(x + (y * z) % p, p);
            lemma_inside(x + (y * z) % p, 0, p);
        }
        let sum = result[k] + q[k] * scale;
        result.set(k, sum);
    }
    assert(same_coefficients(values(result@), want, prime())) by {
        assert forall|t: int| 0 <= t < n implies #[trigger] same(
            values(result@)[t],
            want[t],
            prime(),
        ) by {
            assert(same(result@[t].value as int, want[t], prime()));
        }
    }
}

/// One term more keeps what a sum stands for.
proof fn lemma_one_term(
    points: Seq<int>,
    factors: Seq<int>,
    i: nat,
    before: Seq<Goldilocks>,
    q: Seq<Goldilocks>,
    after: Seq<Goldilocks>,
)
    requires
        i < points.len(),
        stands_for(before, partial_sum(points, factors, i)),
        stands_for(q, quotient(master(points), points[i as int])),
        q.len() == before.len() == points.len(),
        stands_for(after, plus(values(before), scaled(values(q), factors[i as int]))),
    ensures
        stands_for(after, partial_sum(points, factors, i + 1)),
{
    let p = prime();
    let (c, d) = (partial_sum(points, factors, i), quotient(master(points), points[i as int]));
    let f = factors[i as int];
    let want = partial_sum(points, factors, i + 1);
    let have = plus(values(before), scaled(values(q), f));
    assert forall|t: int| 0 <= t < have.len() implies #[trigger] same(
        values(after)[t],
        want[t],
        p,
    ) by {
        assert(same(values(after)[t], have[t], p));
        assert(same(values(before)[t], c[t], p));
        assert(same(values(q)[t], d[t], p));
        lemma_same(values(q)[t], d[t], f, f, p);
        lemma_same(values(before)[t], c[t], values(q)[t] * f, d[t] * f, p);
    }
}

/// A sum of all terms passes through the points.
proof fn lemma_sum_passes(
    result: Seq<Goldilocks>,
    points: Seq<Goldilocks>,
    wanted: Seq<Goldilocks>,
    factors: Seq<int>,
)
    requires
        distinct(values(points), prime()),
        points.len() == wanted.len(),
        all_wf(wanted),
        stands_for(result, partial_sum(values(points), factors, points.len())),
        forall|i: int|
            0 <= i < points.len() ==> #[trigger] is_factor(
                values(points),
                values(wanted),
                factors,
                i,
            ),
    ensures
        passes_through(result, points, wanted),
{
    let p = prime();
    let xs = values(points);
    let sum = partial_sum(xs, factors, points.len());
    lemma_partial_len(xs, factors, points.len());
    assert forall|j: int| 0 <= j < points.len() implies element(
        eval(values(result), (#[trigger] points[j]).value as int),
    ) == wanted[j] by {
        let x = xs[j];
        lemma_partial_values(xs, values(wanted), factors, points.len(), j);
        lemma_same_eval(values(result), sum, x, x, p);
        assert(wanted[j].wf());
        lemma_canonical(wanted[j].value as int, p);
    }
}

/// The factor of a point from the inverse of its denominator.
proof fn lemma_factor(y: int, u: int, d: int, e: int, f: int)
    requires
        same(d, e, prime()),
        (d * u) % prime() == 1,
        same(f, y * u, prime()),
    ensures
        same(f * e, y, prime()),
{
    let p = prime();
    lemma_canonical(1, p);
    lemma_same(f, y * u, e, d, p);
    lemma_same(y, y, d * u, 1, p);
    assert((y * u) * d == y * (d * u)) by (nonlinear_arith);
    assert(y * 1 == y) by (nonlinear_arith);
}

impl Goldilocks {
    /// Interpolates a polynomial from evaluations at arbitrary points.
    ///
    /// Given points (x_0, y_0), ..., (x_{n-1}, y_{n-1}), finds the unique
    /// polynomial of degree < n passing through all points.
    pub fn interpolate(points: &[Goldilocks], wanted: &[Goldilocks]) -> (r: Vec<Goldilocks>)
        requires
            points@.len() == wanted@.len(),
            points@.len() < usize::MAX,
            all_wf(points@),
            all_wf(wanted@),
            distinct(values(points@), prime()),
        ensures
            passes_through(r@, points@, wanted@),
    {
        let n: usize = points.len();
        if n == 0 {
            return Vec::new();
        }
        if n == 1 {
            let mut single: Vec<Goldilocks> = Vec::new();
            single.push(wanted[0]);
            proof {
                lemma_constant(single@, points@, wanted@);
            }
            return single;
        }
        Goldilocks::interpolate_lagrange_optimized(points, wanted)
    }

    /// Optimized Lagrange interpolation.
    ///
    /// Still O(n²) but with better constants than naive implementation.
    fn interpolate_lagrange_optimized(points: &[Goldilocks], wanted: &[Goldilocks]) -> (r: Vec<
        Goldilocks,
    >)
        requires
            points@.len() == wanted@.len(),
            points@.len() < usize::MAX,
            all_wf(points@),
            all_wf(wanted@),
            distinct(values(points@), prime()),
        ensures
            passes_through(r@, points@, wanted@),
    {
        let n: usize = points.len();
        let ghost (xs, ys) = (values(points@), values(wanted@));

        // Precompute denominators: d_i = ∏_{j≠i} (x_i - x_j)
        let denoms = denominators(points);

        // Compute ∏(x - x_j) for all j
        let master_coeffs = master_polynomial(points);
        let mut result: Vec<Goldilocks> = zero_polynomial(n);
        let ghost mut factors: Seq<int> = Seq::empty();

        // For each i, compute L_i(x) = master(x) / (x - x_i) / d_i * y_i
        for i in 0..n
            invariant
                n == points@.len() == wanted@.len(),
                xs == values(points@),
                ys == values(wanted@),
                all_wf(points@),
                all_wf(wanted@),
                distinct(xs, prime()),
                denoms@.len() == n,
                all_wf(denoms@),
                forall|k: int|
                    0 <= k < n ==> same(
                        (#[trigger] denoms@[k]).value as int,
                        denominator(xs, k, n as nat),
                        prime(),
                    ),
                master_coeffs@.len() == n + 1,
                stands_for(master_coeffs@, master(xs)),
                result@.len() == n,
                factors.len() == i,
                stands_for(result@, partial_sum(xs, factors, i as nat)),
                forall|k: int| 0 <= k < i ==> #[trigger] is_factor(xs, ys, factors, k),
        {
            assert(denoms@[i as int].wf() && wanted@[i as int].wf() && points@[i as int].wf());
            proof {
                lemma_denominator_invertible(xs, i as int, n as nat);
                lemma_canonical(denoms@[i as int].value as int, prime());
                lemma_canonical(0, prime());
            }
            let denom_inv = denoms[i].inverse().unwrap();
            let scale = wanted[i] * denom_inv;
            let ghost before = result@;
            let ghost old_factors = factors;
            proof {
                let p = prime();
                let v = wanted@[i as int].value * denom_inv.value;
                lemma_mod_bound(v, p);
                lemma_inside(v, 0, p);
                factors = factors.push(scale.value as int);
                lemma_factor(
                    ys[i as int],
                    denom_inv.value as int,
                    denoms@[i as int].value as int,
                    denominator(xs, i as int, n as nat),
                    scale.value as int,
                );
                lemma_factors_prefix(xs, old_factors, factors, i as nat);
                assert forall|k: int| 0 <= k < i + 1 implies #[trigger] is_factor(
                    xs,
                    ys,
                    factors,
                    k,
                ) by {
                    if k < i {
                        assert(is_factor(xs, ys, old_factors, k));
                    }
                }
            }

            // Divide master by (x - x_i) using synthetic division
            let q = divide(&master_coeffs, points[i]);
            proof {
                lemma_same_quotient(values(master_coeffs@), master(xs), values(q@), xs[i as int]);
            }

            // Add scale * quotient to result
            add_scaled(&mut result, q.as_slice(), scale);
            proof {
                lemma_one_term(xs, factors, i as nat, before, q@, result@);
            }
        }
        proof {
            lemma_sum_passes(result@, points@, wanted@, factors);
        }
        result
    }
}

/// Sums of the first terms depend on the first factors alone.
proof fn lemma_factors_prefix(points: Seq<int>, a: Seq<int>, b: Seq<int>, n: nat)
    requires
        n <= a.len(),
        n <= b.len(),
        forall|i: int| 0 <= i < n ==> #[trigger] a[i] == b[i],
    ensures
        partial_sum(points, a, n) == partial_sum(points, b, n),
    decreases n,
{
    if n > 0 {
        lemma_factors_prefix(points, a, b, (n - 1) as nat);
        assert(a[n - 1] == b[n - 1]);
    }
}

/// A constant passes through one point.
proof fn lemma_constant(
    coeffs: Seq<Goldilocks>,
    points: Seq<Goldilocks>,
    wanted: Seq<Goldilocks>,
)
    requires
        points.len() == 1,
        wanted.len() == 1,
        coeffs.len() == 1,
        coeffs[0] == wanted[0],
        all_wf(wanted),
    ensures
        passes_through(coeffs, points, wanted),
{
    let c = values(coeffs);
    let x = points[0].value as int;
    assert(wanted[0].wf());
    assert(c.skip(1) =~= Seq::<int>::empty());
    assert(eval(c.skip(1), x) == 0);
    assert(x * 0 == 0) by (nonlinear_arith);
    assert(eval(c, x) == c[0]);
    lemma_canonical(c[0], prime());
}

/// A polynomial whose coefficients are all zero.
fn zero_polynomial(n: usize) -> (r: Vec<Goldilocks>)
    ensures
        r@.len() == n,
        stands_for(r@, zeros(n as nat)),
{
    let mut r: Vec<Goldilocks> = Vec::with_capacity(n);
    for i in 0..n
        invariant
            r@.len() == i,
            forall|k: int| 0 <= k < i ==> (#[trigger] r@[k]) == (Goldilocks { value: 0 }),
    {
        r.push(Goldilocks::zero());
    }
    r
}

/// Precomputed data for fast Lagrange interpolation with fixed evaluation points.
///
/// When interpolating multiple polynomials over the same set of points α₁, ..., αₙ,
/// we can precompute point-dependent data once and reuse it for each interpolation.
///
/// This reduces per-interpolation cost from O(n²) (with expensive operations) to
/// O(n²) (with just multiply-accumulate), giving ~3-5x speedup.
pub struct LagrangePrecompute {
    /// Number of points
    pub n: usize,
    /// Inverse denominators: 1/d_i where d_i = ∏_{j≠i}(x_i - x_j)
    pub inv_denoms: Vec<Goldilocks>,
    /// Quotient polynomials: q_i(x) = M(x)/(x - x_i) where M(x) = ∏(x - x_j)
    pub quotients: Vec<Vec<Goldilocks>>,
    /// The points
    pub points: Ghost<Seq<Goldilocks>>,
}

impl LagrangePrecompute {
    /// The data is that of the points, of which no two are equal.
    pub closed spec fn wf(&self) -> bool {
        let xs = values(self.points@);
        &&& self.n == self.points@.len()
        &&& distinct(xs, prime())
        &&& self.inv_denoms@.len() == self.n
        &&& all_wf(self.inv_denoms@)
        &&& forall|i: int|
            0 <= i < self.n ==> (denominator(xs, i, self.n as nat) * (
            #[trigger] self.inv_denoms@[i]).value) % prime() == 1
        &&& self.quotients@.len() == self.n
        &&& forall|i: int|
            0 <= i < self.n ==> (#[trigger] self.quotients@[i])@.len() == self.n && stands_for(
                self.quotients@[i]@,
                quotient(master(xs), xs[i]),
            )
    }

    /// Creates a new precomputed interpolation context for the given points.
    ///
    /// This performs O(n²) precomputation that can be amortized over many interpolations.
    pub fn new(points: &[Goldilocks]) -> (r: LagrangePrecompute)
        requires
            points@.len() < usize::MAX,
            all_wf(points@),
            distinct(values(points@), prime()),
        ensures
            r.wf(),
            r.points@ == points@,
            r.n == points@.len(),
    {
        let n: usize = points.len();
        let ghost xs = values(points@);

        // Compute denominators: d_i = ∏_{j≠i}(x_i - x_j)
        let denoms = denominators(points);

        // Compute master polynomial M(x) = ∏(x - x_j)
        let master_coeffs = master_polynomial(points);
        let mut inv_denoms: Vec<Goldilocks> = Vec::with_capacity(n);
        let mut quotients: Vec<Vec<Goldilocks>> = Vec::with_capacity(n);
        for i in 0..n
            invariant
                n == points@.len(),
                xs == values(points@),
                all_wf(points@),
                distinct(xs, prime()),
                denoms@.len() == n,
                all_wf(denoms@),
                forall|k: int|
                    0 <= k < n ==> same(
                        (#[trigger] denoms@[k]).value as int,
                        denominator(xs, k, n as nat),
                        prime(),
                    ),
                master_coeffs@.len() == n + 1,
                stands_for(master_coeffs@, master(xs)),
                inv_denoms@.len() == i,
                all_wf(inv_denoms@),
                forall|k: int|
                    0 <= k < i ==> (denominator(xs, k, n as nat) * (
                    #[trigger] inv_denoms@[k]).value) % prime() == 1,
                quotients@.len() == i,
                forall|k: int|
                    0 <= k < i ==> (#[trigger] quotients@[k])@.len() == n && stands_for(
                        quotients@[k]@,
                        quotient(master(xs), xs[k]),
                    ),
        {
            assert(denoms@[i as int].wf() && points@[i as int].wf());
            proof {
                lemma_denominator_invertible(xs, i as int, n as nat);
                lemma_canonical(denoms@[i as int].value as int, prime());
                lemma_canonical(0, prime());
            }
            // Compute inverse denominators
            let denom_inv = denoms[i].inverse().unwrap();
            proof {
                let (d, u) = (denoms@[i as int].value as int, denom_inv.value as int);
                lemma_same(d, denominator(xs, i as int, n as nat), u, u, prime());
            }
            inv_denoms.push(denom_inv);

            // Compute quotient polynomials q_i(x) = M(x) / (x - x_i)
            // Using synthetic division
            let q = divide(&master_coeffs, points[i]);
            proof {
                lemma_same_quotient(values(master_coeffs@), master(xs), values(q@), xs[i as int]);
            }
            quotients.push(q);
        }
        LagrangePrecompute { n, inv_denoms, quotients, points: Ghost(points@) }
    }

    /// Fast interpolation using precomputed data.
    ///
    /// Given values y₁, ..., yₙ, computes the unique polynomial f of degree < n
    /// such that f(αᵢ) = yᵢ for all i.
    ///
    /// Returns the coefficients [c₀, c₁, ..., c_{n-1}] where f(x) = Σ cₖ xᵏ.
    pub fn interpolate(&self, wanted: &[Goldilocks]) -> (r: Vec<Goldilocks>)
        requires
            self.wf(),
            wanted@.len() == self.n,
            all_wf(wanted@),
        ensures
            passes_through(r@, self.points@, wanted@),
    {
        if self.n == 0 {
            return Vec::new();
        }
        if self.n == 1 {
            let mut single: Vec<Goldilocks> = Vec::new();
            single.push(wanted[0]);
            proof {
                lemma_constant(single@, self.points@, wanted@);
            }
            return single;
        }
        let n: usize = self.n;
        let ghost (xs, ys) = (values(self.points@), values(wanted@));
        let mut result: Vec<Goldilocks> = zero_polynomial(n);
        let ghost mut factors: Seq<int> = Seq::empty();

        // result = Σᵢ yᵢ * (1/dᵢ) * qᵢ(x)
        for i in 0..n
            invariant
                self.wf(),
                n == self.n == wanted@.len(),
                xs == values(self.points@),
                ys == values(wanted@),
                all_wf(wanted@),
                result@.len() == n,
                factors.len() == i,
                stands_for(result@, partial_sum(xs, factors, i as nat)),
                forall|k: int| 0 <= k < i ==> #[trigger] is_factor(xs, ys, factors, k),
        {
            assert(self.inv_denoms@[i as int].wf() && wanted@[i as int].wf());
            let scale = wanted[i] * self.inv_denoms[i];
            let ghost before = result@;
            let ghost old_factors = factors;
            proof {
                let p = prime();
                let v = wanted@[i as int].value * self.inv_denoms@[i as int].value;
                lemma_mod_bound(v, p);
                lemma_inside(v, 0, p);
                factors = factors.push(scale.value as int);
                let d = denominator(xs, i as int, n as nat);
                lemma_factor(
                    ys[i as int],
                    self.inv_denoms@[i as int].value as int,
                    d,
                    d,
                    scale.value as int,
                );
                lemma_factors_prefix(xs, old_factors, factors, i as nat);
                assert forall|k: int| 0 <= k < i + 1 implies #[trigger] is_factor(
                    xs,
                    ys,
                    factors,
                    k,
                ) by {
                    if k < i {
                        assert(is_factor(xs, ys, old_factors, k));
                    }
                }
            }
            let q = &self.quotients[i];
            assert(self.quotients@[i as int]@.len() == n);

            // Add scale * q_i to result
            add_scaled(&mut result, q.as_slice(), scale);
            proof {
                lemma_one_term(xs, factors, i as nat, before, q@, result@);
            }
        }
        proof {
            lemma_sum_passes(result@, self.points@, wanted@, factors);
        }
        result
    }
}

} // verus!
