//! The number theoretic transform: why the butterflies compute it, and why it can be undone.

use vstd::arithmetic::div_mod::{
    lemma_fundamental_div_mod, lemma_fundamental_div_mod_converse, lemma_mod_bound,
};
use vstd::arithmetic::power::{
    lemma1_pow, lemma_pow0, lemma_pow1, lemma_pow_adds, lemma_pow_distributes,
    lemma_pow_multiplies, pow,
};
use vstd::arithmetic::power2::{
    lemma2_to64, lemma_pow2_adds, lemma_pow2_pos, lemma_pow2_strictly_increases,
    lemma_pow2_unfold, pow2,
};
use vstd::prelude::*;

use crate::fields::goldilocks::{element, prime, root, root_exponent, Goldilocks, OMEGA_32};
use crate::fields::goldilocks_prime::{lemma_goldilocks_prime, lemma_omega};
use crate::fields::modular::{
    inverse, is_inverse, lemma_canonical, lemma_difference, lemma_inside, lemma_inverse,
    lemma_inverse_unique, lemma_multiple, lemma_no_zero_divisors, lemma_pow_of_one, lemma_same,
    lemma_same_pow, same,
};
use crate::fields::poly::{
    eval, evens, lemma_eval_scaled, lemma_even_odd, lemma_push, lemma_same_eval, lemma_same_point,
    odds, same_coefficients, scaled,
};
use crate::fields::proth::{lemma_odd_multiple, lemma_odd_power};

verus! {

/// The values of the elements.
pub open spec fn values(a: Seq<Goldilocks>) -> Seq<int> {
    Seq::new(a.len(), |i: int| a[i].value as int)
}

/// Every element is in canonical form.
pub open spec fn all_wf(a: Seq<Goldilocks>) -> bool {
    forall|i: int| 0 <= i < a.len() ==> (#[trigger] a[i]).wf()
}

/// The number with its `n` lowest bits in reverse order.
pub open spec fn reversed(n: nat, x: nat) -> nat
    decreases n,
{
    if n == 0 {
        0
    } else {
        (x % 2) * pow2((n - 1) as nat) + reversed((n - 1) as nat, x / 2)
    }
}

/// A reversed number has as many bits.
pub proof fn lemma_reversed_bound(n: nat, x: nat)
    ensures
        reversed(n, x) < pow2(n),
    decreases n,
{
    lemma2_to64();
    if n > 0 {
        lemma_reversed_bound((n - 1) as nat, x / 2);
        lemma_pow2_unfold(n);
        let (b, p) = ((x % 2) as int, pow2((n - 1) as nat) as int);
        assert(b * p <= p) by (nonlinear_arith)
            requires
                0 <= b <= 1,
                p >= 0,
        ;
    }
}

/// Reversing moves the highest bit to the lowest place.
proof fn lemma_reversed_top(n: nat, t: nat, u: nat)
    requires
        t < 2,
        u < pow2(n),
    ensures
        reversed(n + 1, t * pow2(n) + u) == 2 * reversed(n, u) + t,
    decreases n,
{
    lemma2_to64();
    let p = pow2(n);
    let x = t * p + u;
    assert(t * p == (if t == 0 {
        0
    } else {
        p as int
    })) by (nonlinear_arith)
        requires
            t < 2,
            t >= 0,
    ;
    if n == 0 {
        assert(p == 1 && u == 0);
        reveal_with_fuel(reversed, 3);
        assert(x == t);
        assert((x % 2) * pow2(0) == x % 2) by (nonlinear_arith)
            requires
                pow2(0) == 1,
        ;
    } else {
        let k = (n - 1) as nat;
        lemma_pow2_unfold(n);
        let q = pow2(k);
        assert(t * q == (if t == 0 {
            0
        } else {
            q as int
        })) by (nonlinear_arith)
            requires
                t < 2,
                t >= 0,
        ;
        assert(x / 2 == t * q + u / 2 && x % 2 == u % 2);
        lemma_reversed_top(k, t, u / 2);
        assert(reversed(n + 1, x) == (x % 2) * pow2(n) + reversed(n, x / 2));
        let b = (u % 2) as int;
        assert(b * p == 2 * (b * q)) by (nonlinear_arith)
            requires
                p == 2 * q,
        ;
    }
}

/// Reversing twice gives the number back.
pub proof fn lemma_reversed_twice(n: nat, x: nat)
    requires
        x < pow2(n),
    ensures
        reversed(n, reversed(n, x)) == x,
    decreases n,
{
    lemma2_to64();
    if n > 0 {
        let k = (n - 1) as nat;
        lemma_pow2_unfold(n);
        lemma_reversed_twice(k, x / 2);
        lemma_reversed_bound(k, x / 2);
        lemma_reversed_top(k, x % 2, reversed(k, x / 2));
    }
}

/// The roots of the stages: each is a square root of the one before, and the root of stage `s + 1`
/// to the power of 2^s is -1.
pub open spec fn are_stage_roots(r: spec_fn(nat) -> int, log_n: nat) -> bool {
    &&& forall|s: nat|
        0 < s < log_n ==> #[trigger] same(r(s + 1) * r(s + 1), r(s), prime())
    &&& forall|s: nat| s < log_n ==> #[trigger] same(pow(r(s + 1), pow2(s)), -1, prime())
}

/// The coefficients at the places that have a remainder: those that block `b` of stage `s` takes.
pub open spec fn part(c: Seq<int>, log_n: nat, s: nat, b: nat) -> Seq<int> {
    let step = pow2((log_n - s) as nat);
    Seq::new(pow2(s), |j: int| c[reversed((log_n - s) as nat, b) + j * step])
}

/// The point at which the entry `j` of a block of stage `s` is a value.
pub open spec fn point(r: spec_fn(nat) -> int, s: nat, j: nat) -> int {
    if s == 0 {
        1
    } else {
        pow(r(s), j)
    }
}

/// After stage `s`, each block of 2^s entries holds the values of its part of the polynomial at
/// the powers of the root of the stage.
pub open spec fn at_stage(
    a: Seq<Goldilocks>,
    c: Seq<int>,
    r: spec_fn(nat) -> int,
    log_n: nat,
    s: nat,
) -> bool {
    &&& a.len() == pow2(log_n)
    &&& c.len() == pow2(log_n)
    &&& all_wf(a)
    &&& forall|i: int|
        0 <= i < a.len() ==> same(
            (#[trigger] a[i]).value as int,
            eval(
                part(c, log_n, s, (i / pow2(s) as int) as nat),
                point(r, s, (i % pow2(s) as int) as nat),
            ),
            prime(),
        )
}

/// What the butterflies of a stage make of the entries, with blocks of `2 * half` entries.
pub open spec fn butterfly(a: Seq<Goldilocks>, half: int, r: int) -> Seq<Goldilocks> {
    Seq::new(
        a.len(),
        |i: int|
            {
                let j = i % (2 * half);
                if j < half {
                    element(a[i].value + pow(r, j as nat) * a[i + half].value)
                } else {
                    element(a[i - half].value - pow(r, (j - half) as nat) * a[i].value)
                }
            },
    )
}

/// The parts that two neighbouring blocks take are the even and the odd places of the part of the
/// block that they become.
proof fn lemma_parts(c: Seq<int>, log_n: nat, s: nat, b: nat)
    requires
        s < log_n,
        b < pow2((log_n - s - 1) as nat),
        c.len() == pow2(log_n),
    ensures
        part(c, log_n, s, 2 * b) == evens(part(c, log_n, s + 1, b)),
        part(c, log_n, s, 2 * b + 1) == odds(part(c, log_n, s + 1, b)),
{
    let rest = (log_n - s) as nat;
    let less = (rest - 1) as nat;
    let whole = part(c, log_n, s + 1, b);
    lemma_pow2_unfold(rest);
    lemma_pow2_unfold(s + 1);
    let (step, small) = (pow2(rest) as int, pow2(less) as int);
    let start = reversed(less, b) as int;
    assert((2 * b) % 2 == 0 && (2 * b) / 2 == b);
    assert((2 * b + 1) % 2 == 1 && (2 * b + 1) / 2 == b);
    assert(reversed(rest, 2 * b) == start) by {
        assert(0 * small == 0) by (nonlinear_arith);
    }
    assert(reversed(rest, 2 * b + 1) == small + start) by {
        assert(1 * small == small) by (nonlinear_arith);
    }
    assert forall|j: int| 0 <= j < pow2(s) implies part(c, log_n, s, 2 * b)[j] == evens(whole)[j]
        by {
        assert(j * step == (2 * j) * small) by (nonlinear_arith)
            requires
                step == 2 * small,
        ;
        assert(evens(whole)[j] == whole[2 * j]);
    }
    assert(part(c, log_n, s, 2 * b) =~= evens(whole));
    assert forall|j: int| 0 <= j < pow2(s) implies part(c, log_n, s, 2 * b + 1)[j] == odds(
        whole,
    )[j] by {
        assert(small + j * step == (2 * j + 1) * small) by (nonlinear_arith)
            requires
                step == 2 * small,
        ;
        assert(odds(whole)[j] == whole[2 * j + 1]);
    }
    assert(part(c, log_n, s, 2 * b + 1) =~= odds(whole));
}

/// The point of an entry squared is the point of the entry of the smaller block.
proof fn lemma_point_squared(r: spec_fn(nat) -> int, log_n: nat, s: nat, j: nat)
    requires
        are_stage_roots(r, log_n),
        s < log_n,
        j < pow2(s),
    ensures
        ({
            let x = pow(r(s + 1), j);
            same(x * x, point(r, s, j), prime())
        }),
{
    let w = r(s + 1);
    let x = pow(w, j);
    if s == 0 {
        lemma2_to64();
        lemma_pow0(w);
        assert(j == 0);
    } else {
        lemma_pow_distributes(w, w, j);
        assert(same(r(s + 1) * r(s + 1), r(s), prime()));
        lemma_same_pow(w * w, r(s), j, prime());
    }
}

/// The butterflies take the entries from one stage to the next.
pub proof fn lemma_stage(
    a: Seq<Goldilocks>,
    c: Seq<int>,
    r: spec_fn(nat) -> int,
    log_n: nat,
    s: nat,
)
    requires
        s < log_n,
        are_stage_roots(r, log_n),
        at_stage(a, c, r, log_n, s),
    ensures
        at_stage(butterfly(a, pow2(s) as int, r(s + 1)), c, r, log_n, s + 1),
{
    let h = pow2(s) as int;
    let n = pow2(log_n) as int;
    let p = prime();
    let w = r(s + 1);
    let out = butterfly(a, h, w);
    lemma_pow2_pos(s);
    lemma_pow2_unfold(s + 1);
    lemma_pow2_adds(s + 1, (log_n - s - 1) as nat);
    let blocks = pow2((log_n - s - 1) as nat) as int;
    assert(n == (2 * h) * blocks);
    assert forall|i: int| 0 <= i < out.len() implies (#[trigger] out[i]).wf() && same(
        out[i].value as int,
        eval(
            part(c, log_n, s + 1, (i / pow2(s + 1) as int) as nat),
            point(r, s + 1, (i % pow2(s + 1) as int) as nat),
        ),
        p,
    ) by {
        let b = i / (2 * h);
        let j = i % (2 * h);
        lemma_fundamental_div_mod(i, 2 * h);
        lemma_mod_bound(i, 2 * h);
        assert(0 <= b < blocks) by (nonlinear_arith)
            requires
                0 <= i < (2 * h) * blocks,
                i == (2 * h) * b + j,
                0 <= j < 2 * h,
        ;
        let j0 = if j < h {
            j
        } else {
            j - h
        };
        let low = (2 * h) * b + j0;
        let high = low + h;
        assert(high < n) by (nonlinear_arith)
            requires
                b < blocks,
                n == (2 * h) * blocks,
                high == (2 * h) * b + j0 + h,
                0 <= j0 < h,
        ;
        assert(low == (2 * b) * h + j0 && high == (2 * b + 1) * h + j0) by (nonlinear_arith)
            requires
                low == (2 * h) * b + j0,
                high == low + h,
        ;
        assert(0 <= low) by (nonlinear_arith)
            requires
                low == (2 * h) * b + j0,
                h > 0,
                b >= 0,
                j0 >= 0,
        ;
        lemma_fundamental_div_mod_converse(low, h, 2 * b, j0);
        lemma_fundamental_div_mod_converse(high, h, 2 * b + 1, j0);
        lemma_parts(c, log_n, s, b as nat);
        let whole = part(c, log_n, s + 1, b as nat);
        let x = pow(w, j0 as nat);
        let y = point(r, s, j0 as nat);
        let (e, o) = (eval(evens(whole), y), eval(odds(whole), y));
        let (u, v) = (a[low].value as int, a[high].value as int);
        assert(same(u, e, p));
        assert(same(v, o, p));
        lemma_point_squared(r, log_n, s, j0 as nat);
        lemma_same_point(evens(whole), x * x, y, p);
        lemma_same_point(odds(whole), x * x, y, p);
        lemma_same(x, x, v, eval(odds(whole), x * x), p);
        lemma_same(
            u,
            eval(evens(whole), x * x),
            x * v,
            x * eval(odds(whole), x * x),
            p,
        );
        lemma_even_odd(whole, x);
        if j < h {
            assert(same(u + x * v, eval(whole, x), p));
            lemma_inside(u + x * v, 0, p);
            lemma_mod_bound(u + x * v, p);
        } else {
            // the point is the negative of that of the lower entry
            let z = pow(w, j as nat);
            lemma_pow_adds(w, h as nat, j0 as nat);
            assert(same(pow(r(s + 1), pow2(s)), -1, p));
            lemma_same(pow(w, h as nat), -1, x, x, p);
            assert((-1) * x == -x) by (nonlinear_arith);
            assert(same(z, -x, p));
            lemma_even_odd(whole, -x);
            assert((-x) * (-x) == x * x) by (nonlinear_arith);
            let d = eval(odds(whole), x * x);
            assert((-x) * d == -(x * d)) by (nonlinear_arith);
            lemma_same_point(whole, z, -x, p);
            assert(same(u - x * v, eval(whole, -x), p));
            lemma_inside(u - x * v, 0, p);
            lemma_mod_bound(u - x * v, p);
        }
    }
}

/// Entries in reversed order are at the start of the stages.
pub proof fn lemma_first_stage(
    a: Seq<Goldilocks>,
    start: Seq<Goldilocks>,
    r: spec_fn(nat) -> int,
    log_n: nat,
)
    requires
        start.len() == pow2(log_n),
        a.len() == start.len(),
        all_wf(start),
        forall|i: int|
            0 <= i < a.len() ==> #[trigger] a[i] == start[reversed(log_n, i as nat) as int],
    ensures
        at_stage(a, values(start), r, log_n, 0),
{
    lemma2_to64();
    let c = values(start);
    assert forall|i: int| 0 <= i < a.len() implies (#[trigger] a[i]).wf() && same(
        a[i].value as int,
        eval(
            part(c, log_n, 0, (i / pow2(0) as int) as nat),
            point(r, 0, (i % pow2(0) as int) as nat),
        ),
        prime(),
    ) by {
        lemma_reversed_bound(log_n, i as nat);
        vstd::arithmetic::div_mod::lemma_div_basics_2(i);
        assert(i / pow2(0) as int == i);
        let one = part(c, log_n, 0, i as nat);
        assert(one.len() == 1);
        assert(0 * pow2(log_n) == 0) by (nonlinear_arith);
        assert(one[0] == c[reversed(log_n, i as nat) as int]);
        assert(one.skip(1) =~= Seq::<int>::empty());
        assert(eval(one.skip(1), 1) == 0);
        assert(eval(one, 1) == one[0] + 1 * 0);
    }
}

/// After the last stage, the entries are the values of the polynomial at the powers of the root.
pub proof fn lemma_last_stage(
    a: Seq<Goldilocks>,
    c: Seq<int>,
    r: spec_fn(nat) -> int,
    log_n: nat,
)
    requires
        at_stage(a, c, r, log_n, log_n),
    ensures
        forall|i: int|
            0 <= i < a.len() ==> (#[trigger] a[i]) == element(eval(c, point(r, log_n, i as nat))),
{
    let n = pow2(log_n) as int;
    lemma2_to64();
    lemma_pow2_pos(log_n);
    assert forall|i: int| 0 <= i < a.len() implies (#[trigger] a[i]) == element(
        eval(c, point(r, log_n, i as nat)),
    ) by {
        lemma_fundamental_div_mod_converse(i, n, 0, i);
        let all = part(c, log_n, log_n, 0);
        assert forall|j: int| 0 <= j < n implies all[j] == c[j] by {
            assert(j * 1 == j);
        }
        assert(all =~= c);
        assert(a[i].wf());
        lemma_canonical(a[i].value as int, prime());
    }
}

/// A number whose first `n` powers are different: to the power of `n` it is 1, to no smaller one.
pub open spec fn is_root(w: int, n: nat) -> bool {
    &&& n > 0
    &&& same(pow(w, n), 1, prime())
    &&& forall|d: nat| 0 < d < n ==> !same(#[trigger] pow(w, d), 1, prime())
}

/// The sum of the first `n` powers of a number.
pub open spec fn geometric(z: int, n: nat) -> int
    decreases n,
{
    if n == 0 {
        0
    } else {
        geometric(z, (n - 1) as nat) + pow(z, (n - 1) as nat)
    }
}

/// The sum times the number less one is a power less one.
proof fn lemma_geometric(z: int, n: nat)
    ensures
        (z - 1) * geometric(z, n) == pow(z, n) - 1,
    decreases n,
{
    if n == 0 {
        lemma_pow0(z);
        assert((z - 1) * 0 == 0) by (nonlinear_arith);
    } else {
        let k = (n - 1) as nat;
        lemma_geometric(z, k);
        lemma_pow_adds(z, 1, k);
        lemma_pow1(z);
        let (g, p) = (geometric(z, k), pow(z, k));
        assert((z - 1) * (g + p) == (z - 1) * g + z * p - p) by (nonlinear_arith);
    }
}

/// The sum of the powers of 1.
proof fn lemma_geometric_one(z: int, n: nat)
    requires
        same(z, 1, prime()),
    ensures
        same(geometric(z, n), n as int, prime()),
    decreases n,
{
    if n > 0 {
        let k = (n - 1) as nat;
        lemma_geometric_one(z, k);
        lemma_same_pow(z, 1, k, prime());
        lemma1_pow(k);
        lemma_same(geometric(z, k), k as int, pow(z, k), 1, prime());
    }
}

/// The sum of the powers of a power of a root is `n` if the power is 1, else zero.
proof fn lemma_orthogonal(w: int, n: nat, d: nat)
    requires
        is_root(w, n),
    ensures
        same(
            geometric(pow(w, d), n),
            if d % n == 0 {
                n as int
            } else {
                0
            },
            prime(),
        ),
{
    let p = prime();
    let z = pow(w, d);
    lemma_fundamental_div_mod(d as int, n as int);
    let (k, e) = ((d / n) as nat, (d % n) as nat);
    // w^d = (w^n)^k * w^e
    lemma_pow_adds(w, n * k, e);
    lemma_pow_multiplies(w, n, k);
    lemma_same_pow(pow(w, n), 1, k, p);
    lemma1_pow(k);
    lemma_same(pow(w, n * k), 1, pow(w, e), pow(w, e), p);
    assert(same(z, pow(w, e), p));
    if e == 0 {
        lemma_pow0(w);
        lemma_geometric_one(z, n);
    } else {
        assert(!same(pow(w, e), 1, p));
        lemma_geometric(z, n);
        // z^n = (w^n)^d = 1
        lemma_pow_multiplies(w, d, n);
        lemma_pow_multiplies(w, n, d);
        assert(d * n == n * d) by (nonlinear_arith);
        lemma_same_pow(pow(w, n), 1, d, p);
        lemma1_pow(d);
        lemma_difference(pow(z, n), 1, p);
        lemma_difference(z, 1, p);
        lemma_goldilocks_prime();
        lemma_no_zero_divisors(z - 1, geometric(z, n), p);
        lemma_canonical(0, p);
    }
}

/// The values of a polynomial at the first `n` powers of a number.
pub open spec fn evaluations(c: Seq<int>, w: int, n: nat) -> Seq<int> {
    Seq::new(n, |i: int| eval(c, pow(w, i as nat)))
}

/// The value at `y` of the polynomial whose coefficients are the evaluations of another one.
proof fn lemma_eval_evaluations(c: Seq<int>, w: int, y: int, n: nat)
    requires
        c.len() > 0,
    ensures
        eval(evaluations(c, w, n), y) == c[0] * geometric(y, n) + eval(
            evaluations(c.skip(1), w, n),
            w * y,
        ),
    decreases n,
{
    let rest = c.skip(1);
    if n == 0 {
        let a = c[0];
        assert(a * 0 == 0) by (nonlinear_arith);
    } else {
        let k = (n - 1) as nat;
        lemma_eval_evaluations(c, w, y, k);
        let (b, d) = (evaluations(c, w, n), evaluations(rest, w, n));
        assert(b =~= evaluations(c, w, k).push(b[k as int]));
        assert(d =~= evaluations(rest, w, k).push(d[k as int]));
        lemma_push(evaluations(c, w, k), b[k as int], y);
        lemma_push(evaluations(rest, w, k), d[k as int], w * y);
        lemma_pow_distributes(w, y, k);
        let (x, v, q, g) = (pow(w, k), eval(rest, pow(w, k)), pow(y, k), geometric(y, k));
        assert(b[k as int] == c[0] + x * v);
        assert(d[k as int] == v);
        let a = c[0];
        assert((a + x * v) * q == a * q + v * (x * q)) by (nonlinear_arith);
        assert(a * (g + q) == a * g + a * q) by (nonlinear_arith);
    }
}

/// The evaluations of a polynomial, taken as coefficients, have at a power of the root a
/// coefficient of the polynomial as their value, times `n`.
proof fn lemma_transform_twice(c: Seq<int>, w: int, n: nat, d: nat)
    requires
        is_root(w, n),
        c.len() <= n,
    ensures
        same(eval(evaluations(c, w, n), pow(w, d)), n * picked_sum(c, d, n), prime()),
    decreases c.len(),
{
    let p = prime();
    let y = pow(w, d);
    if c.len() == 0 {
        let b = evaluations(c, w, n);
        assert(b =~= crate::fields::poly::zeros(n));
        crate::fields::poly::lemma_eval_zeros(n, y);
        assert(n * 0 == 0) by (nonlinear_arith);
    } else {
        let rest = c.skip(1);
        lemma_eval_evaluations(c, w, y, n);
        lemma_transform_twice(rest, w, n, d + 1);
        lemma_pow_adds(w, 1, d);
        lemma_pow1(w);
        lemma_orthogonal(w, n, d);
        let a = c[0];
        let unit: int = if d % n == 0 {
            n as int
        } else {
            0
        };
        lemma_same(a, a, geometric(y, n), unit, p);
        let tail = picked_sum(rest, d + 1, n);
        lemma_same(
            a * geometric(y, n),
            a * unit,
            eval(evaluations(rest, w, n), w * y),
            n * tail,
            p,
        );
        if d % n == 0 {
            assert(a * n + n * tail == n * (a + tail)) by (nonlinear_arith);
        } else {
            assert(a * 0 == 0) by (nonlinear_arith);
        }
    }
}

/// The sum of the coefficients at the places that make an exponent a multiple of `n`.
pub open spec fn picked_sum(c: Seq<int>, d: nat, n: nat) -> int
    decreases c.len(),
{
    if c.len() == 0 {
        0
    } else {
        (if d % n == 0 {
            c[0]
        } else {
            0
        }) + picked_sum(c.skip(1), d + 1, n)
    }
}

/// Among at most `n` coefficients, one place makes the exponent a multiple of `n`.
proof fn lemma_picked(c: Seq<int>, d: nat, n: nat, k: int)
    requires
        n > 0,
        c.len() <= n,
        0 <= k < n,
        (d + k) % n as int == 0,
    ensures
        picked_sum(c, d, n) == if k < c.len() {
            c[k]
        } else {
            0
        },
    decreases c.len(),
{
    if c.len() > 0 {
        let rest = c.skip(1);
        if k > 0 {
            lemma_picked(rest, d + 1, n, k - 1);
            if d % n == 0 {
                // then k is a multiple of n
                lemma_difference((d + k) as int, d as int, n as int);
                lemma_canonical(k, n as int);
            }
        } else {
            lemma_nothing_picked(rest, d + 1, n, 1);
        }
    }
}

/// Past a multiple of `n`, less than `n` places reach no other one.
proof fn lemma_nothing_picked(c: Seq<int>, d: nat, n: nat, j: int)
    requires
        n > 0,
        j >= 1,
        c.len() + j <= n,
        d >= j,
        (d - j) % n as int == 0,
    ensures
        picked_sum(c, d, n) == 0,
    decreases c.len(),
{
    if c.len() > 0 {
        if d % n == 0 {
            lemma_difference(d as int, (d - j) as int, n as int);
            lemma_canonical(j, n as int);
        }
        lemma_nothing_picked(c.skip(1), d + 1, n, j + 1);
    }
}

/// The transform with the inverse root undoes the transform, up to a factor of `n`.
pub proof fn lemma_undo(c: Seq<int>, w: int, v: int, n: nat, k: int)
    requires
        is_root(w, n),
        same(w * v, 1, prime()),
        c.len() == n,
        0 <= k < n,
    ensures
        same(eval(evaluations(c, w, n), pow(v, k as nat)), n * c[k], prime()),
{
    let p = prime();
    // the inverse is w^(n-1), so its power is w^((n-1) * k)
    let m = (n - 1) as nat;
    lemma_pow_adds(w, 1, m);
    lemma_pow1(w);
    let q = pow(w, m);
    lemma_same(w * q, 1, v, v, p);
    lemma_same(w * v, 1, q, q, p);
    assert((w * q) * v == (w * v) * q) by (nonlinear_arith);
    assert(same(v, q, p));
    lemma_same_pow(v, q, k as nat, p);
    lemma_pow_multiplies(w, m, k as nat);
    let d = m * (k as nat);
    lemma_same_point(evaluations(c, w, n), pow(v, k as nat), pow(w, d), p);
    lemma_transform_twice(c, w, n, d);
    assert(d + k == n * k) by (nonlinear_arith)
        requires
            d == (n - 1) * k,
    ;
    lemma_multiple_of(n as int, k);
    lemma_picked(c, d, n, k);
}

proof fn lemma_multiple_of(n: int, k: int)
    requires
        n > 0,
    ensures
        (n * k) % n == 0,
{
    lemma_multiple(0, k, n);
}

/// What is known of the roots of unity of the field: the root of order 2^k to the power of 2^(k-1)
/// is -1, it is a square root of the root of order 2^(k-1), and it is not zero.
pub proof fn lemma_root(k: nat)
    requires
        k <= 32,
    ensures
        0 < root(k) < prime(),
        same(pow(root(k), pow2(k)), 1, prime()),
        k > 0 ==> same(pow(root(k), pow2((k - 1) as nat)), -1, prime()),
        k > 0 ==> same(root(k) * root(k), root((k - 1) as nat), prime()),
        k == 0 ==> root(k) == 1,
{
    let p = prime();
    let w = OMEGA_32 as int;
    let e = root_exponent(k);
    let r = root(k);
    lemma2_to64();
    lemma_omega();
    lemma_canonical(p - 1, p);
    lemma_canonical(1, p);
    lemma_difference(p - 1, -1, p);
    let half = pow2(31);
    assert(same(pow(w, half), -1, p));
    lemma_inside(pow(w, e), 0, p);
    lemma_mod_bound(pow(w, e), p);
    assert(same(r, pow(w, e), p));
    lemma_pow2_adds((32 - k) as nat, k);
    lemma_same_pow(r, pow(w, e), pow2(k), p);
    lemma_pow_multiplies(w, e, pow2(k));
    lemma_pow_adds(w, half, half);
    lemma_same(pow(w, half), -1, pow(w, half), -1, p);
    assert(same(pow(w, pow2(32)), 1, p));
    assert(same(pow(r, pow2(k)), 1, p));
    if r == 0 {
        lemma_pow2_pos(k);
        vstd::arithmetic::power::lemma0_pow(pow2(k));
        lemma_canonical(0, p);
    }
    if k > 0 {
        lemma_pow2_adds((32 - k) as nat, (k - 1) as nat);
        lemma_same_pow(r, pow(w, e), pow2((k - 1) as nat), p);
        lemma_pow_multiplies(w, e, pow2((k - 1) as nat));
        lemma_pow2_unfold((33 - k) as nat);
        lemma_pow_adds(w, e, e);
        lemma_same(r, pow(w, e), r, pow(w, e), p);
        lemma_inside(pow(w, e + e), 0, p);
    } else {
        lemma_pow1(r);
        lemma_pow1(pow(w, e));
        lemma_canonical(r, p);
    }
}

/// The root of order 2^k is a root of that order.
pub proof fn lemma_root_order(k: nat)
    requires
        k <= 32,
    ensures
        is_root(root(k), pow2(k)),
{
    lemma_root(k);
    lemma_pow2_pos(k);
    assert forall|d: nat| 0 < d < pow2(k) implies !same(
        #[trigger] pow(root(k), d),
        1,
        prime(),
    ) by {
        lemma_power_not_one(root(k), k, d);
    }
}

/// A number whose power to 2^(k-1) is -1 has order 2^k.
proof fn lemma_power_not_one(w: int, k: nat, d: nat)
    requires
        0 < d < pow2(k),
        k > 0 ==> same(pow(w, pow2((k - 1) as nat)), -1, prime()),
    ensures
        !same(pow(w, d), 1, prime()),
{
    let p = prime();
    if same(pow(w, d), 1, p) {
        let (m, o) = lemma_odd_multiple(d, k);
        let h = pow2((k - 1) as nat);
        lemma_canonical(1, p);
        lemma_pow_of_one(w, d, m, p);
        lemma_pow_multiplies(w, h, o);
        lemma_same_pow(pow(w, h), -1, o, p);
        lemma_odd_power(o);
        lemma_difference(1, -1, p);
        lemma_canonical(2, p);
    }
}

/// The inverse of the root of order 2^k.
pub open spec fn inverse_root(k: nat) -> int {
    inverse(root(k), prime())
}

/// The inverse of a root is a root of the same order.
pub proof fn lemma_inverse_root(k: nat)
    requires
        k <= 32,
    ensures
        is_inverse(root(k), inverse_root(k), prime()),
        same(pow(inverse_root(k), pow2(k)), 1, prime()),
        k > 0 ==> same(pow(inverse_root(k), pow2((k - 1) as nat)), -1, prime()),
        k > 0 ==> same(
            inverse_root(k) * inverse_root(k),
            inverse_root((k - 1) as nat),
            prime(),
        ),
        k == 0 ==> inverse_root(k) == 1,
        is_root(inverse_root(k), pow2(k)),
{
    let p = prime();
    lemma_root(k);
    lemma_goldilocks_prime();
    lemma_canonical(root(k), p);
    lemma_inverse(root(k), p);
    let (w, v) = (root(k), inverse_root(k));
    lemma_canonical(1, p);
    let n = pow2(k);
    lemma_inverse_pow(w, v, n);
    lemma_same(pow(w, n), 1, pow(v, n), pow(v, n), p);
    if k > 0 {
        let h = pow2((k - 1) as nat);
        lemma_inverse_pow(w, v, h);
        let x = pow(v, h);
        lemma_same(pow(w, h), -1, x, x, p);
        assert((-1) * x == -x) by (nonlinear_arith);
        lemma_same(0, 0, -x, 1, p);
        assert(same(x, -1, p));
        // both are inverses of the root of half the order
        let (r, s) = (root((k - 1) as nat), inverse_root((k - 1) as nat));
        lemma_root((k - 1) as nat);
        lemma_canonical(r, p);
        lemma_inverse(r, p);
        let y = (v * v) % p;
        lemma_mod_bound(v * v, p);
        lemma_inside(v * v, r, p);
        lemma_same(w * v, 1, w * v, 1, p);
        assert((w * v) * (w * v) == (v * v) * (w * w)) by (nonlinear_arith);
        lemma_same(v * v, v * v, w * w, r, p);
        assert(y * r == r * y) by (nonlinear_arith);
        assert(is_inverse(r, y, p));
        lemma_inverse_unique(r, y, s, p);
        lemma_inside(v * v, 0, p);
    } else {
        assert(is_inverse(1, 1, p));
        lemma_inverse_unique(1, 1, v, p);
    }
    lemma_pow2_pos(k);
    assert forall|d: nat| 0 < d < n implies !same(#[trigger] pow(v, d), 1, p) by {
        lemma_power_not_one(v, k, d);
    }
}

/// Powers of inverses are inverses.
proof fn lemma_inverse_pow(w: int, v: int, e: nat)
    requires
        same(w * v, 1, prime()),
    ensures
        same(pow(w, e) * pow(v, e), 1, prime()),
{
    lemma_pow_distributes(w, v, e);
    lemma_same_pow(w * v, 1, e, prime());
    lemma1_pow(e);
}

/// The roots are those of the stages of a transform.
pub proof fn lemma_stage_roots(log_n: nat)
    requires
        log_n <= 32,
    ensures
        are_stage_roots(|s: nat| root(s), log_n),
        are_stage_roots(|s: nat| inverse_root(s), log_n),
{
    let (r, v) = (|s: nat| root(s), |s: nat| inverse_root(s));
    assert forall|s: nat| 0 < s < log_n implies #[trigger] same(
        r(s + 1) * r(s + 1),
        r(s),
        prime(),
    ) by {
        lemma_root(s + 1);
    }
    assert forall|s: nat| s < log_n implies #[trigger] same(
        pow(r(s + 1), pow2(s)),
        -1,
        prime(),
    ) by {
        lemma_root(s + 1);
    }
    assert forall|s: nat| 0 < s < log_n implies #[trigger] same(
        v(s + 1) * v(s + 1),
        v(s),
        prime(),
    ) by {
        lemma_inverse_root(s + 1);
    }
    assert forall|s: nat| s < log_n implies #[trigger] same(
        pow(v(s + 1), pow2(s)),
        -1,
        prime(),
    ) by {
        lemma_inverse_root(s + 1);
    }
}

/// The transform of elements: the values of the polynomial at the powers of a root of order 2^k.
pub open spec fn transformed(a: Seq<Goldilocks>, w: int) -> Seq<Goldilocks> {
    Seq::new(a.len(), |i: int| element(eval(values(a), pow(w, i as nat))))
}

/// The inverse transform of elements: the transform with the inverse root, divided by the number
/// of elements.
pub open spec fn untransformed(a: Seq<Goldilocks>, v: int) -> Seq<Goldilocks> {
    Seq::new(
        a.len(),
        |i: int|
            element(
                (eval(values(a), pow(v, i as nat)) % prime()) * inverse(a.len() as int, prime()),
            ),
    )
}

/// The inverse transform undoes the transform.
pub proof fn lemma_ntt_round_trip(a: Seq<Goldilocks>, k: nat)
    requires
        k <= 32,
        a.len() == pow2(k),
        all_wf(a),
    ensures
        untransformed(transformed(a, root(k)), inverse_root(k)) == a,
{
    lemma_root_order(k);
    lemma_inverse_root(k);
    lemma_canonical(1, prime());
    lemma_round_trip(a, k, root(k), inverse_root(k));
}

/// The inverse transform undoes the transform, with the root of either.
proof fn lemma_round_trip(a: Seq<Goldilocks>, k: nat, w: int, v: int)
    requires
        k <= 32,
        a.len() == pow2(k),
        all_wf(a),
        is_root(w, pow2(k)),
        same(w * v, 1, prime()),
    ensures
        untransformed(transformed(a, w), v) == a,
{
    let p = prime();
    let n = pow2(k);
    let b = transformed(a, w);
    let c = values(a);
    lemma_size_invertible(k);
    let u = inverse(n as int, p);
    assert forall|i: int| 0 <= i < a.len() implies untransformed(b, v)[i] == a[i] by {
        assert(same_coefficients(values(b), evaluations(c, w, n), p)) by {
            assert forall|j: int| 0 <= j < n implies #[trigger] same(
                values(b)[j],
                evaluations(c, w, n)[j],
                p,
            ) by {
                lemma_inside(eval(c, pow(w, j as nat)), 0, p);
                lemma_mod_bound(eval(c, pow(w, j as nat)), p);
            }
        }
        let y = pow(v, i as nat);
        lemma_same_eval(values(b), evaluations(c, w, n), y, y, p);
        lemma_undo(c, w, v, n, i);
        let e = eval(values(b), y);
        lemma_inside(e, u, p);
        lemma_same(e, n * c[i], u, u, p);
        lemma_same(n * u, 1, c[i], c[i], p);
        let x = c[i];
        assert((n * x) * u == (n * u) * x) by (nonlinear_arith);
        assert(1 * x == x) by (nonlinear_arith);
        assert(a[i].wf());
        lemma_canonical(x, p);
    }
    assert(untransformed(b, v) =~= a);
}

/// The number of elements has an inverse.
pub proof fn lemma_size_invertible(k: nat)
    requires
        k <= 32,
    ensures
        0 < pow2(k) < prime(),
        is_inverse(pow2(k) as int, inverse(pow2(k) as int, prime()), prime()),
        same(pow2(k) * inverse(pow2(k) as int, prime()), 1, prime()),
{
    lemma2_to64();
    lemma_pow2_pos(k);
    if k < 32 {
        lemma_pow2_strictly_increases(k, 32);
    }
    lemma_goldilocks_prime();
    lemma_canonical(pow2(k) as int, prime());
    lemma_inverse(pow2(k) as int, prime());
    lemma_canonical(1, prime());
}

/// The transform undoes the inverse transform.
pub proof fn lemma_intt_round_trip(a: Seq<Goldilocks>, k: nat)
    requires
        k <= 32,
        a.len() == pow2(k),
        all_wf(a),
    ensures
        transformed(untransformed(a, inverse_root(k)), root(k)) == a,
{
    let p = prime();
    let n = pow2(k);
    let (w, v) = (root(k), inverse_root(k));
    lemma_inverse_root(k);
    lemma_size_invertible(k);
    lemma_canonical(1, p);
    let u = inverse(n as int, p);
    let b = untransformed(a, v);
    let c = values(a);
    let d = evaluations(c, v, n);
    assert forall|i: int| 0 <= i < a.len() implies transformed(b, w)[i] == a[i] by {
        assert(same_coefficients(values(b), scaled(d, u), p)) by {
            assert forall|j: int| 0 <= j < n implies #[trigger] same(
                values(b)[j],
                scaled(d, u)[j],
                p,
            ) by {
                let e = eval(c, pow(v, j as nat));
                lemma_inside(e, u, p);
                lemma_inside((e % p) * u, 0, p);
                lemma_mod_bound((e % p) * u, p);
            }
        }
        let y = pow(w, i as nat);
        lemma_same_eval(values(b), scaled(d, u), y, y, p);
        lemma_eval_scaled(d, u, y);
        assert(w * v == v * w) by (nonlinear_arith);
        lemma_undo(c, v, w, n, i);
        lemma_same(eval(d, y), n * c[i], u, u, p);
        lemma_same(n * u, 1, c[i], c[i], p);
        let x = c[i];
        assert((n * x) * u == (n * u) * x) by (nonlinear_arith);
        assert(1 * x == x) by (nonlinear_arith);
        assert(a[i].wf());
        lemma_canonical(x, p);
    }
    assert(transformed(b, w) =~= a);
}

/// The transform by the root of order 2^k gives, at each place, the value of the polynomial at the
/// power of the root with that exponent; no smaller power of the root is one.
pub proof fn lemma_transform_values(a: Seq<Goldilocks>, k: nat, i: int)
    requires
        k <= 32,
        a.len() == pow2(k),
        0 <= i < a.len(),
    ensures
        transformed(a, root(k)).len() == a.len(),
        transformed(a, root(k))[i].value == eval(values(a), pow(root(k), i as nat)) % prime(),
        same(pow(root(k), pow2(k)), 1, prime()),
        0 < i ==> !same(pow(root(k), i as nat), 1, prime()),
{
    lemma_root(k);
    lemma_root_order(k);
    lemma_mod_bound(eval(values(a), pow(root(k), i as nat)), prime());
}

} // verus!
