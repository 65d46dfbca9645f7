//! The extended Euclidean algorithm.

use vstd::arithmetic::div_mod::lemma_fundamental_div_mod;
use vstd::prelude::*;

use crate::fields::modular::{
    is_inverse, is_prime, lemma_canonical, lemma_difference, lemma_multiple,
    lemma_same, same,
};

verus! {

/// What the algorithm keeps: `t` and `s` are the multiples of `a` that leave `r` and `q`, of
/// opposite signs, and no larger than `p`.
spec fn keeps(t: int, s: int, r: int, q: int, a: int, p: int) -> bool {
    &&& same(t * a, r, p)
    &&& same(s * a, q, p)
    &&& 0 <= q < r <= p
    &&& (t <= 0 <= s || s <= 0 <= t)
    &&& s != 0
    &&& size(t) <= size(s)
    &&& size(t) * q + size(s) * r == p
}

/// The absolute value.
spec fn size(x: int) -> int {
    if x < 0 {
        -x
    } else {
        x
    }
}


/// A step of the algorithm keeps what it keeps.
proof fn lemma_step(t: int, s: int, r: int, q: int, a: int, p: int)
    requires
        keeps(t, s, r, q, a, p),
        q > 0,
        p > 0,
    ensures
        keeps(s, t - (r / q) * s, q, r - (r / q) * q, a, p),
        r / q >= 1,
        size((r / q) * s) <= p,
        0 <= (r / q) * q <= r,
        size(t) <= p,
        size(s) <= p,
{
    let k = r / q;
    lemma_fundamental_div_mod(r, q);
    vstd::arithmetic::div_mod::lemma_mod_bound(r, q);
    let rest = r - k * q;
    assert(rest == r % q) by (nonlinear_arith)
        requires
            r == q * k + r % q,
            rest == r - k * q,
    ;
    assert(k >= 1) by (nonlinear_arith)
        requires
            r == q * k + r % q,
            0 <= r % q < q,
            0 < q < r,
    ;
    assert(0 <= k * q <= r) by (nonlinear_arith)
        requires
            r == q * k + r % q,
            0 <= r % q,
            k >= 1,
            q > 0,
    ;
    let next = t - k * s;
    assert(next * a == t * a - k * (s * a)) by (nonlinear_arith)
        requires
            next == t - k * s,
    ;
    lemma_same(k, k, s * a, q, p);
    lemma_same(t * a, r, k * (s * a), k * q, p);
    assert(size(next) == size(t) + k * size(s)) by (nonlinear_arith)
        requires
            next == t - k * s,
            k >= 1,
            t <= 0 <= s || s <= 0 <= t,
    ;
    assert(next <= 0 <= s || s <= 0 <= next) by (nonlinear_arith)
        requires
            next == t - k * s,
            k >= 1,
            t <= 0 <= s || s <= 0 <= t,
    ;
    assert(size(next) >= size(s) && next != 0 && size(k * s) == k * size(s)) by (nonlinear_arith)
        requires
            size(next) == size(t) + k * size(s),
            k >= 1,
            s != 0,
    ;
    assert(size(s) * rest + size(next) * q == p) by (nonlinear_arith)
        requires
            size(next) == size(t) + k * size(s),
            rest == r - k * q,
            size(t) * q + size(s) * r == p,
    ;
    assert(size(s) <= p) by (nonlinear_arith)
        requires
            size(t) * q + size(s) * r == p,
            size(t) >= 0,
            q > 0,
            r >= 1,
            size(s) >= 0,
    ;
    assert(k * size(s) <= p) by (nonlinear_arith)
        requires
            size(s) * rest + size(next) * q == p,
            size(next) == size(t) + k * size(s),
            rest >= 0,
            q >= 1,
            k >= 1,
    ;
}

/// At the end the divisor is 1, and `t` is an inverse.
proof fn lemma_end(t: int, s: int, r: int, a: int, p: int)
    requires
        keeps(t, s, r, 0, a, p),
        is_prime(p),
        0 < a < p,
    ensures
        r == 1,
        is_inverse(
            a,
            if t < 0 {
                t + p
            } else {
                t
            },
            p,
        ),
        size(t) <= p,
{
    let n = size(s);
    assert(r * n == p) by (nonlinear_arith)
        requires
            size(t) * 0 + n * r == p,
    ;
    lemma_multiple(0, n, r);
    if r != 1 {
        // a prime has no other divisor, so r = p, and s = 1 or -1 leaves a multiple of p
        if r < p {
            assert(p % r != 0);
        }
        assert(n == 1) by (nonlinear_arith)
            requires
                r * n == p,
                r == p,
                p > 1,
        ;
        lemma_canonical(0, p);
        lemma_canonical(a, p);
        if s == 1 {
            assert(s * a == a) by (nonlinear_arith)
                requires
                    s == 1,
            ;
        } else {
            assert(s == -1);
            lemma_same(s * a, 0, a, a, p);
            assert(s * a + a == 0) by (nonlinear_arith)
                requires
                    s == -1,
            ;
            lemma_same(s * a, 0, 0, 0, p);
            lemma_difference(a, 0, p);
            assert((s * a) % p == 0);
            lemma_same(0, 0, s * a, 0, p);
            assert(0 - s * a == a);
        }
    }
    lemma_canonical(1, p);
    assert(n == p);
    assert((t * a) % p == 1);
    let u = if t < 0 {
        t + p
    } else {
        t
    };
    assert(a * u == t * a || a * u == t * a + p * a) by (nonlinear_arith)
        requires
            u == t || u == t + p,
    ;
    lemma_multiple(t * a, a, p);
    // t is not p or -p, which leave 0
    if t == p {
        lemma_multiple(0, a, p);
    }
    if t == -p {
        lemma_multiple(0, -a, p);
        assert(t * a == p * (-a)) by (nonlinear_arith)
            requires
                t == -p,
        ;
    }
}

/// Computes the inverse of a number modulo a prime.
pub fn inverse_mod(a: u64, p: u64) -> (r: u64)
    requires
        is_prime(p as int),
        0 < a < p,
    ensures
        is_inverse(a as int, r as int, p as int),
{
    let mut t: i128 = 0;
    let mut new_t: i128 = 1;
    let mut r: i128 = p as i128;
    let mut new_r: i128 = a as i128;
    proof {
        lemma_multiple(0, 1, p as int);
        lemma_canonical(0, p as int);
        assert(p as int * 1 == p);
        assert(0 * (a as int) == 0 && 1 * (a as int) == a);
        assert(size(0) * (a as int) + size(1) * (p as int) == p) by (nonlinear_arith)
            requires
                size(0) == 0,
                size(1) == 1,
        ;
    }
    while new_r != 0
        invariant
            is_prime(p as int),
            0 < a < p,
            keeps(t as int, new_t as int, r as int, new_r as int, a as int, p as int),
        decreases new_r,
    {
        proof {
            lemma_step(t as int, new_t as int, r as int, new_r as int, a as int, p as int);
        }
        let quotient: i128 = r / new_r;
        let temp_t: i128 = t - quotient * new_t;
        t = new_t;
        new_t = temp_t;
        let temp_r: i128 = r - quotient * new_r;
        r = new_r;
        new_r = temp_r;
    }
    proof {
        lemma_end(t as int, new_t as int, r as int, a as int, p as int);
    }
    if t < 0 {
        (t + p as i128) as u64
    } else {
        t as u64
    }
}

} // verus!
