//! Arithmetic modulo a number, and when a number is prime.

use vstd::arithmetic::div_mod::{
    lemma_add_mod_noop, lemma_fundamental_div_mod, lemma_fundamental_div_mod_converse,
    lemma_mod_bound, lemma_mod_multiples_vanish, lemma_mul_mod_noop, lemma_small_mod,
    lemma_sub_mod_noop,
};
use vstd::arithmetic::power::{
    lemma_pow_adds, lemma_pow_mod_noop, lemma_pow_multiplies, lemma1_pow, pow,
};
use vstd::prelude::*;
use vstd::relations::injective_on;
use vstd::set_lib::{lemma_int_range, lemma_len_subset, lemma_map_size, set_int_range};

verus! {

/// Two numbers leave the same remainder.
pub open spec fn same(a: int, b: int, m: int) -> bool {
    a % m == b % m
}

/// Sums, differences and products of numbers with the same remainders have the same remainders.
pub proof fn lemma_same(a: int, b: int, c: int, d: int, m: int)
    requires
        m > 0,
        same(a, b, m),
        same(c, d, m),
    ensures
        same(a + c, b + d, m),
        same(a - c, b - d, m),
        same(a * c, b * d, m),
{
    lemma_add_mod_noop(a, c, m);
    lemma_add_mod_noop(b, d, m);
    lemma_sub_mod_noop(a, c, m);
    lemma_sub_mod_noop(b, d, m);
    lemma_mul_mod_noop(a, c, m);
    lemma_mul_mod_noop(b, d, m);
}

/// Taking remainders inside a sum, a difference or a product changes nothing.
pub proof fn lemma_inside(a: int, b: int, m: int)
    requires
        m > 0,
    ensures
        same(a % m + b, a + b, m),
        same(a % m - b, a - b, m),
        same((a % m) * b, a * b, m),
        same(a + b % m, a + b, m),
        same(a - b % m, a - b, m),
        same(a * (b % m), a * b, m),
        same(a % m, a, m),
{
    lemma_mod_twice(a, m);
    lemma_mod_twice(b, m);
    lemma_same(a % m, a, b, b, m);
    lemma_same(a, a, b % m, b, m);
}

/// A remainder is its own remainder.
pub proof fn lemma_mod_twice(a: int, m: int)
    requires
        m > 0,
    ensures
        (a % m) % m == a % m,
        0 <= a % m < m,
{
    lemma_mod_bound(a, m);
    lemma_small_mod((a % m) as nat, m as nat);
}

/// A number below the modulus is its own remainder.
pub proof fn lemma_canonical(a: int, m: int)
    requires
        0 <= a < m,
    ensures
        a % m == a,
{
    lemma_small_mod(a as nat, m as nat);
}

/// A number with the same remainder differs by a multiple of the modulus.
pub proof fn lemma_difference(a: int, b: int, m: int)
    requires
        m > 0,
    ensures
        same(a, b, m) <==> (a - b) % m == 0,
        same(a, b, m) ==> a - b == m * ((a - b) / m),
{
    if same(a, b, m) {
        lemma_same(a, b, b, b, m);
        lemma_canonical(0, m);
    }
    if (a - b) % m == 0 {
        lemma_canonical(0, m);
        lemma_same(a - b, 0, b, b, m);
    }
    lemma_fundamental_div_mod(a - b, m);
}

/// A multiple of the modulus may be added.
pub proof fn lemma_multiple(a: int, k: int, m: int)
    requires
        m > 0,
    ensures
        same(a + m * k, a, m),
        same(a - m * k, a, m),
        (m * k) % m == 0,
{
    lemma_mod_multiples_vanish(k, a, m);
    lemma_mod_multiples_vanish(-k, a, m);
    lemma_mod_multiples_vanish(k, 0, m);
    lemma_canonical(0, m);
    assert(m * (-k) == -(m * k)) by (nonlinear_arith);
}

/// Powers of numbers with the same remainder have the same remainder.
pub proof fn lemma_same_pow(a: int, b: int, e: nat, m: int)
    requires
        m > 0,
        same(a, b, m),
    ensures
        same(pow(a, e), pow(b, e), m),
{
    lemma_pow_mod_noop(a, e, m);
    lemma_pow_mod_noop(b, e, m);
}

/// The remainder of a power, from those of two powers with a smaller exponent.
pub proof fn lemma_pow_step(b: int, e: nat, f: nat, x: int, y: int, k: int, r: int, m: int)
    requires
        m > 0,
        pow(b, e) % m == x,
        pow(b, f) % m == y,
        x * y == k * m + r,
        0 <= r < m,
    ensures
        pow(b, e + f) % m == r,
{
    lemma_pow_adds(b, e, f);
    lemma_mul_mod_noop(pow(b, e), pow(b, f), m);
    lemma_fundamental_div_mod_converse(x * y, m, k, r);
}

/// Remainders by a number give remainders by its divisors.
pub proof fn lemma_same_divisor(a: int, b: int, m: int, d: int)
    requires
        m > 0,
        d > 0,
        m % d == 0,
        same(a, b, m),
    ensures
        same(a, b, d),
{
    lemma_difference(a, b, m);
    lemma_fundamental_div_mod(m, d);
    let k = (a - b) / m;
    let c = m / d;
    assert((d * c) * k == d * (c * k)) by (nonlinear_arith);
    lemma_multiple(b, c * k, d);
}

/// The greatest common divisor.
pub open spec fn gcd(a: nat, b: nat) -> nat
    decreases b,
{
    if b == 0 {
        a
    } else {
        gcd(b, a % b)
    }
}

/// The greatest common divisor divides both numbers and is a combination of them.
pub proof fn lemma_gcd(a: nat, b: nat) -> (r: (int, int))
    requires
        a > 0,
    ensures
        gcd(a, b) > 0,
        a % gcd(a, b) == 0,
        b % gcd(a, b) == 0,
        r.0 * a + r.1 * b == gcd(a, b),
    decreases b,
{
    if b == 0 {
        vstd::arithmetic::div_mod::lemma_mod_self_0(a as int);
        (1, 0)
    } else {
        let (u, v) = lemma_gcd(b, a % b);
        let g = gcd(a, b) as int;
        let q = a as int / b as int;
        lemma_fundamental_div_mod(a as int, b as int);
        // a = b * q + a % b, and the divisor divides both
        lemma_fundamental_div_mod(b as int, g);
        lemma_fundamental_div_mod((a % b) as int, g);
        let (c, d) = (b as int / g, (a % b) as int / g);
        assert((g * c) * q + g * d == g * (c * q + d)) by (nonlinear_arith);
        lemma_multiple(0, c * q + d, g);
        assert(v * a + (u - v * q) * b == u * b + v * (a - b * q)) by (nonlinear_arith);
        (v, u - v * q)
    }
}

/// A number above 1 that has no divisor but 1 and itself.
pub open spec fn is_prime(p: int) -> bool {
    &&& p > 1
    &&& forall|d: int| 1 < d < p ==> #[trigger] (p % d) != 0
}

/// Every number that a prime does not divide has an inverse modulo the prime.
pub proof fn lemma_inverse_exists(a: int, p: int) -> (r: int)
    requires
        is_prime(p),
        a % p != 0,
    ensures
        0 < r < p,
        (a * r) % p == 1,
{
    let b = (a % p) as nat;
    lemma_mod_bound(a, p);
    let g = gcd(p as nat, b);
    let (u, v) = lemma_gcd(p as nat, b);
    assert(g <= b) by {
        lemma_fundamental_div_mod(b as int, g as int);
        let c = b as int / g as int;
        assert(g * c == b && b > 0 && g > 0 ==> g <= b) by (nonlinear_arith);
    }
    if g > 1 {
        assert(p % (g as int) != 0);
    }
    // u * p + v * b = 1
    let r = v % p;
    lemma_mod_bound(v, p);
    assert(v * b == 1 - p * u) by (nonlinear_arith)
        requires
            u * p + v * b == 1,
    ;
    lemma_multiple(1, u, p);
    lemma_canonical(1, p);
    lemma_inside(v, b as int, p);
    assert((r * b) % p == 1);
    lemma_inside(r, a, p);
    assert(r * b == r * (a % p));
    assert(r * a == a * r) by (nonlinear_arith);
    if r == 0 {
        assert(a * r == 0) by (nonlinear_arith)
            requires
                r == 0,
        ;
    }
    r
}

/// An inverse modulo `p`, below `p`.
pub open spec fn is_inverse(a: int, r: int, p: int) -> bool {
    &&& 0 <= r < p
    &&& (a * r) % p == 1
}

/// The inverse of a number that has one.
pub open spec fn inverse(a: int, p: int) -> int {
    choose|r: int| is_inverse(a, r, p)
}

/// There is one inverse.
pub proof fn lemma_inverse_unique(a: int, r: int, s: int, p: int)
    requires
        p > 1,
        is_inverse(a, r, p),
        is_inverse(a, s, p),
    ensures
        r == s,
{
    // r = r * (a * s) = (r * a) * s = s
    lemma_canonical(1, p);
    lemma_same(r, r, a * s, 1, p);
    lemma_same(a * r, 1, s, s, p);
    assert(r * (a * s) == (a * r) * s) by (nonlinear_arith);
    lemma_canonical(r, p);
    lemma_canonical(s, p);
}

/// The inverse of a number that a prime does not divide.
pub proof fn lemma_inverse(a: int, p: int)
    requires
        is_prime(p),
        a % p != 0,
    ensures
        is_inverse(a, inverse(a, p), p),
        inverse(a, p) > 0,
{
    let r = lemma_inverse_exists(a, p);
    assert(is_inverse(a, r, p));
    lemma_inverse_unique(a, r, inverse(a, p), p);
}

/// A prime that divides a product divides a factor.
pub proof fn lemma_no_zero_divisors(a: int, b: int, p: int)
    requires
        is_prime(p),
        (a * b) % p == 0,
        a % p != 0,
    ensures
        b % p == 0,
{
    let r = lemma_inverse_exists(a, p);
    lemma_canonical(0, p);
    lemma_canonical(1, p);
    lemma_same(a * b, 0, r, r, p);
    lemma_same(a * r, 1, b, b, p);
    assert((a * b) * r == (a * r) * b) by (nonlinear_arith);
}

/// Numbers that give the same products with one that a prime does not divide are the same.
pub proof fn lemma_cancel(a: int, b: int, c: int, p: int)
    requires
        is_prime(p),
        a % p != 0,
        same(a * b, a * c, p),
    ensures
        same(b, c, p),
{
    lemma_difference(a * b, a * c, p);
    assert(a * b - a * c == a * (b - c)) by (nonlinear_arith);
    lemma_no_zero_divisors(a, b - c, p);
    lemma_difference(b, c, p);
}

/// If the first `n` powers of a number are different and none is zero modulo `q`, then `q` is
/// above `n`.
pub proof fn lemma_many_powers(b: int, n: nat, q: int)
    requires
        q > 1,
        forall|i: nat, j: nat|
            #![trigger pow(b, i), pow(b, j)]
            i < j < n ==> !same(pow(b, i), pow(b, j), q),
        forall|i: nat| i < n ==> #[trigger] pow(b, i) % q != 0,
    ensures
        n < q,
{
    let f = |i: int| pow(b, i as nat) % q;
    let exponents = set_int_range(0, n as int);
    let values = exponents.map(f);
    lemma_int_range(0, n as int);
    lemma_int_range(1, q);
    assert(injective_on(f, exponents)) by {
        assert forall|i: int, j: int|
            exponents.contains(i) && exponents.contains(j) && #[trigger] f(i) == #[trigger] f(
                j,
            ) implies i == j by {
            if i < j {
                assert(!same(pow(b, i as nat), pow(b, j as nat), q));
            } else if j < i {
                assert(!same(pow(b, j as nat), pow(b, i as nat), q));
            }
        }
    }
    lemma_map_size(exponents, values, f);
    assert(values.subset_of(set_int_range(1, q))) by {
        assert forall|v: int| values.contains(v) implies set_int_range(1, q).contains(v) by {
            let i = choose|i: int| exponents.contains(i) && f(i) == v;
            lemma_mod_bound(pow(b, i as nat), q);
            assert(pow(b, i as nat) % q != 0);
        }
    }
    lemma_len_subset(values, set_int_range(1, q));
}

/// If `b` to the power of `n` is 1 modulo `q`, and to no smaller power, then `q` is above `n`.
pub proof fn lemma_order_bound(b: int, n: nat, q: int)
    requires
        q > 1,
        n > 0,
        pow(b, n) % q == 1,
        forall|e: nat| 0 < e < n ==> #[trigger] pow(b, e) % q != 1,
    ensures
        n < q,
{
    lemma_canonical(1, q);
    lemma_canonical(0, q);
    assert forall|i: nat| i < n implies #[trigger] pow(b, i) % q != 0 by {
        if pow(b, i) % q == 0 {
            lemma_pow_adds(b, i, (n - i) as nat);
            lemma_same(pow(b, i), 0, pow(b, (n - i) as nat), pow(b, (n - i) as nat), q);
        }
    }
    assert forall|i: nat, j: nat|
        #![trigger pow(b, i), pow(b, j)]
        i < j < n implies !same(pow(b, i), pow(b, j), q) by {
        if same(pow(b, i), pow(b, j), q) {
            // multiply by the power that takes b^i to 1
            let rest = (n - i) as nat;
            let e = (j - i) as nat;
            lemma_pow_adds(b, i, rest);
            lemma_pow_adds(b, j, rest);
            lemma_pow_adds(b, n, e);
            lemma_same(pow(b, i), pow(b, j), pow(b, rest), pow(b, rest), q);
            lemma_same(pow(b, n), 1, pow(b, e), pow(b, e), q);
            assert(pow(b, e) % q == 1);
        }
    }
    lemma_many_powers(b, n, q);
}

/// If every divisor above 1 is above a number whose square exceeds `p`, then `p` is prime.
pub proof fn lemma_prime_if_divisors_large(p: int, n: int)
    requires
        p > 1,
        n > 0,
        n * n > p,
        forall|q: int| 1 < q && #[trigger] (p % q) == 0 ==> n < q,
    ensures
        is_prime(p),
{
    assert forall|d: int| 1 < d < p implies #[trigger] (p % d) != 0 by {
        if p % d == 0 {
            lemma_fundamental_div_mod(p, d);
            let c = p / d;
            assert(p == d * c);
            assert(c > 1) by (nonlinear_arith)
                requires
                    p == d * c,
                    1 < d < p,
            ;
            assert(d * c == c * d) by (nonlinear_arith);
            lemma_multiple(0, d, c);
            assert(p % c == 0);
            assert(n < d && n < c);
            assert(n * n < d * c) by (nonlinear_arith)
                requires
                    0 < n < d,
                    0 < n < c,
            ;
        }
    }
}

/// What holds of a power holds of the powers of it: if `b^e` is 1 then so is `b^(e*k)`.
pub proof fn lemma_pow_of_one(b: int, e: nat, k: nat, q: int)
    requires
        q > 1,
        pow(b, e) % q == 1,
    ensures
        pow(b, e * k) % q == 1,
{
    lemma_canonical(1, q);
    lemma_pow_multiplies(b, e, k);
    lemma_same_pow(pow(b, e), 1, k, q);
    lemma1_pow(k);
}

/// A number that two coprime numbers divide is divided by their product.
pub proof fn lemma_both_divide(e: int, a: int, f: int, u: int, v: int)
    requires
        a > 0,
        f > 0,
        u * a + v * f == 1,
        e % a == 0,
        e % f == 0,
    ensures
        e % (a * f) == 0,
{
    lemma_fundamental_div_mod(e, a);
    lemma_fundamental_div_mod(e, f);
    let (x, y) = (e / a, e / f);
    // e = e * (u * a + v * f) = f * y * u * a + a * x * v * f
    assert(e == (a * f) * (y * u + x * v)) by (nonlinear_arith)
        requires
            e == a * x,
            e == f * y,
            u * a + v * f == 1,
    ;
    assert(a * f > 0) by (nonlinear_arith)
        requires
            a > 0,
            f > 0,
    ;
    lemma_multiple(0, y * u + x * v, a * f);
}

} // verus!
