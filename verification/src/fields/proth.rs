//! Numbers that are prime because of a power that is -1.

use vstd::arithmetic::power::{
    lemma1_pow, lemma_pow1, lemma_pow_adds, lemma_pow_multiplies, pow,
};
use vstd::arithmetic::power2::{lemma2_to64, lemma_pow2_pos, lemma_pow2_unfold, pow2};
use vstd::prelude::*;

use crate::fields::modular::{
    is_prime, lemma_canonical, lemma_difference, lemma_order_bound, lemma_pow_of_one,
    lemma_prime_if_divisors_large, lemma_same, lemma_same_divisor, lemma_same_pow, same,
};

verus! {

/// A number below 2^k has a multiple that is an odd multiple of 2^(k-1).
pub proof fn lemma_odd_multiple(e: nat, k: nat) -> (r: (nat, nat))
    requires
        0 < e < pow2(k),
    ensures
        k > 0,
        r.1 % 2 == 1,
        e * r.0 == pow2((k - 1) as nat) * r.1,
    decreases k,
{
    lemma2_to64();
    if k == 0 {
        assert(pow2(0) == 1);
        (0, 1)
    } else if e % 2 == 1 {
        assert(e * pow2((k - 1) as nat) == pow2((k - 1) as nat) * e) by (nonlinear_arith);
        (pow2((k - 1) as nat), e)
    } else {
        lemma_pow2_unfold(k);
        let half = e / 2;
        let (m, o) = lemma_odd_multiple(half, (k - 1) as nat);
        lemma_pow2_unfold((k - 1) as nat);
        let (x, y) = (pow2((k - 1) as nat), pow2((k - 2) as nat));
        assert(e * m == x * o) by (nonlinear_arith)
            requires
                half * m == y * o,
                e == 2 * half,
                x == 2 * y,
        ;
        (m, o)
    }
}

/// An odd power of -1 is -1.
pub proof fn lemma_odd_power(o: nat)
    requires
        o % 2 == 1,
    ensures
        pow(-1, o) == -1,
{
    let k = (o / 2) as nat;
    lemma_pow_adds(-1, 1, 1);
    lemma_pow1(-1);
    assert(pow(-1, 2) == 1);
    lemma_pow_multiplies(-1, 2, k);
    lemma1_pow(k);
    lemma_pow_adds(-1, 2 * k, 1);
}

/// Modulo an odd divisor of a number for which a power is -1, no smaller power is 1.
proof fn lemma_no_smaller_power(b: int, k: nat, p: int, q: int, e: nat)
    requires
        p > 1,
        p % 2 == 1,
        k > 0,
        pow(b, pow2((k - 1) as nat)) % p == p - 1,
        q > 1,
        p % q == 0,
        0 < e < pow2(k),
    ensures
        pow(b, e) % q != 1,
{
    if pow(b, e) % q == 1 {
        let (m, o) = lemma_odd_multiple(e, k);
        let half = pow2((k - 1) as nat);
        lemma_pow_of_one(b, e, m, q);
        lemma_minus_one(b, k, p, q);
        lemma_pow_multiplies(b, half, o);
        lemma_same_pow(pow(b, half), -1, o, q);
        lemma_odd_power(o);
        lemma_canonical(1, q);
        // 1 and -1 are the same, so the divisor is 2, which divides no odd number
        lemma_same(1, -1, 1, 1, q);
        lemma_canonical(0, q);
        assert(2int % q == 0);
        if q > 2 {
            lemma_canonical(2, q);
        }
        assert(q == 2);
    }
}

/// A power that is -1 modulo a number is -1 modulo its divisors.
proof fn lemma_minus_one(b: int, k: nat, p: int, q: int)
    requires
        p > 1,
        k > 0,
        pow(b, pow2((k - 1) as nat)) % p == p - 1,
        q > 1,
        p % q == 0,
    ensures
        same(pow(b, pow2((k - 1) as nat)), -1, q),
{
    let x = pow(b, pow2((k - 1) as nat));
    lemma_canonical(p - 1, p);
    vstd::arithmetic::div_mod::lemma_mod_self_0(p);
    lemma_difference(p - 1, -1, p);
    assert(same(x, -1, p));
    lemma_same_divisor(x, -1, p, q);
}

/// An odd number is prime if for some number the power to 2^(k-1) is -1, and 4^k is above it.
pub proof fn lemma_prime_by_power(b: int, k: nat, p: int)
    requires
        p > 1,
        p % 2 == 1,
        k > 0,
        pow(b, pow2((k - 1) as nat)) % p == p - 1,
        pow2(k) * pow2(k) > p,
    ensures
        is_prime(p),
{
    let n = pow2(k);
    let half = pow2((k - 1) as nat);
    lemma_pow2_pos(k);
    lemma_pow2_unfold(k);
    assert forall|q: int| 1 < q && #[trigger] (p % q) == 0 implies n < q by {
        lemma_minus_one(b, k, p, q);
        lemma_pow_adds(b, half, half);
        lemma_same(pow(b, half), -1, pow(b, half), -1, q);
        lemma_canonical(1, q);
        assert forall|e: nat| 0 < e < n implies #[trigger] pow(b, e) % q != 1 by {
            lemma_no_smaller_power(b, k, p, q, e);
        }
        lemma_order_bound(b, n, q);
    }
    lemma_prime_if_divisors_large(p, n as int);
}

} // verus!
