//! Fermat's little theorem.

use vstd::arithmetic::power::{lemma0_pow, lemma_pow0, lemma_pow1, lemma_pow_adds, pow};
use vstd::prelude::*;

use crate::fields::lagrange::{lemma_eval_linear, times_linear};
use crate::fields::modular::{
    is_prime, lemma_cancel, lemma_canonical, lemma_inside, lemma_multiple, lemma_no_zero_divisors,
    lemma_same, lemma_same_pow, same,
};
use crate::fields::poly::{
    eval, lemma_padding, lemma_push, lemma_same_eval, same_coefficients,
};

verus! {

/// The binomial coefficient.
pub open spec fn binomial(n: nat, k: nat) -> nat
    decreases n,
{
    if k == 0 {
        1
    } else if n == 0 {
        0
    } else {
        binomial((n - 1) as nat, (k - 1) as nat) + binomial((n - 1) as nat, k)
    }
}

/// A coefficient times its lower index.
proof fn lemma_absorb(n: nat, k: nat)
    requires
        n > 0,
        k > 0,
    ensures
        k * binomial(n, k) == n * binomial((n - 1) as nat, (k - 1) as nat),
    decreases n,
{
    if n == 1 {
        reveal_with_fuel(binomial, 3);
        assert(k * 0 == 0) by (nonlinear_arith);
    } else {
        let (m, j) = ((n - 1) as nat, (k - 1) as nat);
        lemma_absorb(m, k);
        if j > 0 {
            lemma_absorb(m, j);
        }
        let (a, b) = (binomial(m, j) as int, binomial(m, k) as int);
        let c = if j > 0 {
            binomial((m - 1) as nat, (j - 1) as nat) as int
        } else {
            0
        };
        let d = binomial((m - 1) as nat, j) as int;
        // k * (a + b) = a + j * a + k * b = a + m * (c + d) = n * a
        assert(binomial(n, k) == a + b);
        assert(j > 0 ==> a == c + d);
        assert(k * (a + b) == n * a) by (nonlinear_arith)
            requires
                k == j + 1,
                n == m + 1,
                k * b == m * d,
                j > 0 ==> j * a == m * c && a == c + d,
                j == 0 ==> a == 1 && d == 1,
                j >= 0,
        ;
    }
}

/// The binomial coefficients with an upper index.
spec fn row(n: nat) -> Seq<int> {
    Seq::new(n + 1, |k: int| binomial(n, k as nat) as int)
}

/// There is no coefficient past the upper index.
proof fn lemma_beyond(n: nat, k: nat)
    requires
        k > n,
    ensures
        binomial(n, k) == 0,
    decreases n,
{
    if n > 0 {
        lemma_beyond((n - 1) as nat, (k - 1) as nat);
        lemma_beyond((n - 1) as nat, k);
    }
}

/// The coefficient at the upper index.
proof fn lemma_last(n: nat)
    ensures
        binomial(n, n) == 1,
    decreases n,
{
    if n > 0 {
        lemma_last((n - 1) as nat);
        lemma_beyond((n - 1) as nat, n);
    }
}

/// The binomial theorem.
proof fn lemma_binomial(n: nat, x: int)
    ensures
        eval(row(n), x) == pow(x + 1, n),
    decreases n,
{
    if n == 0 {
        lemma_pow0(x + 1);
        assert(row(0).skip(1) =~= Seq::<int>::empty());
        assert(eval(row(0).skip(1), x) == 0);
        assert(x * 0 == 0) by (nonlinear_arith);
    } else {
        let m = (n - 1) as nat;
        lemma_binomial(m, x);
        lemma_eval_linear(row(m), -1, x);
        assert(row(n) =~= times_linear(row(m), -1)) by {
            assert forall|k: int| 0 <= k < n + 1 implies row(n)[k] == times_linear(
                row(m),
                -1,
            )[k] by {
                lemma_beyond(m, n);
                if k < n {
                    let c = row(m)[k];
                    assert(c * (-1) == -c) by (nonlinear_arith);
                }
            }
        }
        lemma_pow_adds(x + 1, m, 1);
        lemma_pow1(x + 1);
    }
}

/// A prime divides the coefficients between the first and the last.
proof fn lemma_divided(p: nat, k: nat)
    requires
        is_prime(p as int),
        0 < k < p,
    ensures
        binomial(p, k) as int % p as int == 0,
{
    lemma_absorb(p, k);
    let c = binomial((p - 1) as nat, (k - 1) as nat) as int;
    lemma_multiple(0, c, p as int);
    lemma_canonical(k as int, p as int);
    lemma_no_zero_divisors(k as int, binomial(p, k) as int, p as int);
}

/// A power of a sum with one, modulo the exponent if it is prime.
proof fn lemma_next(p: nat, x: int)
    requires
        is_prime(p as int),
    ensures
        same(pow(x + 1, p), pow(x, p) + 1, p as int),
{
    let m = p as int;
    lemma_binomial(p, x);
    let zeros = Seq::new((p - 1) as nat, |i: int| 0int);
    let short = seq![1int] + zeros;
    let ends = short.push(1);
    lemma_last(p);
    assert(same_coefficients(row(p), ends, m)) by {
        assert forall|k: int| 0 <= k < p + 1 implies #[trigger] same(row(p)[k], ends[k], m) by {
            if 0 < k < p {
                lemma_divided(p, k as nat);
                lemma_canonical(0, m);
            }
        }
    }
    lemma_same_eval(row(p), ends, x, x, m);
    lemma_push(short, 1, x);
    lemma_padding(seq![1int], (p - 1) as nat, x);
    assert(seq![1int].skip(1) =~= Seq::<int>::empty());
    assert(eval(seq![1int].skip(1), x) == 0);
    assert(x * 0 == 0) by (nonlinear_arith);
    assert(short.len() == p);
    assert(1 * pow(x, p) == pow(x, p)) by (nonlinear_arith);
}

/// A number to the power of a prime is the number, modulo the prime.
proof fn lemma_power_of_prime(a: nat, p: nat)
    requires
        is_prime(p as int),
    ensures
        same(pow(a as int, p), a as int, p as int),
    decreases a,
{
    if a == 0 {
        lemma0_pow(p);
    } else {
        let b = (a - 1) as nat;
        lemma_power_of_prime(b, p);
        lemma_next(p, b as int);
        lemma_same(pow(b as int, p), b as int, 1, 1, p as int);
    }
}

/// Fermat's little theorem: a number that a prime does not divide, to the power of the prime less
/// one, is 1.
pub proof fn lemma_fermat(a: int, p: nat)
    requires
        is_prime(p as int),
        a % p as int != 0,
    ensures
        pow(a, (p - 1) as nat) % p as int == 1,
{
    let m = p as int;
    let b = a % m;
    vstd::arithmetic::div_mod::lemma_mod_bound(a, m);
    lemma_inside(a, 0, m);
    lemma_power_of_prime(b as nat, p);
    let e = (p - 1) as nat;
    lemma_pow_adds(b, 1, e);
    lemma_pow1(b);
    assert(b * 1 == b);
    lemma_cancel(b, pow(b, e), 1, m);
    lemma_same_pow(b, a, e, m);
    lemma_canonical(1, m);
}

} // verus!
