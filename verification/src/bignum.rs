//! Natural numbers as sequences of 64-bit limbs, least significant first.

use vstd::arithmetic::power::{lemma_pow0, lemma_pow1, lemma_pow_adds, lemma_pow_positive, pow};
use vstd::prelude::*;

verus! {

/// The base of the limbs.
pub open spec fn base() -> int {
    0x1_0000_0000_0000_0000
}

/// The number that the first `n` limbs make.
pub open spec fn limbs_value(limbs: Seq<u64>, n: nat) -> int
    decreases n,
{
    if n == 0 {
        0
    } else {
        limbs_value(limbs, (n - 1) as nat) + limbs[n - 1] * pow(base(), (n - 1) as nat)
    }
}

/// The number that the limbs make.
pub open spec fn value(limbs: Seq<u64>) -> int {
    limbs_value(limbs, limbs.len())
}

/// The value depends on the limbs it is made of, and is below the power of the base.
proof fn lemma_value_bound(limbs: Seq<u64>, n: nat)
    requires
        n <= limbs.len(),
    ensures
        0 <= limbs_value(limbs, n) < pow(base(), n),
    decreases n,
{
    lemma_pow0(base());
    if n > 0 {
        let m = (n - 1) as nat;
        lemma_value_bound(limbs, m);
        lemma_pow_step(m);
        let (l, p) = (limbs[n - 1] as int, pow(base(), m));
        assert(0 <= l * p && l * p + p <= base() * p) by (nonlinear_arith)
            requires
                0 <= l < base(),
                p > 0,
        ;
    }
}

proof fn lemma_pow_step(m: nat)
    ensures
        pow(base(), (m + 1) as nat) == base() * pow(base(), m),
        pow(base(), m) > 0,
{
    lemma_pow_adds(base(), 1, m);
    lemma_pow1(base());
    lemma_pow_positive(base(), m);
}

proof fn lemma_value_same(a: Seq<u64>, b: Seq<u64>, n: nat)
    requires
        n <= a.len(),
        n <= b.len(),
        forall|i: int| 0 <= i < n ==> a[i] == b[i],
    ensures
        limbs_value(a, n) == limbs_value(b, n),
    decreases n,
{
    if n > 0 {
        lemma_value_same(a, b, (n - 1) as nat);
    }
}

/// Multiplies a number by a small factor.
pub fn scale(limbs: &mut Vec<u64>, factor: u64)
    requires
        value(old(limbs)@) * factor < pow(base(), old(limbs).len() as nat),
    ensures
        final(limbs).len() == old(limbs).len(),
        value(final(limbs)@) == value(old(limbs)@) * factor,
{
    let ghost before = limbs@;
    let mut carry: u64 = 0;
    let n: usize = limbs.len();
    proof {
        assert(0 * factor == 0);
        lemma_pow0(base());
    }
    for i in 0..n
        invariant
            limbs.len() == n == before.len(),
            forall|k: int| i <= k < n ==> #[trigger] limbs@[k] == before[k],
            limbs_value(limbs@, i as nat) + carry * pow(base(), i as nat) == limbs_value(
                before,
                i as nat,
            ) * factor,
    {
        let ghost now = limbs@;
        let limb: u64 = limbs[i];
        assert(limb as int * factor as int + carry as int <= 0xffff_ffff_ffff_ffff
            * 0xffff_ffff_ffff_ffff + 0xffff_ffff_ffff_ffff) by (nonlinear_arith)
            requires
                0 <= limb <= 0xffff_ffff_ffff_ffff,
                0 <= factor <= 0xffff_ffff_ffff_ffff,
                0 <= carry <= 0xffff_ffff_ffff_ffff,
        ;
        assert(limb as int * factor as int >= 0) by (nonlinear_arith)
            requires
                0 <= limb,
                0 <= factor,
        ;
        let t: u128 = (limb as u128) * (factor as u128) + (carry as u128);
        let low: u64 = (t % 0x1_0000_0000_0000_0000) as u64;
        let high: u64 = (t / 0x1_0000_0000_0000_0000) as u64;
        limbs[i] = low;
        proof {
            lemma_value_same(now, limbs@, i as nat);
            lemma_pow_step(i as nat);
            let p = pow(base(), i as nat);
            let (l, f, c) = (limb as int, factor as int, carry as int);
            let (lo, hi, v, w) = (
                low as int,
                high as int,
                limbs_value(limbs@, i as nat),
                limbs_value(before, i as nat),
            );
            assert(v + lo * p + hi * (base() * p) == (w + l * p) * f) by (nonlinear_arith)
                requires
                    v + c * p == w * f,
                    l * f + c == lo + base() * hi,
            ;
        }
        carry = high;
    }
    proof {
        let p = pow(base(), n as nat);
        lemma_value_bound(limbs@, n as nat);
        lemma_pow_positive(base(), n as nat);
        let c = carry as int;
        assert(c == 0) by (nonlinear_arith)
            requires
                c >= 0,
                c * p < p,
                p > 0,
        ;
        assert(c * p == 0) by (nonlinear_arith)
            requires
                c == 0,
        ;
    }
}

/// Whether a number is smaller than another of as many limbs.
pub fn less(a: &Vec<u64>, b: &Vec<u64>) -> (r: bool)
    requires
        a.len() == b.len(),
    ensures
        r == (value(a@) < value(b@)),
{
    let mut n: usize = a.len();
    while n > 0
        invariant
            n <= a.len() == b.len(),
            value(a@) - limbs_value(a@, n as nat) == value(b@) - limbs_value(b@, n as nat),
        decreases n,
    {
        let i: usize = n - 1;
        let x: u64 = a[i];
        let y: u64 = b[i];
        proof {
            let p = pow(base(), i as nat);
            lemma_value_bound(a@, i as nat);
            lemma_value_bound(b@, i as nat);
            let (x, y) = (x as int, y as int);
            let (u, v) = (limbs_value(a@, i as nat), limbs_value(b@, i as nat));
            assert(x < y ==> u + x * p < v + y * p) by (nonlinear_arith)
                requires
                    0 <= u < p,
                    0 <= v < p,
            ;
            assert(y < x ==> v + y * p < u + x * p) by (nonlinear_arith)
                requires
                    0 <= u < p,
                    0 <= v < p,
            ;
        }
        if x < y {
            return true;
        }
        if y < x {
            return false;
        }
        n = i;
    }
    false
}

/// The number one, in `n` limbs.
pub fn one(n: usize) -> (r: Vec<u64>)
    requires
        n > 0,
    ensures
        r.len() == n,
        value(r@) == 1,
{
    let mut limbs: Vec<u64> = vec![0; n];
    limbs[0] = 1;
    proof {
        lemma_one_value(limbs@, n as nat);
    }
    limbs
}

proof fn lemma_one_value(limbs: Seq<u64>, n: nat)
    requires
        0 < n <= limbs.len(),
        limbs[0] == 1,
        forall|i: int| 0 < i < limbs.len() ==> #[trigger] limbs[i] == 0,
    ensures
        limbs_value(limbs, n) == 1,
    decreases n,
{
    lemma_pow0(base());
    if n > 1 {
        lemma_one_value(limbs, (n - 1) as nat);
    } else {
        assert(limbs_value(limbs, 0) == 0);
    }
}

/// The power of a number, in `n` limbs.
pub fn power(x: u64, exponent: usize, n: usize) -> (r: Vec<u64>)
    requires
        exponent < n,
    ensures
        r.len() == n,
        value(r@) == pow(x as int, exponent as nat),
        value(r@) < pow(base(), exponent as nat) || exponent == 0,
{
    let mut limbs = one(n);
    proof {
        lemma_pow0(x as int);
    }
    for i in 0..exponent
        invariant
            exponent < n,
            limbs.len() == n,
            value(limbs@) == pow(x as int, i as nat),
    {
        proof {
            lemma_power_bound(x, (i + 1) as nat, n as nat);
            lemma_pow_adds(x as int, i as nat, 1);
            lemma_pow1(x as int);
        }
        scale(&mut limbs, x);
    }
    proof {
        if exponent > 0 {
            lemma_power_bound(x, exponent as nat, exponent as nat);
        }
    }
    limbs
}

/// A power of a limb is below the power of the base.
proof fn lemma_power_bound(x: u64, e: nat, n: nat)
    requires
        0 < e <= n,
    ensures
        0 <= pow(x as int, e) < pow(base(), n),
        0 <= pow(x as int, e) < pow(base(), e),
    decreases e,
{
    lemma_pow_adds(x as int, (e - 1) as nat, 1);
    lemma_pow1(x as int);
    lemma_pow_step((e - 1) as nat);
    if e == 1 {
        lemma_pow0(x as int);
        lemma_pow0(base());
    } else {
        lemma_power_bound(x, (e - 1) as nat, (e - 1) as nat);
    }
    let (a, b, v) = (pow(x as int, (e - 1) as nat), pow(base(), (e - 1) as nat), x as int);
    assert(0 <= a * v < base() * b) by (nonlinear_arith)
        requires
            0 <= a <= b,
            0 < b,
            0 <= v < base(),
    ;
    lemma_base_grows(e, n);
}

proof fn lemma_base_grows(e: nat, n: nat)
    requires
        e <= n,
    ensures
        pow(base(), e) <= pow(base(), n),
    decreases n,
{
    if e < n {
        lemma_base_grows(e, (n - 1) as nat);
        lemma_pow_step((n - 1) as nat);
    }
}

/// Doubling a number that is below a power of the base stays below the next one.
pub proof fn lemma_double_fits(v: int, e: nat, n: nat)
    requires
        0 <= v < pow(base(), e),
        e < n,
    ensures
        v * 2 < pow(base(), n),
{
    lemma_pow_step(e);
    lemma_base_grows((e + 1) as nat, n);
}

} // verus!
