//! NTT (Number Theoretic Transform) operations over the Goldilocks field.

use vstd::arithmetic::div_mod::{
    lemma_fundamental_div_mod, lemma_fundamental_div_mod_converse, lemma_mod_bound,
};
use vstd::arithmetic::power::{lemma_pow0, lemma_pow1, lemma_pow_adds, pow};
use vstd::arithmetic::power2::{
    lemma2_to64, lemma_pow2_adds, lemma_pow2_pos, lemma_pow2_strictly_increases,
    lemma_pow2_unfold, pow2,
};
use vstd::prelude::*;

use crate::fields::goldilocks::{element, power_of_two, prime, root, Goldilocks};
use crate::fields::modular::{
    inverse, is_inverse, lemma_canonical, lemma_inside, lemma_inverse_unique, lemma_multiple,
    lemma_same, same,
};
use crate::fields::poly::eval;
use crate::fields::transform::{
    all_wf, at_stage, butterfly, inverse_root, lemma_first_stage, lemma_inverse_root,
    lemma_last_stage, lemma_reversed_bound, lemma_reversed_twice, lemma_root, lemma_size_invertible,
    lemma_stage, lemma_stage_roots, point, reversed, transformed, untransformed, values,
};

verus! {

/// The exponent of a power of two.
pub open spec fn log_of(n: nat) -> nat {
    choose|k: nat| n == pow2(k)
}

/// A power of two has one exponent.
pub proof fn lemma_log_of(k: nat)
    ensures
        log_of(pow2(k)) == k,
{
    let l = log_of(pow2(k));
    assert(pow2(l) == pow2(k));
    if l < k {
        lemma_pow2_strictly_increases(l, k);
    } else if k < l {
        lemma_pow2_strictly_increases(k, l);
    }
}

/// A transform of this many elements exists.
pub open spec fn is_ntt_size(n: nat) -> bool {
    exists|k: nat| k <= 32 && n == pow2(k)
}

/// Computes the exponent of a power of two.
fn log2(n: usize) -> (r: u32)
    requires
        is_ntt_size(n as nat),
    ensures
        r <= 32,
        n == pow2(r as nat),
        r == log_of(n as nat),
{
    let ghost want = choose|k: nat| k <= 32 && n == pow2(k);
    let mut k: u32 = 0;
    let mut rest: usize = n;
    proof {
        lemma2_to64();
        lemma_log_of(want);
    }
    while rest > 1
        invariant
            k <= want <= 32,
            rest == pow2((want - k) as nat),
        decreases want - k,
    {
        proof {
            lemma2_to64();
            lemma_pow2_unfold((want - k) as nat);
        }
        rest = rest / 2;
        k = k + 1;
    }
    proof {
        if k < want {
            lemma_pow2_unfold((want - k) as nat);
            lemma_pow2_pos((want - k - 1) as nat);
        }
    }
    k
}

/// A transform of at least this many elements exists, and its size is an address.
pub open spec fn fits_ntt(n: nat) -> bool {
    &&& 0 < n <= 0x1_0000_0000
    &&& exists|k: nat| n <= #[trigger] pow2(k) <= usize::MAX
}

/// The smallest power of two that is not below a number.
pub fn next_power_of_two(n: usize) -> (r: usize)
    requires
        fits_ntt(n as nat),
    ensures
        is_ntt_size(r as nat),
        n <= r,
        r > 1 ==> r / 2 < n,
{
    let mut m: usize = 1;
    let ghost mut k: nat = 0;
    let ghost top = choose|k: nat| n <= #[trigger] pow2(k) <= usize::MAX;
    proof {
        lemma2_to64();
    }
    while m < n
        invariant
            n <= 0x1_0000_0000,
            k <= 32,
            m == pow2(k),
            m > 1 ==> m / 2 < n,
            n <= pow2(top) <= usize::MAX,
        decreases 32 - k,
    {
        proof {
            lemma2_to64();
            lemma_pow2_pos(k);
            lemma_pow2_unfold(k + 1);
            if top <= k {
                if top < k {
                    lemma_pow2_strictly_increases(top, k);
                }
            } else if top > k + 1 {
                lemma_pow2_strictly_increases(k + 1, top);
            }
            if k >= 32 {
                if k > 32 {
                    lemma_pow2_strictly_increases(32, k);
                }
            }
            k = k + 1;
        }
        m = 2 * m;
    }
    m
}

/// Reverses the lower `bits` bits of `x`.
fn bit_reverse(x: usize, bits: u32) -> (r: usize)
    requires
        bits <= 32,
        pow2(bits as nat) <= usize::MAX,
    ensures
        r == reversed(bits as nat, x as nat),
{
    let mut rest: usize = x;
    let mut r: usize = 0;
    proof {
        lemma2_to64();
        let p = pow2(bits as nat) as int;
        assert(0 * p == 0) by (nonlinear_arith);
    }
    for i in 0..bits
        invariant
            bits <= 32,
            pow2(bits as nat) <= usize::MAX,
            r < pow2(i as nat),
            reversed(bits as nat, x as nat) == r * pow2((bits - i) as nat) + reversed(
                (bits - i) as nat,
                rest as nat,
            ),
    {
        proof {
            lemma_pow2_unfold((i + 1) as nat);
            lemma_pow2_unfold((bits - i) as nat);
            if i + 1 < bits {
                lemma_pow2_strictly_increases((i + 1) as nat, bits as nat);
            }
            let (b, p, q) = (
                (rest % 2) as int,
                pow2((bits - i) as nat) as int,
                pow2((bits - i - 1) as nat) as int,
            );
            assert(r * p + b * q == (2 * r + b) * q) by (nonlinear_arith)
                requires
                    p == 2 * q,
            ;
        }
        r = 2 * r + rest % 2;
        rest = rest / 2;
    }
    proof {
        assert(pow2(0) == 1) by {
            lemma2_to64();
        }
        assert(r * 1 == r);
    }
    r
}

/// One butterfly: the entries at two places become their sum and their difference, the second one
/// times a factor first.
fn pair(a: &mut [Goldilocks], low: usize, high: usize, omega: Goldilocks)
    requires
        low < high < old(a)@.len(),
        all_wf(old(a)@),
        omega.wf(),
    ensures
        all_wf(final(a)@),
        final(a)@ == old(a)@.update(
            low as int,
            element(old(a)@[low as int].value + omega.value * old(a)@[high as int].value),
        ).update(
            high as int,
            element(old(a)@[low as int].value - omega.value * old(a)@[high as int].value),
        ),
{
    let ghost before = a@;
    assert(a@[low as int].wf() && a@[high as int].wf());
    let t = omega * a[high];
    let u = a[low];
    proof {
        let (p, v) = (prime(), omega.value * before[high as int].value);
        lemma_mod_bound(v, p);
        lemma_inside(u.value as int, v, p);
        lemma_mod_bound(u.value + v % p, p);
        lemma_mod_bound(u.value - v % p, p);
    }
    a[low] = u + t;
    a[high] = u - t;
}

/// A factor may be reduced first.
proof fn lemma_factor(u: int, x: int, y: int, v: int)
    requires
        same(x, y, prime()),
    ensures
        element(u + x * v) == element(u + y * v),
        element(u - x * v) == element(u - y * v),
{
    lemma_same(x, y, v, v, prime());
    lemma_same(u, u, x * v, y * v, prime());
}

/// The butterflies of a stage that are done: those of the blocks before `k`, and the first `j` of
/// the block at `k`.
spec fn is_done(i: int, half: int, k: int, j: int) -> bool {
    i < k || (k <= i < k + 2 * half && (i - k) % half < j)
}

/// Place of an entry in its block.
proof fn lemma_place(i: int, half: int, k: int)
    requires
        half > 0,
        k >= 0,
        k % (2 * half) == 0,
        k <= i < k + 2 * half,
    ensures
        i % (2 * half) == i - k,
        i - k < half ==> (i - k) % half == i - k,
        i - k >= half ==> (i - k) % half == i - k - half,
{
    lemma_fundamental_div_mod(k, 2 * half);
    let q = k / (2 * half);
    assert(i == q * (2 * half) + (i - k)) by (nonlinear_arith)
        requires
            k == (2 * half) * q,
    ;
    lemma_fundamental_div_mod_converse(i, 2 * half, q, i - k);
    if i - k < half {
        lemma_canonical(i - k, half);
    } else {
        lemma_fundamental_div_mod_converse(i - k, half, 1, i - k - half);
    }
}

/// One butterfly of a stage more.
proof fn lemma_one_more(
    start: Seq<Goldilocks>,
    before: Seq<Goldilocks>,
    after: Seq<Goldilocks>,
    half: int,
    k: int,
    j: int,
    r: int,
    omega: int,
)
    requires
        half > 0,
        k >= 0,
        k % (2 * half) == 0,
        0 <= j < half,
        k + 2 * half <= start.len(),
        before.len() == start.len(),
        same(omega, pow(r, j as nat), prime()),
        forall|i: int|
            0 <= i < start.len() ==> #[trigger] before[i] == if is_done(i, half, k, j) {
                butterfly(start, half, r)[i]
            } else {
                start[i]
            },
        after == before.update(
            k + j,
            element(before[k + j].value + omega * before[k + j + half].value),
        ).update(
            k + j + half,
            element(before[k + j].value - omega * before[k + j + half].value),
        ),
    ensures
        forall|i: int|
            0 <= i < start.len() ==> #[trigger] after[i] == if is_done(i, half, k, j + 1) {
                butterfly(start, half, r)[i]
            } else {
                start[i]
            },
{
    lemma_place(k + j, half, k);
    lemma_place(k + j + half, half, k);
    let (u, v) = (start[k + j].value as int, start[k + j + half].value as int);
    lemma_factor(u, omega, pow(r, j as nat), v);
    assert(before[k + j] == start[k + j]);
    assert(before[k + j + half] == start[k + j + half]);
    assert forall|i: int| 0 <= i < start.len() implies #[trigger] after[i] == if is_done(
        i,
        half,
        k,
        j + 1,
    ) {
        butterfly(start, half, r)[i]
    } else {
        start[i]
    } by {
        assert(before[i] == if is_done(i, half, k, j) {
            butterfly(start, half, r)[i]
        } else {
            start[i]
        });
        if k <= i < k + 2 * half {
            lemma_place(i, half, k);
        }
    }
}

/// Before the first butterfly of a block, those of the blocks before it are done.
proof fn lemma_next_block(half: int, k: int, i: int)
    requires
        half > 0,
    ensures
        is_done(i, half, k, half) == is_done(i, half, k + 2 * half, 0),
{
    if k <= i < k + 2 * half {
        lemma_mod_bound(i - k, half);
    }
    if k + 2 * half <= i < k + 4 * half {
        lemma_mod_bound(i - (k + 2 * half), half);
    }
}

/// Runs the butterflies of a stage with blocks of `2 * half` entries.
fn run_stage(a: &mut [Goldilocks], half: usize, omega_m: Goldilocks)
    requires
        half > 0,
        2 * half <= usize::MAX,
        old(a)@.len() % (2 * half as nat) == 0,
        all_wf(old(a)@),
        omega_m.wf(),
    ensures
        all_wf(final(a)@),
        final(a)@ == butterfly(old(a)@, half as int, omega_m.value as int),
{
    let n: usize = a.len();
    let m: usize = 2 * half;
    let ghost start = a@;
    let ghost (h, r) = (half as int, omega_m.value as int);
    let mut k: usize = 0;
    proof {
        lemma_canonical(0, 2 * h);
        assert forall|i: int| 0 <= i implies !is_done(i, h, 0, 0) by {
            if 0 <= i < 2 * h {
                lemma_mod_bound(i, h);
            }
        }
    }
    while k < n
        invariant
            half > 0,
            m == 2 * half,
            n == start.len(),
            n % m == 0,
            h == half,
            r == omega_m.value,
            omega_m.wf(),
            k <= n,
            k as int % (2 * h) == 0,
            a@.len() == n,
            all_wf(a@),
            forall|i: int|
                0 <= i < n ==> #[trigger] a@[i] == if is_done(i, h, k as int, 0) {
                    butterfly(start, h, r)[i]
                } else {
                    start[i]
                },
        decreases n - k,
    {
        proof {
            lemma_block_fits(n as int, k as int, h);
        }
        let mut omega = Goldilocks::one();
        proof {
            lemma_pow0(r);
        }
        for j in 0..half
            invariant
                half > 0,
                n == start.len(),
                h == half,
                r == omega_m.value,
                omega_m.wf(),
                k + 2 * half <= n,
                k as int % (2 * h) == 0,
                a@.len() == n,
                all_wf(a@),
                omega.wf(),
                same(omega.value as int, pow(r, j as nat), prime()),
                forall|i: int|
                    0 <= i < n ==> #[trigger] a@[i] == if is_done(i, h, k as int, j as int) {
                        butterfly(start, h, r)[i]
                    } else {
                        start[i]
                    },
        {
            let ghost before = a@;
            pair(a, k + j, k + j + half, omega);
            proof {
                lemma_one_more(
                    start,
                    before,
                    a@,
                    h,
                    k as int,
                    j as int,
                    r,
                    omega.value as int,
                );
                lemma_next_power(r, omega.value as int, j as nat);
            }
            omega = omega * omega_m;
        }
        proof {
            assert forall|i: int| 0 <= i < n implies #[trigger] a@[i] == if is_done(
                i,
                h,
                k + 2 * h,
                0,
            ) {
                butterfly(start, h, r)[i]
            } else {
                start[i]
            } by {
                lemma_next_block(h, k as int, i);
            }
            lemma_next_multiple(k as int, h);
        }
        k = k + m;
    }
    assert(a@ =~= butterfly(start, h, r));
}

/// A block that starts below the end ends there or before.
proof fn lemma_block_fits(n: int, k: int, h: int)
    requires
        h > 0,
        0 <= k < n,
        n % (2 * h) == 0,
        k % (2 * h) == 0,
    ensures
        k + 2 * h <= n,
{
    lemma_fundamental_div_mod(n, 2 * h);
    lemma_fundamental_div_mod(k, 2 * h);
    let (x, y) = (n / (2 * h), k / (2 * h));
    assert(k + 2 * h <= n) by (nonlinear_arith)
        requires
            n == (2 * h) * x,
            k == (2 * h) * y,
            k < n,
            h > 0,
    ;
}

proof fn lemma_next_multiple(k: int, h: int)
    requires
        h > 0,
        k % (2 * h) == 0,
    ensures
        (k + 2 * h) % (2 * h) == 0,
{
    lemma_multiple(k, 1, 2 * h);
    assert((2 * h) * 1 == 2 * h);
}

/// A power times the root is the next power.
proof fn lemma_next_power(r: int, omega: int, j: nat)
    requires
        same(omega, pow(r, j), prime()),
    ensures
        same((omega * r) % prime(), pow(r, j + 1), prime()),
        0 <= (omega * r) % prime() < prime(),
{
    let p = prime();
    lemma_pow_adds(r, j, 1);
    lemma_pow1(r);
    lemma_same(omega, pow(r, j), r, r, p);
    lemma_inside(omega * r, 0, p);
    lemma_mod_bound(omega * r, p);
}

/// The number of elements is a multiple of the size of a block.
proof fn lemma_blocks(n: nat, log_n: nat, s: nat)
    requires
        n == pow2(log_n),
        s < log_n,
    ensures
        2 * pow2(s) <= n,
        n % (2 * pow2(s)) == 0,
        pow2(s) > 0,
{
    lemma_pow2_unfold(s + 1);
    lemma_pow2_pos(s);
    lemma_pow2_adds(s + 1, (log_n - s - 1) as nat);
    lemma_pow2_pos((log_n - s - 1) as nat);
    let (x, y) = (pow2(s + 1) as int, pow2((log_n - s - 1) as nat) as int);
    lemma_multiple(0, y, x);
    assert(x <= x * y) by (nonlinear_arith)
        requires
            x > 0,
            y >= 1,
    ;
}

/// The transform of one element is the element.
proof fn lemma_one_element(a: Seq<Goldilocks>)
    requires
        a.len() == 1,
        all_wf(a),
    ensures
        transformed(a, root(0)) == a,
        untransformed(a, inverse_root(0)) == a,
{
    let p = prime();
    let c = values(a);
    lemma_root(0);
    lemma_inverse_root(0);
    lemma_pow0(1);
    assert(c.skip(1) =~= Seq::<int>::empty());
    assert(eval(c.skip(1), 1) == 0);
    assert(eval(c, 1) == c[0]);
    assert(a[0].wf());
    lemma_canonical(c[0], p);
    lemma_size_invertible(0);
    lemma2_to64();
    lemma_canonical(1, p);
    assert(is_inverse(1, 1, p));
    lemma_inverse_unique(1, 1, inverse(1, p), p);
    assert(transformed(a, root(0)) =~= a);
    assert(untransformed(a, inverse_root(0)) =~= a);
}

/// Scales every entry.
fn scale(a: &mut [Goldilocks], factor: Goldilocks)
    requires
        all_wf(old(a)@),
        factor.wf(),
    ensures
        all_wf(final(a)@),
        final(a)@ == Seq::new(
            old(a)@.len(),
            |i: int| element(old(a)@[i].value * factor.value),
        ),
{
    let ghost before = a@;
    let n: usize = a.len();
    for i in 0..n
        invariant
            n == before.len(),
            a@.len() == n,
            all_wf(a@),
            factor.wf(),
            forall|k: int|
                0 <= k < n ==> #[trigger] a@[k] == if k < i {
                    element(before[k].value * factor.value)
                } else {
                    before[k]
                },
    {
        proof {
            lemma_mod_bound(before[i as int].value * factor.value, prime());
        }
        a[i] = a[i] * factor;
    }
    assert(a@ =~= Seq::new(n as nat, |i: int| element(before[i].value * factor.value)));
}

impl Goldilocks {
    /// Bit-reversal permutation for NTT.
    fn bit_reverse_permutation(a: &mut [Goldilocks], log_n: u32)
        requires
            log_n <= 32,
            old(a)@.len() == pow2(log_n as nat),
            old(a)@.len() <= usize::MAX,
        ensures
            final(a)@.len() == old(a)@.len(),
            forall|i: int|
                0 <= i < final(a)@.len() ==> #[trigger] final(a)@[i] == old(a)@[reversed(
                    log_n as nat,
                    i as nat,
                ) as int],
    {
        let n: usize = a.len();
        let ghost before = a@;
        for i in 0..n
            invariant
                log_n <= 32,
                n == pow2(log_n as nat),
                before.len() == n,
                a@.len() == n,
                forall|k: int|
                    0 <= k < n ==> #[trigger] a@[k] == ({
                        let l = reversed(log_n as nat, k as nat) as int;
                        if k < i || l < i {
                            before[l]
                        } else {
                            before[k]
                        }
                    }),
        {
            let j: usize = bit_reverse(i, log_n);
            proof {
                lemma_reversed_bound(log_n as nat, i as nat);
                lemma_reversed_twice(log_n as nat, i as nat);
            }
            let ghost mid = a@;
            if i < j {
                let (x, y) = (a[i], a[j]);
                a[i] = y;
                a[j] = x;
            }
            proof {
                assert forall|k: int| 0 <= k < n implies #[trigger] a@[k] == ({
                    let l = reversed(log_n as nat, k as nat) as int;
                    if k < i + 1 || l < i + 1 {
                        before[l]
                    } else {
                        before[k]
                    }
                }) by {
                    let l = reversed(log_n as nat, k as nat) as int;
                    lemma_reversed_bound(log_n as nat, k as nat);
                    lemma_reversed_twice(log_n as nat, k as nat);
                    assert(mid[k] == if k < i || l < i {
                        before[l]
                    } else {
                        before[k]
                    });
                    assert(mid[i as int] == if j < i {
                        before[j as int]
                    } else {
                        before[i as int]
                    });
                }
            }
        }
        proof {
            assert forall|i: int| 0 <= i < n implies #[trigger] a@[i] == before[reversed(
                log_n as nat,
                i as nat,
            ) as int] by {}
        }
    }

    /// Computes the NTT (Number Theoretic Transform) in place.
    ///
    /// The input slice length must be a power of 2 and <= 2^32.
    /// Uses the Cooley-Tukey radix-2 DIT algorithm.
    ///
    /// After NTT, `a[i]` contains the evaluation of the polynomial at ω^i,
    /// where ω is the primitive n-th root of unity.
    pub fn ntt(a: &mut [Goldilocks])
        requires
            old(a)@.len() == 0 || is_ntt_size(old(a)@.len()),
            all_wf(old(a)@),
        ensures
            all_wf(final(a)@),
            final(a)@ == transformed(old(a)@, root(log_of(old(a)@.len()))),
    {
        let n: usize = a.len();
        let ghost start = a@;
        if n <= 1 {
            proof {
                if n == 1 {
                    lemma2_to64();
                    lemma_log_of(0);
                    lemma_one_element(start);
                } else {
                    assert(transformed(start, root(log_of(0))) =~= start);
                }
            }
            return;
        }
        let log_n: u32 = log2(n);
        let ghost r = |s: nat| root(s);
        let ghost l = log_n as nat;

        // Bit-reversal permutation
        Goldilocks::bit_reverse_permutation(a, log_n);
        proof {
            lemma_stage_roots(l);
            lemma_first_stage(a@, start, r, l);
        }

        // Cooley-Tukey iterative NTT
        for s in 0..log_n
            invariant
                l == log_n <= 32,
                r == (|s: nat| root(s)),
                crate::fields::transform::are_stage_roots(r, l),
                at_stage(a@, values(start), r, l, s as nat),
                n == pow2(l) == start.len(),
        {
            proof {
                lemma_blocks(n as nat, l, s as nat);
                lemma_stage(a@, values(start), r, l, s as nat);
            }
            let half_m: usize = power_of_two(s) as usize;

            // ω_m = primitive m-th root of unity
            let omega_m = Goldilocks::primitive_root_of_unity(s + 1).unwrap();
            run_stage(a, half_m, omega_m);
        }
        proof {
            lemma_last_stage(a@, values(start), r, l);
            lemma2_to64();
            if l == 0 {
                assert(n == 1);
            }
            assert(a@ =~= transformed(start, root(l)));
        }
    }

    /// Computes the inverse NTT in place.
    ///
    /// This transforms evaluations back to coefficients.
    /// The result is scaled by 1/n.
    pub fn intt(a: &mut [Goldilocks])
        requires
            old(a)@.len() == 0 || is_ntt_size(old(a)@.len()),
            all_wf(old(a)@),
        ensures
            all_wf(final(a)@),
            final(a)@ == untransformed(old(a)@, inverse_root(log_of(old(a)@.len()))),
    {
        let n: usize = a.len();
        let ghost start = a@;
        if n <= 1 {
            proof {
                if n == 1 {
                    lemma2_to64();
                    lemma_log_of(0);
                    lemma_one_element(start);
                } else {
                    assert(untransformed(start, inverse_root(log_of(0))) =~= start);
                }
            }
            return;
        }
        let log_n: u32 = log2(n);
        let ghost r = |s: nat| inverse_root(s);
        let ghost l = log_n as nat;

        // Bit-reversal permutation
        Goldilocks::bit_reverse_permutation(a, log_n);
        proof {
            lemma_stage_roots(l);
            lemma_first_stage(a@, start, r, l);
        }

        // The same stages as the NTT but with inverse roots
        for s in 0..log_n
            invariant
                l == log_n <= 32,
                r == (|s: nat| inverse_root(s)),
                crate::fields::transform::are_stage_roots(r, l),
                at_stage(a@, values(start), r, l, s as nat),
                n == pow2(l) == start.len(),
        {
            proof {
                lemma_blocks(n as nat, l, s as nat);
                lemma_stage(a@, values(start), r, l, s as nat);
            }
            let half_m: usize = power_of_two(s) as usize;
            let omega_m_inv = inverse_of_root(s + 1);
            run_stage(a, half_m, omega_m_inv);
        }
        proof {
            lemma_last_stage(a@, values(start), r, l);
            lemma_size_invertible(l);
            lemma_canonical(n as int, prime());
        }

        // Scale by 1/n
        let n_inv = Goldilocks::new(n as u64).inverse().unwrap();
        scale(a, n_inv);
        proof {
            lemma2_to64();
            if l == 0 {
                assert(n == 1);
            }
            lemma_scaled_values(a@, start, l);
        }
    }
}

/// The inverse of the root of unity of order 2^k.
fn inverse_of_root(k: u32) -> (r: Goldilocks)
    requires
        k <= 32,
    ensures
        r.wf(),
        r.value == inverse_root(k as nat),
{
    let omega_m = Goldilocks::primitive_root_of_unity(k).unwrap();
    proof {
        lemma_root(k as nat);
    }
    omega_m.inverse().unwrap()
}

/// Values at the powers of the inverse root, scaled, are the inverse transform.
proof fn lemma_scaled_values(a: Seq<Goldilocks>, start: Seq<Goldilocks>, l: nat)
    requires
        l > 0,
        a.len() == start.len(),
        forall|i: int|
            0 <= i < a.len() ==> (#[trigger] a[i]) == element(
                element(
                    eval(values(start), point(|s: nat| inverse_root(s), l, i as nat)),
                ).value * inverse(start.len() as int, prime()),
            ),
    ensures
        a == untransformed(start, inverse_root(l)),
{
    let r = |s: nat| inverse_root(s);
    assert forall|i: int| 0 <= i < a.len() implies a[i] == untransformed(
        start,
        inverse_root(l),
    )[i] by {
        let e = eval(values(start), pow(inverse_root(l), i as nat));
        assert(point(r, l, i as nat) == pow(inverse_root(l), i as nat));
        lemma_mod_bound(e, prime());
    }
    assert(a =~= untransformed(start, inverse_root(l)));
}

/// The factors of a stage: the powers of the inverse root.
pub open spec fn are_twiddles(twiddles: Seq<Goldilocks>, s: nat) -> bool {
    &&& twiddles.len() == pow2(s)
    &&& forall|j: int|
        0 <= j < twiddles.len() ==> (#[trigger] twiddles[j]) == element(
            pow(inverse_root(s + 1), j as nat),
        )
}

/// Runs the butterflies of a stage with factors that were computed before.
fn run_stage_with(a: &mut [Goldilocks], s: u32, half: usize, twiddles: &Vec<Goldilocks>)
    requires
        s < 32,
        half == pow2(s as nat),
        2 * half <= usize::MAX,
        old(a)@.len() % (2 * half as nat) == 0,
        all_wf(old(a)@),
        are_twiddles(twiddles@, s as nat),
    ensures
        all_wf(final(a)@),
        final(a)@ == butterfly(old(a)@, half as int, inverse_root((s + 1) as nat)),
{
    let n: usize = a.len();
    let m: usize = 2 * half;
    let ghost start = a@;
    let ghost (h, r) = (half as int, inverse_root((s + 1) as nat));
    let mut k: usize = 0;
    proof {
        lemma_pow2_pos(s as nat);
        lemma_canonical(0, 2 * h);
        assert forall|i: int| 0 <= i implies !is_done(i, h, 0, 0) by {
            if 0 <= i < 2 * h {
                lemma_mod_bound(i, h);
            }
        }
    }
    while k < n
        invariant
            half > 0,
            m == 2 * half,
            n == start.len(),
            n % m == 0,
            h == half,
            r == inverse_root((s + 1) as nat),
            half == pow2(s as nat),
            are_twiddles(twiddles@, s as nat),
            k <= n,
            k as int % (2 * h) == 0,
            a@.len() == n,
            all_wf(a@),
            forall|i: int|
                0 <= i < n ==> #[trigger] a@[i] == if is_done(i, h, k as int, 0) {
                    butterfly(start, h, r)[i]
                } else {
                    start[i]
                },
        decreases n - k,
    {
        proof {
            lemma_block_fits(n as int, k as int, h);
        }
        for j in 0..half
            invariant
                half > 0,
                n == start.len(),
                h == half,
                r == inverse_root((s + 1) as nat),
                half == pow2(s as nat),
                are_twiddles(twiddles@, s as nat),
                k + 2 * half <= n,
                k as int % (2 * h) == 0,
                a@.len() == n,
                all_wf(a@),
                forall|i: int|
                    0 <= i < n ==> #[trigger] a@[i] == if is_done(i, h, k as int, j as int) {
                        butterfly(start, h, r)[i]
                    } else {
                        start[i]
                    },
        {
            let ghost before = a@;
            let omega = twiddles[j];
            proof {
                assert(twiddles@[j as int] == element(pow(r, j as nat)));
                lemma_mod_bound(pow(r, j as nat), prime());
                lemma_inside(pow(r, j as nat), 0, prime());
            }
            pair(a, k + j, k + j + half, omega);
            proof {
                lemma_one_more(
                    start,
                    before,
                    a@,
                    h,
                    k as int,
                    j as int,
                    r,
                    omega.value as int,
                );
            }
        }
        proof {
            assert forall|i: int| 0 <= i < n implies #[trigger] a@[i] == if is_done(
                i,
                h,
                k + 2 * h,
                0,
            ) {
                butterfly(start, h, r)[i]
            } else {
                start[i]
            } by {
                lemma_next_block(h, k as int, i);
            }
            lemma_next_multiple(k as int, h);
        }
        k = k + m;
    }
    assert(a@ =~= butterfly(start, h, r));
}

/// The entries scaled by a factor.
pub open spec fn scaled_entries(a: Seq<Goldilocks>, factor: int) -> Seq<Goldilocks> {
    Seq::new(a.len(), |i: int| element(a[i].value * factor))
}

/// Runs the butterflies of the last stage, with one block, and scales the entries.
fn run_last_stage(
    a: &mut [Goldilocks],
    s: u32,
    half: usize,
    twiddles: &Vec<Goldilocks>,
    n_inv: Goldilocks,
)
    requires
        s < 32,
        half == pow2(s as nat),
        old(a)@.len() == 2 * half,
        all_wf(old(a)@),
        n_inv.wf(),
        are_twiddles(twiddles@, s as nat),
    ensures
        all_wf(final(a)@),
        final(a)@ == scaled_entries(
            butterfly(old(a)@, half as int, inverse_root((s + 1) as nat)),
            n_inv.value as int,
        ),
{
    let ghost start = a@;
    let ghost (h, r) = (half as int, inverse_root((s + 1) as nat));
    let ghost want = scaled_entries(butterfly(start, h, r), n_inv.value as int);
    let n: usize = a.len();
    proof {
        lemma_pow2_pos(s as nat);
    }
    for j in 0..half
        invariant
            half > 0,
            n == 2 * half,
            start.len() == 2 * half,
            h == half,
            r == inverse_root((s + 1) as nat),
            want == scaled_entries(butterfly(start, h, r), n_inv.value as int),
            half == pow2(s as nat),
            are_twiddles(twiddles@, s as nat),
            n_inv.wf(),
            a@.len() == start.len(),
            all_wf(a@),
            forall|i: int|
                0 <= i < 2 * h ==> #[trigger] a@[i] == if i < j || h <= i < h + j {
                    want[i]
                } else {
                    start[i]
                },
    {
        let ghost before = a@;
        let omega = twiddles[j];
        proof {
            let p = prime();
            assert(twiddles@[j as int] == element(pow(r, j as nat)));
            lemma_mod_bound(pow(r, j as nat), p);
            lemma_inside(pow(r, j as nat), 0, p);
            assert(before[j as int] == start[j as int]);
            assert(before[j + half] == start[j + half]);
            let (u, v) = (start[j as int].value as int, start[j + half].value as int);
            lemma_factor(u, omega.value as int, pow(r, j as nat), v);
            let (x, y) = (u + omega.value * v, u - omega.value * v);
            lemma_mod_bound(x, p);
            lemma_mod_bound(y, p);
            lemma_mod_bound((x % p) * n_inv.value, p);
            lemma_mod_bound((y % p) * n_inv.value, p);
            lemma_canonical(j as int, 2 * h);
            lemma_canonical(j + h, 2 * h);
        }
        pair(a, j, j + half, omega);
        // Fuse scaling into butterfly output
        a[j] = a[j] * n_inv;
        a[j + half] = a[j + half] * n_inv;
    }
    assert(a@ =~= want);
}

/// Precomputed context for fast inverse NTT operations.
///
/// Stores precomputed twiddle factors and inverse scaling to avoid
/// repeated computation of roots of unity and modular inverses.
#[derive(Debug)]
pub struct InttContext {
    /// log2 of the NTT size
    pub log_n: u32,
    /// NTT size (power of 2)
    pub n: usize,
    /// Precomputed inverse twiddle factors for each stage.
    /// twiddles_inv[s] contains ω_m^(-j) for j = 0..m/2 where m = 2^(s+1)
    pub twiddles_inv: Vec<Vec<Goldilocks>>,
    /// Precomputed 1/n for final scaling
    pub n_inv: Goldilocks,
}

impl InttContext {
    /// The factors are those of the stages.
    pub open spec fn wf(&self) -> bool {
        &&& self.log_n <= 32
        &&& self.n == pow2(self.log_n as nat)
        &&& self.twiddles_inv@.len() == self.log_n
        &&& forall|s: int|
            0 <= s < self.log_n ==> are_twiddles((#[trigger] self.twiddles_inv@[s])@, s as nat)
        &&& self.n_inv.wf()
        &&& self.n_inv.value == inverse(self.n as int, prime())
    }

    /// Creates a new INTT context for the given size.
    ///
    /// # Arguments
    /// * `n` - NTT size (must be power of 2, <= 2^32)
    pub fn new(n: usize) -> (r: InttContext)
        requires
            is_ntt_size(n as nat),
        ensures
            r.wf(),
            r.n == n,
    {
        let log_n: u32 = log2(n);

        // Precompute twiddle factors for each stage
        let mut twiddles_inv: Vec<Vec<Goldilocks>> = Vec::new();
        for s in 0..log_n
            invariant
                log_n <= 32,
                n == pow2(log_n as nat),
                twiddles_inv@.len() == s,
                forall|t: int|
                    0 <= t < s ==> are_twiddles((#[trigger] twiddles_inv@[t])@, t as nat),
        {
            proof {
                lemma_blocks(n as nat, log_n as nat, s as nat);
            }
            let half_m: usize = power_of_two(s) as usize;

            // Get inverse of primitive m-th root of unity
            let omega_m_inv = inverse_of_root(s + 1);

            // Precompute ω^(-j) for j = 0..half_m
            let mut stage_twiddles: Vec<Goldilocks> = Vec::with_capacity(half_m);
            let mut omega = Goldilocks::one();
            let ghost r = omega_m_inv.value as int;
            proof {
                lemma_pow0(r);
            }
            for j in 0..half_m
                invariant
                    r == omega_m_inv.value,
                    omega_m_inv.wf(),
                    omega.wf(),
                    same(omega.value as int, pow(r, j as nat), prime()),
                    stage_twiddles@.len() == j,
                    forall|t: int|
                        0 <= t < j ==> (#[trigger] stage_twiddles@[t]) == element(
                            pow(r, t as nat),
                        ),
            {
                proof {
                    lemma_canonical(omega.value as int, prime());
                    lemma_next_power(r, omega.value as int, j as nat);
                }
                stage_twiddles.push(omega);
                omega = omega * omega_m_inv;
            }
            twiddles_inv.push(stage_twiddles);
        }
        proof {
            lemma_size_invertible(log_n as nat);
            lemma_canonical(n as int, prime());
        }
        let n_inv = Goldilocks::new(n as u64).inverse().unwrap();
        InttContext { log_n, n, twiddles_inv, n_inv }
    }

    /// Returns the NTT size this context was created for.
    pub fn size(&self) -> (r: usize)
        ensures
            r == self.n,
    {
        self.n
    }

    /// Computes the inverse NTT in place using precomputed twiddle factors.
    ///
    /// This is faster than `Goldilocks::intt()` when performing multiple INTTs
    /// of the same size, as twiddle factors are precomputed.
    pub fn intt(&self, a: &mut [Goldilocks])
        requires
            self.wf(),
            old(a)@.len() == self.n,
            all_wf(old(a)@),
        ensures
            all_wf(final(a)@),
            final(a)@ == untransformed(old(a)@, inverse_root(self.log_n as nat)),
    {
        let n: usize = a.len();
        let ghost start = a@;
        let ghost r = |s: nat| inverse_root(s);
        let ghost l = self.log_n as nat;
        proof {
            lemma2_to64();
        }
        if n <= 1 {
            proof {
                lemma_pow2_pos(l);
                lemma_log_of(l);
                lemma_log_of(0);
                lemma_one_element(start);
            }
            return;
        }
        // Bit-reversal permutation
        Goldilocks::bit_reverse_permutation(a, self.log_n);
        proof {
            lemma_stage_roots(l);
            lemma_first_stage(a@, start, r, l);
        }
        for s in 0..self.log_n
            invariant
                self.wf(),
                l == self.log_n,
                r == (|s: nat| inverse_root(s)),
                crate::fields::transform::are_stage_roots(r, l),
                at_stage(a@, values(start), r, l, s as nat),
                n == pow2(l) == start.len(),
        {
            proof {
                lemma_blocks(n as nat, l, s as nat);
                lemma_stage(a@, values(start), r, l, s as nat);
                assert(are_twiddles(self.twiddles_inv@[s as int]@, s as nat));
            }
            let half_m: usize = power_of_two(s) as usize;
            run_stage_with(a, s, half_m, &self.twiddles_inv[s as usize]);
        }
        proof {
            lemma_last_stage(a@, values(start), r, l);
        }

        // Scale by 1/n
        scale(a, self.n_inv);
        proof {
            lemma_scaled_values(a@, start, l);
        }
    }

    /// Computes the inverse NTT with fused scaling in the last stage.
    ///
    /// Slightly faster than `intt()` by avoiding a separate scaling pass.
    pub fn intt_fused(&self, a: &mut [Goldilocks])
        requires
            self.wf(),
            old(a)@.len() == self.n,
            all_wf(old(a)@),
        ensures
            all_wf(final(a)@),
            final(a)@ == untransformed(old(a)@, inverse_root(self.log_n as nat)),
    {
        let n: usize = a.len();
        let ghost start = a@;
        let ghost r = |s: nat| inverse_root(s);
        let ghost l = self.log_n as nat;
        proof {
            lemma2_to64();
        }
        if n <= 1 {
            proof {
                lemma_pow2_pos(l);
                lemma_log_of(l);
                lemma_log_of(0);
                lemma_one_element(start);
            }
            return;
        }
        // Bit-reversal permutation
        Goldilocks::bit_reverse_permutation(a, self.log_n);
        proof {
            lemma_stage_roots(l);
            lemma_first_stage(a@, start, r, l);
        }
        let last_stage: u32 = self.log_n - 1;

        // All stages except the last
        for s in 0..last_stage
            invariant
                self.wf(),
                l == self.log_n,
                last_stage == self.log_n - 1,
                r == (|s: nat| inverse_root(s)),
                crate::fields::transform::are_stage_roots(r, l),
                at_stage(a@, values(start), r, l, s as nat),
                n == pow2(l) == start.len(),
        {
            proof {
                lemma_blocks(n as nat, l, s as nat);
                lemma_stage(a@, values(start), r, l, s as nat);
                assert(are_twiddles(self.twiddles_inv@[s as int]@, s as nat));
            }
            let half_m: usize = power_of_two(s) as usize;
            run_stage_with(a, s, half_m, &self.twiddles_inv[s as usize]);
        }

        // Last stage with fused scaling by 1/n
        proof {
            lemma_blocks(n as nat, l, last_stage as nat);
            lemma_pow2_unfold(l);
            lemma_stage(a@, values(start), r, l, last_stage as nat);
            assert(are_twiddles(self.twiddles_inv@[last_stage as int]@, last_stage as nat));
            lemma_last_stage(
                butterfly(a@, pow2(last_stage as nat) as int, r((last_stage + 1) as nat)),
                values(start),
                r,
                l,
            );
        }
        let half_m: usize = power_of_two(last_stage) as usize;
        run_last_stage(
            a,
            last_stage,
            half_m,
            &self.twiddles_inv[last_stage as usize],
            self.n_inv,
        );
        proof {
            lemma_scaled_values(a@, start, l);
        }
    }
}

} // verus!
