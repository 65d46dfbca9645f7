//! The field with 2^128 elements: polynomials over the bits, modulo `x^128 + x^7 + x^2 + x + 1`.
//!
//! A block stands for a polynomial; its least significant bit is the constant term.

use vstd::arithmetic::power2::{
    lemma2_to64, lemma2_to64_rest, lemma_pow2_adds, lemma_pow2_pos, lemma_pow2_strictly_increases,
    lemma_pow2_unfold, pow2,
};
use vstd::prelude::*;

use crate::block::{lemma_xor, lemma_xor_times, Block};
use crate::gf2_field::lemma_inverse_exists;

verus! {

/// The polynomial times `x`.
pub open spec fn times_x(a: Block) -> Block {
    Block {
        bits: (a.bits << 1) ^ (if a.bits >> 127 == 1 {
            0x87
        } else {
            0
        }),
    }
}

/// The polynomial times `x^n`.
pub open spec fn times_x_pow(a: Block, n: nat) -> Block
    decreases n,
{
    if n == 0 {
        a
    } else {
        times_x(times_x_pow(a, (n - 1) as nat))
    }
}

/// The bits without the `n` lowest.
pub open spec fn dropped(bits: u128, n: nat) -> u128
    decreases n,
{
    if n == 0 {
        bits
    } else {
        dropped(bits, (n - 1) as nat) >> 1
    }
}

/// The coefficient of `x^i`.
pub open spec fn coefficient(a: Block, i: nat) -> bool {
    dropped(a.bits, i) & 1 == 1
}

/// The product of `a` and the terms of `b` below `x^n`.
pub open spec fn partial_product(a: Block, b: Block, n: nat) -> Block
    decreases n,
{
    if n == 0 {
        Block { bits: 0 }
    } else {
        partial_product(a, b, (n - 1) as nat).xor(
            times_x_pow(a, (n - 1) as nat).times(coefficient(b, (n - 1) as nat)),
        )
    }
}

/// The product of two field elements.
pub open spec fn gf_product(a: Block, b: Block) -> Block {
    partial_product(a, b, 128)
}

/// The one of the field.
pub open spec fn gf_one() -> Block {
    Block { bits: 1 }
}

impl Block {
    /// Multiplies two elements of the field.
    pub fn gfmul(self, other: Block) -> (r: Block)
        ensures
            r == gf_product(self, other),
    {
        let mut acc = Block::zero();
        let mut power = self;
        let mut rest: u128 = other.bits;
        let mut i: u32 = 0;
        while i < 128
            invariant
                i <= 128,
                acc == partial_product(self, other, i as nat),
                power == times_x_pow(self, i as nat),
                rest == dropped(other.bits, i as nat),
            decreases 128 - i,
        {
            acc = acc ^ power.mul_bool(rest & 1 == 1);
            rest = rest >> 1;
            let high: u128 = if power.bits >> 127 == 1 {
                0x87
            } else {
                0
            };
            power = Block { bits: (power.bits << 1) ^ high };
            i = i + 1;
        }
        acc
    }

    /// The inverse of an element of the field; zero has none.
    pub fn gf_inverse(self) -> (r: Option<Block>)
        ensures
            r == inverse_of(self),
            r is Some <==> self != (Block { bits: 0 }),
            r matches Some(c) ==> gf_product(self, c) == gf_one(),
    {
        proof {
            lemma_inverse_exists(self);
        }
        let mut square = self;
        let mut product = Block { bits: 1 };
        let mut i: u32 = 0;
        while i < 127
            invariant
                i <= 127,
                (square, product) == square_products(self, i as nat),
            decreases 127 - i,
        {
            square = square.gfmul(square);
            product = product.gfmul(square);
            i = i + 1;
        }
        if self.gfmul(product) == (Block { bits: 1 }) {
            Some(product)
        } else {
            None
        }
    }
}

/// The `2^n`-th power of `a`, and the product of the `2^i`-th powers for `i` from 1 to `n`.
pub open spec fn square_products(a: Block, n: nat) -> (Block, Block)
    decreases n,
{
    if n == 0 {
        (a, gf_one())
    } else {
        let (square, product) = square_products(a, (n - 1) as nat);
        let next = gf_product(square, square);
        (next, gf_product(product, next))
    }
}

/// The power of `a` with exponent `2^128 - 2`, if it is the inverse of `a`.
pub open spec fn inverse_of(a: Block) -> Option<Block> {
    let c = square_products(a, 127).1;
    if gf_product(a, c) == gf_one() {
        Some(c)
    } else {
        None
    }
}

/// Multiplication by `x` is linear.
proof fn lemma_times_x(a: Block, b: Block)
    ensures
        times_x(a.xor(b)) == times_x(a).xor(times_x(b)),
        times_x(Block { bits: 0 }) == (Block { bits: 0 }),
{
    let (p, q) = (a.bits, b.bits);
    assert((((p ^ q) << 1) ^ (if (p ^ q) >> 127 == 1 { 0x87u128 } else { 0 })) == ((p << 1) ^ (if p
        >> 127 == 1 { 0x87u128 } else { 0 })) ^ ((q << 1) ^ (if q >> 127 == 1 { 0x87u128 } else {
        0
    }))) by (bit_vector);
    assert((0u128 << 1) ^ 0 == 0 && 0u128 >> 127 == 0) by (bit_vector);
}

/// Multiplication by powers of `x` is linear.
proof fn lemma_times_x_pow(a: Block, b: Block, n: nat)
    ensures
        times_x_pow(a.xor(b), n) == times_x_pow(a, n).xor(times_x_pow(b, n)),
        times_x_pow(Block { bits: 0 }, n) == (Block { bits: 0 }),
        times_x_pow(times_x(a), n) == times_x(times_x_pow(a, n)),
    decreases n,
{
    if n > 0 {
        let m = (n - 1) as nat;
        lemma_times_x_pow(a, b, m);
        lemma_times_x(times_x_pow(a, m), times_x_pow(b, m));
    }
}

/// Exponents of `x` add up.
pub proof fn lemma_times_x_sum(a: Block, n: nat, m: nat)
    ensures
        times_x_pow(times_x_pow(a, n), m) == times_x_pow(a, n + m),
    decreases m,
{
    if m > 0 {
        lemma_times_x_sum(a, n, (m - 1) as nat);
    }
}

/// The sum of four blocks, in two orders.
proof fn lemma_xor4(a: Block, b: Block, c: Block, d: Block)
    ensures
        a.xor(b).xor(c.xor(d)) == a.xor(c).xor(b.xor(d)),
{
    lemma_xor(a, b, c.xor(d));
    lemma_xor(b, c, d);
    lemma_xor(c, b, d);
    lemma_xor(a, c, b.xor(d));
}

/// A product with a sum is the sum of the products.
pub proof fn lemma_product_distributes(a: Block, b: Block, c: Block)
    ensures
        gf_product(a, b.xor(c)) == gf_product(a, b).xor(gf_product(a, c)),
        gf_product(b.xor(c), a) == gf_product(b, a).xor(gf_product(c, a)),
{
    lemma_partial_right(a, b, c, 128);
    lemma_partial_left(b, c, a, 128);
}

proof fn lemma_partial_right(a: Block, b: Block, c: Block, n: nat)
    requires
        n <= 128,
    ensures
        partial_product(a, b.xor(c), n) == partial_product(a, b, n).xor(partial_product(a, c, n)),
    decreases n,
{
    let zero = Block { bits: 0 };
    lemma_xor(zero, zero, zero);
    if n > 0 {
        let m = (n - 1) as nat;
        lemma_partial_right(a, b, c, m);
        lemma_dropped_xor(b.bits, c.bits, m);
        let (p, q) = (dropped(b.bits, m), dropped(c.bits, m));
        assert(((p ^ q) & 1 == 1) == ((p & 1 == 1) != (q & 1 == 1))) by (bit_vector);
        let t = times_x_pow(a, m);
        lemma_xor_times(t, coefficient(b, m), coefficient(c, m));
        lemma_xor4(
            partial_product(a, b, m),
            partial_product(a, c, m),
            t.times(coefficient(b, m)),
            t.times(coefficient(c, m)),
        );
    }
}

proof fn lemma_partial_left(a: Block, b: Block, c: Block, n: nat)
    ensures
        partial_product(a.xor(b), c, n) == partial_product(a, c, n).xor(partial_product(b, c, n)),
    decreases n,
{
    let zero = Block { bits: 0 };
    lemma_xor(zero, zero, zero);
    if n > 0 {
        let m = (n - 1) as nat;
        lemma_partial_left(a, b, c, m);
        lemma_times_x_pow(a, b, m);
        let bit = coefficient(c, m);
        lemma_xor4(
            partial_product(a, c, m),
            partial_product(b, c, m),
            times_x_pow(a, m).times(bit),
            times_x_pow(b, m).times(bit),
        );
    }
}

/// A product with zero is zero.
pub proof fn lemma_product_zero(a: Block)
    ensures
        gf_product(a, Block { bits: 0 }) == (Block { bits: 0 }),
        gf_product(Block { bits: 0 }, a) == (Block { bits: 0 }),
{
    let zero = Block { bits: 0 };
    lemma_product_distributes(a, zero, zero);
    lemma_xor(zero, zero, zero);
    lemma_xor(gf_product(a, zero), zero, zero);
    lemma_xor(gf_product(zero, a), zero, zero);
}

/// Multiplying the first factor by `x` multiplies the product by `x`.
proof fn lemma_shift_left(a: Block, b: Block, n: nat)
    ensures
        partial_product(times_x(a), b, n) == times_x(partial_product(a, b, n)),
    decreases n,
{
    let zero = Block { bits: 0 };
    lemma_times_x(zero, zero);
    if n > 0 {
        let m = (n - 1) as nat;
        lemma_shift_left(a, b, m);
        lemma_times_x_pow(a, a, m);
        let bit = coefficient(b, m);
        lemma_times_x(partial_product(a, b, m), times_x_pow(a, m).times(bit));
        lemma_times_x(zero, zero);
    }
}

/// The polynomial `x^n`.
pub open spec fn x_pow(n: nat) -> Block {
    times_x_pow(gf_one(), n)
}

/// The bits moved up by `n`.
pub open spec fn raised(bits: u128, n: nat) -> u128
    decreases n,
{
    if n == 0 {
        bits
    } else {
        raised(bits, (n - 1) as nat) << 1
    }
}

/// Moving bits down or up by one, and what stays.
proof fn lemma_shifts(p: u128, q: u128)
    ensures
        (p ^ q) >> 1 == (p >> 1) ^ (q >> 1),
        (p ^ q) << 1 == (p << 1) ^ (q << 1),
        p == ((p >> 1) << 1) ^ (p & 1),
        p & 1 == 0 || p & 1 == 1,
        (p << 1) & 1 == 0,
        p >> 1 == p / 2,
        p < 0x8000_0000_0000_0000_0000_0000_0000_0000 ==> p << 1 == 2 * p && (p << 1) >> 1 == p
            && p >> 127 == 0,
        0u128 >> 1 == 0,
        0u128 << 1 == 0,
        0u128 & 1 == 0,
        1u128 & 1 == 1,
        (p << 1) ^ 0 == p << 1,
        p ^ 0 == p,
{
    assert((p ^ q) >> 1 == (p >> 1) ^ (q >> 1) && (p ^ q) << 1 == (p << 1) ^ (q << 1) && p == ((p
        >> 1) << 1) ^ (p & 1) && (p & 1 == 0 || p & 1 == 1) && (p << 1) & 1 == 0 && p >> 1 == p / 2
        && (p < 0x8000_0000_0000_0000_0000_0000_0000_0000u128 ==> p << 1 == 2 * p && (p << 1) >> 1
        == p && p >> 127 == 0) && 0u128 >> 1 == 0 && 0u128 << 1 == 0 && 0u128 & 1 == 0 && 1u128 & 1
        == 1 && (p << 1) ^ 0 == p << 1 && p ^ 0 == p) by (bit_vector);
}

/// Dropping bits is linear.
proof fn lemma_dropped_xor(p: u128, q: u128, n: nat)
    ensures
        dropped(p ^ q, n) == dropped(p, n) ^ dropped(q, n),
    decreases n,
{
    if n > 0 {
        lemma_dropped_xor(p, q, (n - 1) as nat);
        lemma_shifts(dropped(p, (n - 1) as nat), dropped(q, (n - 1) as nat));
    }
}

/// Raising bits is linear, and raising by one more is raising the doubled bits.
proof fn lemma_raised(p: u128, q: u128, n: nat)
    ensures
        raised(p ^ q, n) == raised(p, n) ^ raised(q, n),
        raised(p << 1, n) == raised(p, n + 1),
        raised(0, n) == 0,
    decreases n,
{
    if n > 0 {
        let m = (n - 1) as nat;
        lemma_raised(p, q, m);
        lemma_shifts(raised(p, m), raised(q, m));
    }
}

/// The power of two of the top bit.
proof fn lemma_top_power()
    ensures
        pow2(127) == 0x8000_0000_0000_0000_0000_0000_0000_0000,
{
    lemma_pow2_adds(63, 64);
    assert(pow2(63) == 0x8000_0000_0000_0000) by {
        lemma_pow2_adds(31, 32);
        lemma2_to64();
    }
    assert(0x8000_0000_0000_0000 * 0x1_0000_0000_0000_0000
        == 0x8000_0000_0000_0000_0000_0000_0000_0000) by (nonlinear_arith);
    lemma2_to64_rest();
}

/// Below the modulus `x^n` has one bit, the one with index `n`.
pub proof fn lemma_x_pow(n: nat)
    requires
        n < 128,
    ensures
        x_pow(n).bits == raised(1, n),
        x_pow(n).bits == pow2(n),
        n < 127 ==> pow2(n) < 0x8000_0000_0000_0000_0000_0000_0000_0000,
    decreases n,
{
    lemma2_to64();
    lemma_pow2_pos(n);
    lemma_top_power();
    if n < 127 {
        lemma_pow2_strictly_increases(n, 127);
    }
    if n > 0 {
        let m = (n - 1) as nat;
        lemma_x_pow(m);
        lemma_shifts(raised(1, m), 0);
        lemma_pow2_unfold(n);
    }
}

/// Dropping the bits of a power of `x` gives a lower power, or nothing.
proof fn lemma_dropped_x_pow(k: nat, i: nat)
    requires
        k < 128,
    ensures
        dropped(x_pow(k).bits, i) == if i <= k {
            x_pow((k - i) as nat).bits
        } else {
            0
        },
    decreases i,
{
    lemma_shifts(0, 0);
    lemma_shifts(1, 0);
    if i > 0 {
        lemma_dropped_x_pow(k, (i - 1) as nat);
        if i <= k {
            let m = (k - i) as nat;
            lemma_x_pow(m);
            lemma_x_pow(m + 1);
            lemma_shifts(raised(1, m), 0);
        } else if i - 1 == k {
            assert(1u128 >> 1 == 0) by (bit_vector);
        }
    }
}

/// A product with a power of `x` is a shift.
pub proof fn lemma_product_x_pow(a: Block, k: nat, n: nat)
    requires
        k < 128,
        n <= 128,
    ensures
        partial_product(a, x_pow(k), n) == if k < n {
            times_x_pow(a, k)
        } else {
            Block { bits: 0 }
        },
    decreases n,
{
    let zero = Block { bits: 0 };
    lemma_xor(zero, zero, zero);
    if n > 0 {
        let m = (n - 1) as nat;
        lemma_product_x_pow(a, k, m);
        lemma_dropped_x_pow(k, m);
        lemma_shifts(0, 0);
        lemma_shifts(1, 0);
        assert(coefficient(x_pow(k), m) == (m == k)) by {
            if m < k {
                lemma_x_pow((k - m) as nat);
                lemma_shifts(raised(1, (k - m - 1) as nat), 0);
            }
        }
        let t = times_x_pow(a, m);
        lemma_xor(zero, t, zero);
        lemma_xor(t, zero, zero);
        lemma_xor(times_x_pow(a, k), zero, zero);
    }
}

/// Dropping all bits leaves nothing.
proof fn lemma_dropped_all(a: u128, n: nat)
    requires
        n <= 128,
    ensures
        dropped(a, n) * pow2(n) <= a,
        dropped(a, 128) == 0,
    decreases 128 - n,
{
    lemma_dropped_bound(a, 128);
    lemma_dropped_bound(a, n);
    assert(pow2(128) == 0x1_0000_0000_0000_0000 * 0x1_0000_0000_0000_0000) by {
        lemma_pow2_adds(64, 64);
        lemma2_to64();
        lemma2_to64_rest();
    }
    let d = dropped(a, 128) as int;
    assert(d == 0) by (nonlinear_arith)
        requires
            d >= 0,
            d * (0x1_0000_0000_0000_0000 * 0x1_0000_0000_0000_0000) <= a,
            a <= 0xffff_ffff_ffff_ffff_ffff_ffff_ffff_ffff,
    ;
}

proof fn lemma_dropped_bound(a: u128, n: nat)
    ensures
        dropped(a, n) * pow2(n) <= a,
    decreases n,
{
    lemma2_to64();
    if n > 0 {
        let m = (n - 1) as nat;
        lemma_dropped_bound(a, m);
        lemma_pow2_unfold(n);
        lemma_shifts(dropped(a, m), 0);
        let (d, p) = (dropped(a, m) as int, pow2(m) as int);
        assert((d / 2) * (2 * p) <= d * p) by (nonlinear_arith)
            requires
                d >= 0,
                p >= 0,
        ;
        assert(dropped(a, n) as int == d / 2 && pow2(n) as int == 2 * p);
    } else {
        assert(dropped(a, 0) as int == a as int && pow2(0) as int == 1);
        assert((a as int) * 1 == a as int);
    }
}

/// A block is the sum of its terms below `x^n` and of the rest.
proof fn lemma_terms(a: Block, n: nat)
    requires
        n <= 128,
    ensures
        a.bits == partial_product(gf_one(), a, n).bits ^ raised(dropped(a.bits, n), n),
    decreases n,
{
    if n == 0 {
        let v = a.bits;
        assert(v == 0 ^ v) by (bit_vector);
    } else {
        let m = (n - 1) as nat;
        lemma_terms(a, m);
        lemma_x_pow(m);
        let w = dropped(a.bits, m);
        lemma_shifts(w, 0);
        lemma_raised((w >> 1) << 1, w & 1, m);
        lemma_raised(w >> 1, 0, m);
        let p = partial_product(gf_one(), a, m).bits;
        let r = raised(w >> 1, n);
        let t = raised(w & 1, m);
        assert(p ^ (r ^ t) == (p ^ t) ^ r) by (bit_vector);
        lemma_raised(0, 0, m);
    }
}

/// One is neutral.
pub proof fn lemma_product_one(a: Block)
    ensures
        gf_product(a, gf_one()) == a,
        gf_product(gf_one(), a) == a,
{
    lemma_product_x_pow(a, 0, 128);
    lemma_terms(a, 128);
    lemma_dropped_all(a.bits, 128);
    lemma_raised(0, 0, 128);
    lemma_shifts(partial_product(gf_one(), a, 128).bits, 0);
}

/// The terms of `a` below `x^n`.
pub open spec fn low_terms(a: Block, n: nat) -> Block {
    partial_product(gf_one(), a, n)
}

/// Multiplying the first factor by a power of `x` multiplies the product by it.
proof fn lemma_shift_left_pow(a: Block, b: Block, n: nat)
    ensures
        gf_product(times_x_pow(a, n), b) == times_x_pow(gf_product(a, b), n),
    decreases n,
{
    if n > 0 {
        lemma_shift_left_pow(a, b, (n - 1) as nat);
        lemma_shift_left(times_x_pow(a, (n - 1) as nat), b, 128);
    }
}

proof fn lemma_commutes_below(a: Block, b: Block, n: nat)
    requires
        n <= 128,
    ensures
        gf_product(low_terms(b, n), a) == partial_product(a, b, n),
    decreases n,
{
    lemma_product_zero(a);
    if n > 0 {
        let m = (n - 1) as nat;
        lemma_commutes_below(a, b, m);
        let term = x_pow(m).times(coefficient(b, m));
        lemma_product_distributes(a, low_terms(b, m), term);
        lemma_shift_left_pow(gf_one(), a, m);
        lemma_product_one(a);
    }
}

/// Multiplication is commutative.
pub proof fn lemma_product_commutes(a: Block, b: Block)
    ensures
        gf_product(a, b) == gf_product(b, a),
{
    lemma_commutes_below(a, b, 128);
    lemma_product_one(b);
}

proof fn lemma_associates_below(a: Block, b: Block, c: Block, n: nat)
    requires
        n <= 128,
    ensures
        gf_product(gf_product(a, b), low_terms(c, n)) == gf_product(
            a,
            gf_product(b, low_terms(c, n)),
        ),
    decreases n,
{
    let ab = gf_product(a, b);
    lemma_product_zero(a);
    lemma_product_zero(b);
    lemma_product_zero(ab);
    if n > 0 {
        let m = (n - 1) as nat;
        lemma_associates_below(a, b, c, m);
        let term = x_pow(m).times(coefficient(c, m));
        lemma_product_distributes(ab, low_terms(c, m), term);
        lemma_product_distributes(b, low_terms(c, m), term);
        lemma_product_distributes(a, gf_product(b, low_terms(c, m)), gf_product(b, term));
        lemma_product_x_pow(ab, m, 128);
        lemma_product_x_pow(b, m, 128);
        lemma_product_commutes(a, times_x_pow(b, m));
        lemma_shift_left_pow(b, a, m);
        lemma_product_commutes(a, b);
    }
}

/// Multiplication is associative.
pub proof fn lemma_product_associates(a: Block, b: Block, c: Block)
    ensures
        gf_product(gf_product(a, b), c) == gf_product(a, gf_product(b, c)),
{
    lemma_associates_below(a, b, c, 128);
    lemma_product_one(c);
}

/// An inverse takes a factor back.
pub proof fn lemma_inverse(a: Block, b: Block)
    requires
        b != (Block { bits: 0 }),
    ensures
        gf_product(b, inverse_of(b)->0) == gf_one(),
        gf_product(gf_product(a, b), inverse_of(b)->0) == a,
{
    lemma_inverse_exists(b);
    lemma_product_associates(a, b, inverse_of(b)->0);
    lemma_product_one(a);
}

/// The modulus is x^128 + x^7 + x^2 + x + 1: the product of x^127 and x is x^7 + x^2 + x + 1.
pub proof fn lemma_modulus()
    ensures
        gf_product(x_pow(127), x_pow(1)) == (Block { bits: 0x87 }),
        x_pow(127).bits == 0x8000_0000_0000_0000_0000_0000_0000_0000,
        x_pow(1).bits == 2,
{
    lemma_product_x_pow(x_pow(127), 1, 128);
    lemma_top_power();
    lemma2_to64();
    lemma_x_pow(127);
    lemma_x_pow(1);
    reveal_with_fuel(times_x_pow, 2);
    assert(0x8000_0000_0000_0000_0000_0000_0000_0000u128 << 1 == 0
        && 0x8000_0000_0000_0000_0000_0000_0000_0000u128 >> 127 == 1 && 0u128 ^ 0x87 == 0x87)
        by (bit_vector);
}

} // verus!
