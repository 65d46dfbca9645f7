//! Every element of the field with 2^128 elements but zero has an inverse.
//!
//! Squaring keeps sums. Squaring `x` 128 times gives `x` back, so each element is its own
//! `2^128`-th power, and `e = a^(2^128 - 1)` is its own square. Only zero and one are.

use vstd::prelude::*;

use crate::block::{lemma_xor, Block};
use crate::gf2_128::{
    coefficient, gf_one, gf_product, inverse_of, lemma_product_associates, lemma_product_commutes,
    lemma_product_distributes, lemma_product_one, lemma_product_x_pow, lemma_product_zero,
    lemma_times_x_sum, lemma_x_pow, low_terms, square_products, times_x, times_x_pow, x_pow,
};

verus! {

/// Sets the lower 64 bits apart: bit `i` goes to bit `2 * i`.
spec fn spread(a: u128) -> u128 {
    let a = (a | (a << 32)) & 0x0000_0000_ffff_ffff_0000_0000_ffff_ffff;
    let a = (a | (a << 16)) & 0x0000_ffff_0000_ffff_0000_ffff_0000_ffff;
    let a = (a | (a << 8)) & 0x00ff_00ff_00ff_00ff_00ff_00ff_00ff_00ff;
    let a = (a | (a << 4)) & 0x0f0f_0f0f_0f0f_0f0f_0f0f_0f0f_0f0f_0f0f;
    let a = (a | (a << 2)) & 0x3333_3333_3333_3333_3333_3333_3333_3333;
    (a | (a << 1)) & 0x5555_5555_5555_5555_5555_5555_5555_5555
}

/// The terms from `x^128` on, taken below by `x^128 = x^7 + x^2 + x + 1`, added to the others.
spec fn folded(low: u128, high: u128) -> u128 {
    let over = (high >> 127) ^ (high >> 126) ^ (high >> 121);
    low ^ (high ^ (high << 1) ^ (high << 2) ^ (high << 7)) ^ (over ^ (over << 1) ^ (over << 2) ^ (
    over << 7))
}

/// The bits of the square.
spec fn square_bits(a: u128) -> u128 {
    folded(spread(a & 0xffff_ffff_ffff_ffff), spread(a >> 64))
}

/// The bits of the product with `x`.
spec fn shifted(a: u128) -> u128 {
    (a << 1) ^ (if a >> 127 == 1 {
        0x87u128
    } else {
        0
    })
}

/// Squaring keeps sums.
proof fn lemma_square_sum(a: u128, b: u128)
    by (bit_vector)
    ensures
        square_bits(a ^ b) == square_bits(a) ^ square_bits(b),
        square_bits(0) == 0,
        square_bits(1) == 1,
{
}

/// Multiplying by `x` multiplies the square by `x^2`.
proof fn lemma_square_shifted(a: u128)
    by (bit_vector)
    requires
        a >> 127 == 0,
    ensures
        square_bits(shifted(a)) == shifted(shifted(square_bits(a))),
{
}

/// Only zero and one are their own squares.
proof fn lemma_idempotent(a: u128)
    by (bit_vector)
    requires
        square_bits(a) == a,
    ensures
        a == 0 || a == 1,
{
}

/// Squares four times.
spec fn square_4(a: u128) -> u128 {
    let a = square_bits(a);
    let a = square_bits(a);
    let a = square_bits(a);
    square_bits(a)
}

/// Squares 16 times.
spec fn square_16(a: u128) -> u128 {
    let a = square_4(a);
    let a = square_4(a);
    let a = square_4(a);
    square_4(a)
}

/// Squares 64 times.
spec fn square_64(a: u128) -> u128 {
    let a = square_16(a);
    let a = square_16(a);
    let a = square_16(a);
    square_16(a)
}

/// Squaring `x` 128 times gives `x` back.
proof fn lemma_x_squared()
    by (bit_vector)
    ensures
        square_64(square_64(2)) == 2,
{
}

/// Below the modulus a power of `x` has one bit.
proof fn lemma_one_bit(n: nat)
    requires
        n < 127,
    ensures
        x_pow(n).bits >> 127 == 0,
{
    lemma_x_pow(n);
    let v = x_pow(n).bits;
    assert(v < 0x8000_0000_0000_0000_0000_0000_0000_0000u128 ==> v >> 127 == 0) by (bit_vector);
}

/// The bits of the square of a power of `x`.
proof fn lemma_square_x_pow(n: nat)
    requires
        n < 128,
    ensures
        square_bits(x_pow(n).bits) == x_pow(2 * n).bits,
    decreases n,
{
    lemma_square_sum(0, 0);
    if n > 0 {
        let m = (n - 1) as nat;
        lemma_square_x_pow(m);
        lemma_one_bit(m);
        lemma_square_shifted(x_pow(m).bits);
        assert(x_pow(2 * n) == times_x(x_pow((2 * m + 1) as nat)));
        assert(x_pow((2 * m + 1) as nat) == times_x(x_pow(2 * m)));
    }
}

/// The product of a sum with itself: the mixed terms cancel.
proof fn lemma_sum_squared(a: Block, b: Block)
    ensures
        gf_product(a.xor(b), a.xor(b)) == gf_product(a, a).xor(gf_product(b, b)),
{
    let (aa, ab, ba, bb) = (
        gf_product(a, a),
        gf_product(a, b),
        gf_product(b, a),
        gf_product(b, b),
    );
    lemma_product_distributes(a.xor(b), a, b);
    lemma_product_distributes(a, a, b);
    lemma_product_distributes(b, a, b);
    lemma_product_commutes(a, b);
    lemma_xor(aa, ab, ab.xor(bb));
    lemma_xor(ab, ab, bb);
    lemma_xor(bb, ab, ab);
    lemma_xor(ab.xor(ab), bb, bb);
}

/// The bits of the square of the terms below `x^n`.
proof fn lemma_square_below(a: Block, n: nat)
    requires
        n <= 128,
    ensures
        gf_product(low_terms(a, n), low_terms(a, n)).bits == square_bits(low_terms(a, n).bits),
    decreases n,
{
    let zero = Block { bits: 0 };
    lemma_product_zero(zero);
    lemma_square_sum(0, 0);
    if n > 0 {
        let m = (n - 1) as nat;
        let term = x_pow(m).times(coefficient(a, m));
        lemma_square_below(a, m);
        lemma_sum_squared(low_terms(a, m), term);
        lemma_square_sum(low_terms(a, m).bits, term.bits);
        lemma_product_x_pow(x_pow(m), m, 128);
        lemma_times_x_sum(gf_one(), m, m);
        lemma_square_x_pow(m);
    }
}

/// The bits of a square.
proof fn lemma_square(a: Block)
    ensures
        gf_product(a, a).bits == square_bits(a.bits),
{
    lemma_square_below(a, 128);
    lemma_product_one(a);
}

/// The `2^n`-th power.
pub open spec fn power_2(a: Block, n: nat) -> Block {
    square_products(a, n).0
}

/// Raising to powers of two keeps sums and products.
proof fn lemma_power_2(a: Block, b: Block, n: nat)
    ensures
        power_2(a.xor(b), n) == power_2(a, n).xor(power_2(b, n)),
        power_2(gf_product(a, b), n) == gf_product(power_2(a, n), power_2(b, n)),
        power_2(gf_one(), n) == gf_one(),
        power_2(Block { bits: 0 }, n) == (Block { bits: 0 }),
    decreases n,
{
    if n > 0 {
        let m = (n - 1) as nat;
        lemma_power_2(a, b, m);
        let (p, q) = (power_2(a, m), power_2(b, m));
        lemma_sum_squared(p, q);
        lemma_product_one(gf_one());
        lemma_product_zero(Block { bits: 0 });
        // (p q) (p q) = (p p) (q q)
        lemma_product_associates(p, q, gf_product(p, q));
        lemma_product_associates(q, p, q);
        lemma_product_commutes(q, p);
        lemma_product_associates(p, q, q);
        lemma_product_associates(p, p, gf_product(q, q));
    }
}

/// Raising to powers of two, one after the other.
proof fn lemma_power_2_twice(a: Block, n: nat, m: nat)
    ensures
        power_2(power_2(a, n), m) == power_2(a, n + m),
    decreases m,
{
    if m > 0 {
        lemma_power_2_twice(a, n, (m - 1) as nat);
        assert((n + m - 1) as nat == n + (m - 1) as nat);
    }
}

/// The bits of the fourth, the 16th and the 64th square.
proof fn lemma_squares(a: Block)
    ensures
        power_2(a, 4).bits == square_4(a.bits),
        power_2(a, 16).bits == square_16(a.bits),
        power_2(a, 64).bits == square_64(a.bits),
{
    lemma_squares_4(a);
    lemma_squares_16(a);
    lemma_squares_16(power_2(a, 16));
    lemma_squares_16(power_2(a, 32));
    lemma_squares_16(power_2(a, 48));
    lemma_power_2_twice(a, 16, 16);
    lemma_power_2_twice(a, 32, 16);
    lemma_power_2_twice(a, 48, 16);
}

proof fn lemma_squares_4(a: Block)
    ensures
        power_2(a, 4).bits == square_4(a.bits),
{
    lemma_square(power_2(a, 0));
    lemma_square(power_2(a, 1));
    lemma_square(power_2(a, 2));
    lemma_square(power_2(a, 3));
    reveal_with_fuel(square_products, 5);
}

proof fn lemma_squares_16(a: Block)
    ensures
        power_2(a, 16).bits == square_16(a.bits),
{
    lemma_squares_4(a);
    lemma_squares_4(power_2(a, 4));
    lemma_squares_4(power_2(a, 8));
    lemma_squares_4(power_2(a, 12));
    lemma_power_2_twice(a, 4, 4);
    lemma_power_2_twice(a, 8, 4);
    lemma_power_2_twice(a, 12, 4);
}

/// A power of `x` is its own `2^128`-th power.
proof fn lemma_x_pow_fixed(n: nat)
    ensures
        power_2(x_pow(n), 128) == x_pow(n),
    decreases n,
{
    let x = Block { bits: 2 };
    lemma_power_2(gf_one(), gf_one(), 128);
    if n > 0 {
        let m = (n - 1) as nat;
        lemma_x_pow_fixed(m);
        assert(x_pow(1) == x) by {
            reveal_with_fuel(times_x_pow, 2);
            assert((1u128 << 1) ^ 0 == 2 && 1u128 >> 127 == 0) by (bit_vector);
        }
        lemma_squares(x);
        lemma_squares(power_2(x, 64));
        lemma_power_2_twice(x, 64, 64);
        lemma_x_squared();
        // x^n = x^m x
        lemma_product_x_pow(x_pow(m), 1, 128);
        lemma_times_x_sum(gf_one(), m, 1);
        lemma_power_2(x_pow(m), x, 128);
    }
}

/// The terms below `x^n` are their own `2^128`-th power.
proof fn lemma_fixed_below(a: Block, n: nat)
    requires
        n <= 128,
    ensures
        power_2(low_terms(a, n), 128) == low_terms(a, n),
    decreases n,
{
    lemma_power_2(gf_one(), gf_one(), 128);
    if n > 0 {
        let m = (n - 1) as nat;
        lemma_fixed_below(a, m);
        lemma_x_pow_fixed(m);
        lemma_power_2(low_terms(a, m), x_pow(m).times(coefficient(a, m)), 128);
    }
}

/// Every element is its own `2^128`-th power.
pub proof fn lemma_fixed(a: Block)
    ensures
        power_2(a, 128) == a,
{
    lemma_fixed_below(a, 128);
    lemma_product_one(a);
}

/// The factors that the inverse is made of.
proof fn lemma_products(a: Block, n: nat)
    ensures
        gf_product(gf_product(a, a), square_products(a, n).1) == power_2(a, n + 1),
    decreases n,
{
    let aa = gf_product(a, a);
    lemma_product_one(aa);
    if n == 0 {
        reveal_with_fuel(square_products, 2);
    } else {
        let m = (n - 1) as nat;
        lemma_products(a, m);
        lemma_product_associates(aa, square_products(a, m).1, power_2(a, n));
    }
}

/// Every element but zero has an inverse.
pub proof fn lemma_inverse_exists(a: Block)
    ensures
        inverse_of(a) is Some <==> a != (Block { bits: 0 }),
{
    let zero = Block { bits: 0 };
    let c = square_products(a, 127).1;
    let e = gf_product(a, c);
    lemma_product_zero(c);
    lemma_product_zero(a);
    lemma_products(a, 127);
    lemma_fixed(a);
    // a e = a, so e e = e
    lemma_product_associates(a, a, c);
    lemma_product_commutes(a, e);
    lemma_product_associates(e, a, c);
    lemma_square(e);
    lemma_idempotent(e.bits);
}

} // verus!
