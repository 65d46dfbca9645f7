//! This module implements the Goldilocks prime field F_{2^64 - 2^32 + 1}.
//!
//! The Goldilocks prime p = 2^64 - 2^32 + 1 = 18446744069414584321 is particularly
//! efficient for modular arithmetic due to its special structure, and is highly
//! NTT-friendly with primitive roots of unity up to order 2^32.
//!
//! Key properties:
//! - 64-bit prime that fits in a u64
//! - p - 1 = 2^32 * (2^32 - 1), so 2^32 divides the group order
//! - Efficient reduction: 2^64 ≡ 2^32 - 1 (mod p)

use vstd::arithmetic::power::{
    lemma_pow0, lemma_pow1, lemma_pow_adds, lemma_pow_multiplies, pow,
};
use vstd::arithmetic::power2::{
    lemma2_to64, lemma_pow2_adds, lemma_pow2_strictly_increases, lemma_pow2_unfold, pow2,
};
use vstd::prelude::*;

pub use crate::fields::goldilocks_prime::{GOLDILOCKS, OMEGA_32};

use crate::fields::euclid::inverse_mod;
use crate::fields::goldilocks_prime::lemma_goldilocks_prime;
use crate::fields::modular::{
    inverse, is_inverse, lemma_canonical, lemma_inside, lemma_inverse, lemma_inverse_unique,
    lemma_multiple, lemma_same, lemma_same_pow, same,
};
use crate::fields::words::{
    bit_at, from_le_bytes, from_lsb0, from_msb0, get_bit, le_number, lsb0_number, msb0_padded,
    to_be_bytes, to_le_bytes,
};
use crate::rng::SeededRng;

verus! {

/// 2^32, used in reduction.
pub const TWO_POW_32: u64 = 0x1_0000_0000;

/// The prime as a number.
pub open spec fn prime() -> int {
    GOLDILOCKS as int
}

/// A field element in F_{2^64 - 2^32 + 1} (Goldilocks field).
///
/// Elements are stored in canonical form in the range [0, GOLDILOCKS).
#[derive(Clone, Copy, Debug, PartialEq, Eq, PartialOrd, Ord, Structural)]
pub struct Goldilocks {
    /// The value of the element.
    pub value: u64,
}

/// The element that a number is congruent to.
pub open spec fn element(x: int) -> Goldilocks {
    Goldilocks { value: (x % prime()) as u64 }
}

/// Error type for Goldilocks field operations.
#[derive(Clone, Copy, Debug, PartialEq, Eq, Structural)]
pub enum GoldilocksError {
    /// Value is out of range for the field.
    OutOfRange(u64),
}

/// The number to whose power an element of order 2^k is the root of order 2^32.
pub open spec fn root_exponent(k: nat) -> nat {
    pow2((32 - k) as nat)
}

/// A primitive root of unity of order 2^k, as a number.
pub open spec fn root(k: nat) -> int {
    pow(OMEGA_32 as int, root_exponent(k)) % prime()
}

/// The first word, of those drawn, that is an element, and the generator behind it.
pub open spec fn element_drawn(rng: SeededRng, tries: nat) -> (Option<Goldilocks>, SeededRng)
    decreases tries,
{
    if tries == 0 {
        (None, rng)
    } else {
        let (word, rng) = rng.word_drawn();
        if word < GOLDILOCKS {
            (Some(Goldilocks { value: word }), rng)
        } else {
            element_drawn(rng, (tries - 1) as nat)
        }
    }
}

/// Some word that the generator draws is an element.
pub open spec fn yields_element(rng: SeededRng) -> bool {
    exists|n: nat| (#[trigger] element_drawn(rng, n)).0 is Some
}

/// However many words may be drawn, the first one that is an element is the same.
proof fn lemma_one_element(rng: SeededRng, n: nat, m: nat)
    requires
        element_drawn(rng, n).0 is Some,
        element_drawn(rng, m).0 is Some,
    ensures
        element_drawn(rng, n) == element_drawn(rng, m),
    decreases n,
{
    if element_drawn(rng, 1).0 is None {
        assert(element_drawn(rng.word_drawn().1, 0).0 is None);
        lemma_one_element(rng.word_drawn().1, (n - 1) as nat, (m - 1) as nat);
    } else {
        assert(element_drawn(rng.word_drawn().1, 0).0 is None);
    }
}

/// The element that bytes stand for, the least significant one first, or why there is none.
pub open spec fn decoded(bytes: Seq<u8>) -> Result<Goldilocks, GoldilocksError> {
    if le_number(bytes) >= GOLDILOCKS {
        Err(GoldilocksError::OutOfRange(le_number(bytes) as u64))
    } else {
        Ok(Goldilocks { value: le_number(bytes) as u64 })
    }
}

/// The element that bits stand for, the least significant one first; the first 64 are read.
pub open spec fn from_lsb0_bits(bits: Seq<bool>) -> Goldilocks {
    element(lsb0_number(bits.take(first_bits(bits.len(), 64))) as int)
}

/// The element that bits stand for, the most significant one first; the first 64 are read, and
/// bits that are missing are zero.
pub open spec fn from_msb0_bits(bits: Seq<bool>) -> Goldilocks {
    element(lsb0_number(msb0_padded(bits.take(first_bits(bits.len(), 64)), 64)) as int)
}

impl Goldilocks {
    /// The sum of two elements.
    pub open spec fn plus(self, rhs: Goldilocks) -> Goldilocks {
        element(self.value as int + rhs.value as int)
    }

    /// The difference of two elements.
    pub open spec fn minus(self, rhs: Goldilocks) -> Goldilocks {
        element(self.value as int - rhs.value as int)
    }

    /// The product of two elements.
    pub open spec fn times(self, rhs: Goldilocks) -> Goldilocks {
        element(self.value as int * rhs.value as int)
    }

    /// The negative of an element.
    pub open spec fn negated(self) -> Goldilocks {
        element(-(self.value as int))
    }

    /// The value is in canonical form.
    pub open spec fn wf(self) -> bool {
        self.value < GOLDILOCKS
    }

    /// Creates a new field element from a u64.
    ///
    /// The value is reduced modulo GOLDILOCKS if necessary.
    pub fn new(value: u64) -> (r: Goldilocks)
        ensures
            r.wf(),
            r == element(value as int),
    {
        proof {
            lemma_multiple(value as int, 1, prime());
            if value >= GOLDILOCKS {
                lemma_canonical(value - GOLDILOCKS, prime());
            } else {
                lemma_canonical(value as int, prime());
            }
        }
        if value >= GOLDILOCKS {
            Goldilocks { value: value - GOLDILOCKS }
        } else {
            Goldilocks { value }
        }
    }

    /// Returns the inner u64 value.
    pub fn inner(self) -> (r: u64)
        ensures
            r == self.value,
    {
        self.value
    }

    /// Reduces a u128 value modulo GOLDILOCKS using the special structure.
    ///
    /// Since p = 2^64 - 2^32 + 1, we have 2^64 ≡ 2^32 - 1 (mod p).
    fn reduce(x: u128) -> (r: u64)
        ensures
            r < GOLDILOCKS,
            r as int == x as int % prime(),
    {
        let x_lo: u64 = (x % 0x1_0000_0000_0000_0000) as u64;
        let x_hi: u64 = (x / 0x1_0000_0000_0000_0000) as u64;
        // x_hi * 2^64 ≡ x_hi * (2^32 - 1) (mod p)
        let x_hi_red: u128 = (x_hi as u128) * 0xFFFF_FFFF;
        let sum: u128 = x_lo as u128 + x_hi_red;
        proof {
            assert(x == sum + 0xFFFF_FFFF_0000_0001 * x_hi);
            lemma_multiple(sum as int, x_hi as int, prime());
        }

        // If sum >= 2^64, we need another reduction round
        let s_lo: u64 = (sum % 0x1_0000_0000_0000_0000) as u64;
        let s_hi: u64 = (sum / 0x1_0000_0000_0000_0000) as u64;
        let s_hi_red: u128 = (s_hi as u128) * 0xFFFF_FFFF;
        let final_sum: u128 = s_lo as u128 + s_hi_red;
        proof {
            assert(sum == final_sum + 0xFFFF_FFFF_0000_0001 * s_hi);
            lemma_multiple(final_sum as int, s_hi as int, prime());
            lemma_multiple(final_sum as int, 1, prime());
            if final_sum >= GOLDILOCKS {
                lemma_canonical(final_sum - GOLDILOCKS, prime());
            } else {
                lemma_canonical(final_sum as int, prime());
            }
        }
        if final_sum >= GOLDILOCKS as u128 {
            (final_sum - GOLDILOCKS as u128) as u64
        } else {
            final_sum as u64
        }
    }

    /// The zero element.
    pub fn zero() -> (r: Goldilocks)
        ensures
            r.wf(),
            r.value == 0,
    {
        Goldilocks { value: 0 }
    }

    /// The one element.
    pub fn one() -> (r: Goldilocks)
        ensures
            r.wf(),
            r.value == 1,
    {
        Goldilocks { value: 1 }
    }

    /// Two to a power.
    pub fn two_pow(rhs: u32) -> (r: Goldilocks)
        ensures
            r.wf(),
            r == element(pow2(rhs as nat) as int),
        decreases rhs,
    {
        proof {
            lemma2_to64();
        }
        if rhs < 64 {
            let x: u64 = power_of_two(rhs);
            Goldilocks::new(x)
        } else {
            // 2^64 = 2^32 - 1 mod p
            // 2^(64+k) = (2^32 - 1) * 2^k mod p
            let k: u32 = rhs - 64;
            let base = Goldilocks { value: TWO_POW_32 - 1 };
            let rest = Goldilocks::two_pow(k);
            proof {
                lemma_pow2_adds(64, k as nat);
                let (p, x) = (prime(), pow2(k as nat) as int);
                assert(pow2(64) == p + base.value);
                lemma_multiple(base.value as int, 1, p);
                lemma_same(p + base.value, base.value as int, x, x, p);
                lemma_inside(x, base.value as int, p);
                let (b, e) = (base.value as int, x % p);
                assert(b * e == e * b && b * x == x * b) by (nonlinear_arith);
            }
            base * rest
        }
    }

    /// Computes the modular inverse.
    ///
    /// Returns None if self is zero.
    pub fn inverse(self) -> (r: Option<Goldilocks>)
        requires
            self.wf(),
        ensures
            r is None <==> self.value == 0,
            r matches Some(x) ==> x.wf() && is_inverse(
                self.value as int,
                x.value as int,
                prime(),
            ) && x.value == inverse(self.value as int, prime()),
    {
        if self.value == 0 {
            return None;
        }
        proof {
            lemma_goldilocks_prime();
            lemma_canonical(self.value as int, prime());
            lemma_inverse(self.value as int, prime());
        }
        let value: u64 = inverse_mod(self.value, GOLDILOCKS);
        proof {
            lemma_inverse_unique(
                self.value as int,
                value as int,
                inverse(self.value as int, prime()),
                prime(),
            );
        }
        Some(Goldilocks { value })
    }

    /// Computes self^exp using binary exponentiation.
    pub fn pow(self, exp: u64) -> (r: Goldilocks)
        requires
            self.wf(),
        ensures
            r.wf(),
            r == element(pow(self.value as int, exp as nat)),
    {
        let mut rest: u64 = exp;
        let mut base = self;
        let mut result = Goldilocks::one();
        let ghost p = prime();
        let ghost want = pow(self.value as int, exp as nat);
        assert(1 * want == want);
        while rest > 0
            invariant
                p == prime(),
                base.wf(),
                result.wf(),
                same(result.value as int * pow(base.value as int, rest as nat), want, p),
            decreases rest,
        {
            let ghost (x, y, e) = (result.value as int, base.value as int, rest as nat);
            let ghost h = (rest / 2) as nat;
            proof {
                lemma_square_power(y, h, p);
                lemma_pow_adds(y, 1, 2 * h);
                lemma_pow1(y);
            }
            if rest % 2 == 1 {
                result = result * base;
                proof {
                    // x * y^(2h+1) = (x * y) * (y^2)^h
                    assert(e == 1 + 2 * h);
                    let q = pow((y * y) % p, h);
                    assert(x * (y * pow(y, 2 * h)) == (x * y) * pow(y, 2 * h))
                        by (nonlinear_arith);
                    lemma_inside(x * y, 0, p);
                    lemma_same((x * y) % p, x * y, q, pow(y, 2 * h), p);
                }
            } else {
                proof {
                    let q = pow((y * y) % p, h);
                    lemma_same(x, x, q, pow(y, 2 * h), p);
                }
            }
            base = base * base;
            rest = rest / 2;
        }
        proof {
            lemma_pow0(base.value as int);
            assert(result.value * 1 == result.value);
            lemma_canonical(result.value as int, p);
        }
        result
    }

    /// Returns a primitive root of unity of order 2^k.
    ///
    /// For Goldilocks, p - 1 = 2^32 * (2^32 - 1), so we can find
    /// primitive roots of unity up to order 2^32.
    ///
    /// Returns None if k > 32.
    pub fn primitive_root_of_unity(k: u32) -> (r: Option<Goldilocks>)
        ensures
            r is None <==> k > 32,
            r matches Some(x) ==> x.wf() && x.value == root(k as nat),
    {
        if k > 32 {
            return None;
        }
        // To get a 2^k-th root of unity, we raise omega_32 to the power 2^(32-k)
        let omega = Goldilocks { value: OMEGA_32 };
        let exp: u64 = power_of_two(32 - k);
        Some(omega.pow(exp))
    }

    /// Returns the maximum NTT size supported (as log2).
    ///
    /// For Goldilocks, this is 32 since 2^32 divides p - 1.
    pub fn max_ntt_log_size() -> (r: u32)
        ensures
            r == 32,
    {
        32
    }

    /// Returns the multiplicative generator of the field.
    ///
    /// 7 is a primitive root modulo the Goldilocks prime.
    pub fn generator() -> (r: Goldilocks)
        ensures
            r.wf(),
            r.value == 7,
    {
        Goldilocks { value: 7 }
    }

    /// Draws an element: words are drawn until one is accepted.
    ///
    /// Rejection sampling for uniform distribution.
    pub fn random(rng: &mut SeededRng) -> (r: Goldilocks)
        requires
            yields_element(*old(rng)),
        ensures
            r.wf(),
            forall|n: nat|
                (#[trigger] element_drawn(*old(rng), n)).0 is Some ==> (Some(r), *final(rng))
                    == element_drawn(*old(rng), n),
    {
        let ghost found = choose|n: nat| (#[trigger] element_drawn(*old(rng), n)).0 is Some;
        let ghost mut left: nat = found;
        loop
            invariant
                element_drawn(*rng, left) == element_drawn(*old(rng), found),
                element_drawn(*rng, left).0 is Some,
            decreases left,
        {
            let word: u64 = rng.next_u64();
            match Goldilocks::accept(word) {
                Some(element) => {
                    proof {
                        assert forall|n: nat|
                            (#[trigger] element_drawn(*old(rng), n)).0 is Some implies (Some(
                            element,
                        ), *rng) == element_drawn(*old(rng), n) by {
                            lemma_one_element(*old(rng), found, n);
                        }
                    }
                    return element;
                },
                None => {},
            }
            proof {
                left = (left - 1) as nat;
            }
        }
    }

    /// Draws an element if one of the next `tries` words is accepted; otherwise nothing is drawn.
    pub fn random_within(rng: &mut SeededRng, tries: usize) -> (r: Option<Goldilocks>)
        ensures
            (r, *final(rng)) == if element_drawn(*old(rng), tries as nat).0 is Some {
                element_drawn(*old(rng), tries as nat)
            } else {
                (None, *old(rng))
            },
            r matches Some(x) ==> x.wf(),
    {
        let mut ahead = *rng;
        for i in 0..tries
            invariant
                *rng == *old(rng),
                element_drawn(ahead, (tries - i) as nat) == element_drawn(
                    *old(rng),
                    tries as nat,
                ),
        {
            let word: u64 = ahead.next_u64();
            if Goldilocks::accept(word).is_some() {
                return Some(Goldilocks::random(rng));
            }
        }
        None
    }

    /// The element that a word is, if it is in range.
    pub fn accept(word: u64) -> (r: Option<Goldilocks>)
        ensures
            r == if word < GOLDILOCKS {
                Some(Goldilocks { value: word })
            } else {
                None
            },
    {
        if word < GOLDILOCKS {
            Some(Goldilocks { value: word })
        } else {
            None
        }
    }

    /// The bytes of the element, the least significant one first.
    pub fn to_le_bytes(&self) -> (r: Vec<u8>)
        ensures
            r.len() == 8,
            le_number(r@) == self.value,
    {
        let bytes: [u8; 8] = to_le_bytes(self.value);
        let mut out: Vec<u8> = Vec::new();
        out.extend_from_slice(bytes.as_slice());
        assert(out@ =~= bytes@);
        out
    }

    /// The bytes of the element, the most significant one first.
    pub fn to_be_bytes(&self) -> (r: Vec<u8>)
        ensures
            r.len() == 8,
            le_number(r@.reverse()) == self.value,
    {
        let bytes: [u8; 8] = to_be_bytes(self.value);
        let mut out: Vec<u8> = Vec::new();
        out.extend_from_slice(bytes.as_slice());
        assert(out@ =~= bytes@);
        out
    }

    /// The bytes of the element, the least significant one first.
    pub fn to_bytes(self) -> (r: [u8; 8])
        ensures
            le_number(r@) == self.value,
    {
        to_le_bytes(self.value)
    }

    /// The element that bytes stand for, the least significant one first, if it is in range.
    pub fn try_from(value: [u8; 8]) -> (r: Result<Goldilocks, GoldilocksError>)
        ensures
            r == decoded(value@),
            r matches Ok(x) ==> x.wf(),
    {
        let n: u64 = from_le_bytes(value);
        if n >= GOLDILOCKS {
            return Err(GoldilocksError::OutOfRange(n));
        }
        Ok(Goldilocks { value: n })
    }

    /// The bit at an index, counted from the least significant one.
    pub fn get_bit_lsb0(&self, index: usize) -> (r: bool)
        ensures
            r == (index < 64 && bit_at(self.value as nat, index as nat)),
    {
        if index >= 64 {
            false
        } else {
            get_bit(self.value, index)
        }
    }

    /// The bit at an index, counted from the most significant one.
    pub fn get_bit_msb0(&self, index: usize) -> (r: bool)
        ensures
            r == (index < 64 && bit_at(self.value as nat, (63 - index) as nat)),
    {
        if index >= 64 {
            false
        } else {
            get_bit(self.value, 63 - index)
        }
    }

    /// The element that the first 64 bits stand for, the least significant one first.
    pub fn from_lsb0_iter(bits: &[bool]) -> (r: Goldilocks)
        ensures
            r.wf(),
            r == from_lsb0_bits(bits@),
    {
        let n: usize = if bits.len() < 64 {
            bits.len()
        } else {
            64
        };
        let value: u64 = from_lsb0(vstd::slice::slice_subrange(bits, 0, n));
        assert(bits@.subrange(0, n as int) =~= bits@.take(n as int));
        Goldilocks::new(value)
    }

    /// The element that the first 64 bits stand for, the most significant one first; bits that
    /// are missing are zero.
    pub fn from_msb0_iter(bits: &[bool]) -> (r: Goldilocks)
        ensures
            r.wf(),
            r == from_msb0_bits(bits@),
    {
        let n: usize = if bits.len() < 64 {
            bits.len()
        } else {
            64
        };
        let value: u64 = from_msb0(vstd::slice::slice_subrange(bits, 0, n), 64);
        assert(bits@.subrange(0, n as int) =~= bits@.take(n as int));
        Goldilocks::new(value)
    }
}

/// How many of `n` bits are read where at most `width` are.
pub open spec fn first_bits(n: nat, width: int) -> int {
    if n < width {
        n as int
    } else {
        width
    }
}

/// The power of two with a small exponent.
pub fn power_of_two(k: u32) -> (r: u64)
    requires
        k < 64,
    ensures
        r == pow2(k as nat),
{
    let mut x: u64 = 1;
    proof {
        lemma2_to64();
    }
    for i in 0..k
        invariant
            k < 64,
            x == pow2(i as nat),
    {
        proof {
            lemma_pow2_unfold((i + 1) as nat);
            lemma2_to64();
            lemma_pow2_strictly_increases((i + 1) as nat, 64);
        }
        x = 2 * x;
    }
    x
}

/// Squaring the base halves the exponent.
proof fn lemma_square_power(y: int, h: nat, p: int)
    requires
        p > 0,
    ensures
        same(pow((y * y) % p, h), pow(y, 2 * h), p),
{
    lemma_pow_adds(y, 1, 1);
    lemma_pow1(y);
    lemma_pow_multiplies(y, 2, h);
    lemma_inside(y * y, 0, p);
    lemma_same_pow((y * y) % p, y * y, h, p);
}

impl Default for Goldilocks {
    fn default() -> (r: Goldilocks)
        ensures
            r.value == 0,
    {
        Goldilocks { value: 0 }
    }
}

impl std::ops::Add for Goldilocks {
    type Output = Goldilocks;

    fn add(self, rhs: Goldilocks) -> (r: Goldilocks) {
        let sum: u128 = self.value as u128 + rhs.value as u128;
        proof {
            lemma_multiple(sum as int, 1, prime());
            if sum >= GOLDILOCKS {
                lemma_canonical(sum - GOLDILOCKS, prime());
            } else {
                lemma_canonical(sum as int, prime());
            }
        }
        if sum >= GOLDILOCKS as u128 {
            Goldilocks { value: (sum - GOLDILOCKS as u128) as u64 }
        } else {
            Goldilocks { value: sum as u64 }
        }
    }
}

impl vstd::std_specs::ops::AddSpecImpl for Goldilocks {
    open spec fn obeys_add_spec() -> bool {
        true
    }

    open spec fn add_req(self, rhs: Goldilocks) -> bool {
        self.wf() && rhs.wf()
    }

    open spec fn add_spec(self, rhs: Goldilocks) -> Goldilocks {
        self.plus(rhs)
    }
}

impl std::ops::Sub for Goldilocks {
    type Output = Goldilocks;

    fn sub(self, rhs: Goldilocks) -> (r: Goldilocks) {
        proof {
            let diff = self.value as int - rhs.value as int;
            lemma_multiple(diff, 1, prime());
            if diff < 0 {
                lemma_canonical(diff + GOLDILOCKS, prime());
            } else {
                lemma_canonical(diff, prime());
            }
        }
        if self.value < rhs.value {
            // We would subtract too much, so add GOLDILOCKS
            Goldilocks { value: GOLDILOCKS - rhs.value + self.value }
        } else {
            Goldilocks { value: self.value - rhs.value }
        }
    }
}

impl vstd::std_specs::ops::SubSpecImpl for Goldilocks {
    open spec fn obeys_sub_spec() -> bool {
        true
    }

    open spec fn sub_req(self, rhs: Goldilocks) -> bool {
        self.wf() && rhs.wf()
    }

    open spec fn sub_spec(self, rhs: Goldilocks) -> Goldilocks {
        self.minus(rhs)
    }
}

impl std::ops::Mul for Goldilocks {
    type Output = Goldilocks;

    fn mul(self, rhs: Goldilocks) -> (r: Goldilocks) {
        assert(self.value * rhs.value <= 0xFFFF_FFFF_FFFF_FFFF * 0xFFFF_FFFF_FFFF_FFFF)
            by (nonlinear_arith)
            requires
                0 <= self.value <= 0xFFFF_FFFF_FFFF_FFFF,
                0 <= rhs.value <= 0xFFFF_FFFF_FFFF_FFFF,
        ;
        let prod: u128 = self.value as u128 * rhs.value as u128;
        Goldilocks { value: Goldilocks::reduce(prod) }
    }
}

impl vstd::std_specs::ops::MulSpecImpl for Goldilocks {
    open spec fn obeys_mul_spec() -> bool {
        true
    }

    open spec fn mul_req(self, rhs: Goldilocks) -> bool {
        true
    }

    open spec fn mul_spec(self, rhs: Goldilocks) -> Goldilocks {
        self.times(rhs)
    }
}

impl std::ops::Neg for Goldilocks {
    type Output = Goldilocks;

    fn neg(self) -> (r: Goldilocks) {
        proof {
            lemma_multiple(-(self.value as int), 1, prime());
            lemma_canonical(0, prime());
            if self.value > 0 {
                lemma_canonical(GOLDILOCKS - self.value, prime());
            }
        }
        if self.value == 0 {
            self
        } else {
            Goldilocks { value: GOLDILOCKS - self.value }
        }
    }
}

impl vstd::std_specs::ops::NegSpecImpl for Goldilocks {
    open spec fn obeys_neg_spec() -> bool {
        true
    }

    open spec fn neg_req(self) -> bool {
        self.wf()
    }

    open spec fn neg_spec(self) -> Goldilocks {
        self.negated()
    }
}

/// The element that is drawn is the first word below the modulus, as it is.
pub proof fn lemma_first_accepted(rng: SeededRng, n: nat)
    ensures
        ({
            let (word, rest) = rng.word_drawn();
            &&& element_drawn(rng, 0) == (None::<Goldilocks>, rng)
            &&& element_drawn(rng, n + 1) == if (word as int) < prime() {
                (Some(Goldilocks { value: word }), rest)
            } else {
                element_drawn(rest, n)
            }
        }),
{
}

} // verus!
