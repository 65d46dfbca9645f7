//! This module implements the Mersenne prime field F_{2^61-1}.
//!
//! The Mersenne prime M61 = 2^61 - 1 = 2305843009213693951 is particularly
//! efficient for modular arithmetic because reduction can be done with
//! simple bit operations: `x mod p = (x & p) + (x >> 61)`.
//!
//! The multiplicative group has order 2 * (2^60 - 1), so the only roots of unity whose order is a
//! power of two are 1 and -1.

use vstd::arithmetic::power::{lemma_pow0, lemma_pow1, lemma_pow_adds, lemma_pow_multiplies, pow};
use vstd::arithmetic::power2::{
    lemma2_to64, lemma_pow2_adds, lemma_pow2_strictly_increases, pow2,
};
use vstd::prelude::*;

pub use crate::fields::m61_prime::M61;

use crate::fields::euclid::inverse_mod;
use crate::fields::goldilocks::{first_bits, power_of_two};
use crate::fields::m61_prime::lemma_m61_prime;
use crate::fields::modular::{
    inverse, is_inverse, lemma_canonical, lemma_inside, lemma_inverse, lemma_inverse_unique,
    lemma_multiple, lemma_same, lemma_same_pow, same,
};
use crate::fields::words::{
    bit_at, from_le_bytes, from_lsb0, from_msb0, get_bit, le_number, lsb0_number, msb0_padded,
    to_be_bytes, to_le_bytes,
};
use crate::rng::SeededRng;

verus! {

/// The prime as a number.
pub open spec fn prime() -> int {
    M61 as int
}

/// A field element in F_{2^61-1}.
///
/// Elements are stored in canonical form in the range [0, M61).
#[derive(Clone, Copy, Debug, PartialEq, Eq, PartialOrd, Ord, Structural)]
pub struct M61Field {
    /// The value of the element.
    pub value: u64,
}

/// The element that a number is congruent to.
pub open spec fn element(x: int) -> M61Field {
    M61Field { value: (x % prime()) as u64 }
}

/// Error type for M61 field operations.
#[derive(Clone, Copy, Debug, PartialEq, Eq, Structural)]
pub enum M61Error {
    /// Value is out of range for the field.
    OutOfRange(u64),
}

/// The element that a word stands for, masked to 61 bits, if it is in range.
pub open spec fn accepted(word: u64) -> Option<M61Field> {
    if word % 0x2000_0000_0000_0000 < M61 {
        Some(M61Field { value: (word % 0x2000_0000_0000_0000) as u64 })
    } else {
        None
    }
}

/// The first element of the words drawn, and the generator behind it.
pub open spec fn element_drawn(rng: SeededRng, tries: nat) -> (Option<M61Field>, SeededRng)
    decreases tries,
{
    if tries == 0 {
        (None, rng)
    } else {
        let (word, rng) = rng.word_drawn();
        match accepted(word) {
            Some(element) => (Some(element), rng),
            None => element_drawn(rng, (tries - 1) as nat),
        }
    }
}

/// Some word that the generator draws is an element.
pub open spec fn yields_element(rng: SeededRng) -> bool {
    exists|n: nat| (#[trigger] element_drawn(rng, n)).0 is Some
}

/// However many words may be drawn, the first one that is an element is the same.
proof fn lemma_one_element(rng: SeededRng, n: nat, m: nat)
    requires
        element_drawn(rng, n).0 is Some,
        element_drawn(rng, m).0 is Some,
    ensures
        element_drawn(rng, n) == element_drawn(rng, m),
    decreases n,
{
    if element_drawn(rng, 1).0 is None {
        assert(element_drawn(rng.word_drawn().1, 0).0 is None);
        lemma_one_element(rng.word_drawn().1, (n - 1) as nat, (m - 1) as nat);
    } else {
        assert(element_drawn(rng.word_drawn().1, 0).0 is None);
    }
}

/// The element that bytes stand for, the least significant one first, or why there is none.
pub open spec fn decoded(bytes: Seq<u8>) -> Result<M61Field, M61Error> {
    if le_number(bytes) >= M61 {
        Err(M61Error::OutOfRange(le_number(bytes) as u64))
    } else {
        Ok(M61Field { value: le_number(bytes) as u64 })
    }
}

/// The element that bits stand for, the least significant one first; the first 61 are read.
pub open spec fn from_lsb0_bits(bits: Seq<bool>) -> M61Field {
    element(lsb0_number(bits.take(first_bits(bits.len(), 61))) as int)
}

/// The element that bits stand for, the most significant one first; the first 61 are read, and
/// bits that are missing are zero.
pub open spec fn from_msb0_bits(bits: Seq<bool>) -> M61Field {
    element(lsb0_number(msb0_padded(bits.take(first_bits(bits.len(), 61)), 61)) as int)
}

impl M61Field {
    /// The sum of two elements.
    pub open spec fn plus(self, rhs: M61Field) -> M61Field {
        element(self.value as int + rhs.value as int)
    }

    /// The difference of two elements.
    pub open spec fn minus(self, rhs: M61Field) -> M61Field {
        element(self.value as int - rhs.value as int)
    }

    /// The product of two elements.
    pub open spec fn times(self, rhs: M61Field) -> M61Field {
        element(self.value as int * rhs.value as int)
    }

    /// The negative of an element.
    pub open spec fn negated(self) -> M61Field {
        element(-(self.value as int))
    }

    /// The value is in canonical form.
    pub open spec fn wf(self) -> bool {
        self.value < M61
    }

    /// Creates a new field element from a u64.
    ///
    /// The value is reduced modulo M61 if necessary.
    pub fn new(value: u64) -> (r: M61Field)
        ensures
            r.wf(),
            r == element(value as int),
    {
        M61Field { value: M61Field::reduce(value as u128) }
    }

    /// Returns the inner u64 value.
    pub fn inner(self) -> (r: u64)
        ensures
            r == self.value,
    {
        self.value
    }

    /// Reduces a number below 2^122 modulo M61 using the Mersenne prime property.
    ///
    /// For a Mersenne prime p = 2^k - 1, we have:
    /// x mod p = (x mod 2^k) + (x / 2^k) (with possible final reduction)
    fn reduce(x: u128) -> (r: u64)
        requires
            x < 0x400_0000_0000_0000_0000_0000_0000_0000,
        ensures
            r < M61,
            r as int == x as int % prime(),
    {
        // First reduction: split into low 61 bits and high bits
        let low: u64 = (x % 0x2000_0000_0000_0000) as u64;
        let high: u64 = (x / 0x2000_0000_0000_0000) as u64;
        let sum: u64 = low + high;
        proof {
            assert(x == sum + 0x1FFF_FFFF_FFFF_FFFF * high);
            lemma_multiple(sum as int, high as int, prime());
        }

        // Second reduction if needed (sum could be up to ~2*M61)
        let low2: u64 = sum % 0x2000_0000_0000_0000;
        let high2: u64 = sum / 0x2000_0000_0000_0000;
        let result: u64 = low2 + high2;
        proof {
            assert(sum == result + 0x1FFF_FFFF_FFFF_FFFF * high2);
            lemma_multiple(result as int, high2 as int, prime());
            lemma_multiple(result as int, 1, prime());
            if result >= M61 {
                lemma_canonical(result - M61, prime());
            } else {
                lemma_canonical(result as int, prime());
            }
        }

        // Final check: if result == M61, reduce to 0
        if result >= M61 {
            result - M61
        } else {
            result
        }
    }

    /// The zero element.
    pub fn zero() -> (r: M61Field)
        ensures
            r.wf(),
            r.value == 0,
    {
        M61Field { value: 0 }
    }

    /// The one element.
    pub fn one() -> (r: M61Field)
        ensures
            r.wf(),
            r.value == 1,
    {
        M61Field { value: 1 }
    }

    /// Two to a power.
    pub fn two_pow(rhs: u32) -> (r: M61Field)
        ensures
            r.wf(),
            r == element(pow2(rhs as nat) as int),
    {
        // 2^61 = 1 mod M61, so 2^k = 2^(k mod 61)
        let exp: u32 = rhs % 61;
        proof {
            lemma_two_pow(rhs as nat);
            lemma_two_pow_61();
            if exp < 60 {
                lemma_pow2_strictly_increases(exp as nat, 60);
            }
            lemma_canonical(pow2(exp as nat) as int, prime());
        }
        M61Field { value: power_of_two(exp) }
    }

    /// Computes the modular inverse.
    ///
    /// Returns None if self is zero.
    pub fn inverse(self) -> (r: Option<M61Field>)
        requires
            self.wf(),
        ensures
            r is None <==> self.value == 0,
            r matches Some(x) ==> x.wf() && is_inverse(
                self.value as int,
                x.value as int,
                prime(),
            ) && x.value == inverse(self.value as int, prime()),
    {
        if self.value == 0 {
            return None;
        }
        proof {
            lemma_m61_prime();
            lemma_canonical(self.value as int, prime());
            lemma_inverse(self.value as int, prime());
        }
        let value: u64 = inverse_mod(self.value, M61);
        proof {
            lemma_inverse_unique(
                self.value as int,
                value as int,
                inverse(self.value as int, prime()),
                prime(),
            );
        }
        Some(M61Field { value })
    }

    /// Computes self^exp using binary exponentiation.
    pub fn pow(self, exp: u64) -> (r: M61Field)
        requires
            self.wf(),
        ensures
            r.wf(),
            r == element(pow(self.value as int, exp as nat)),
    {
        let mut rest: u64 = exp;
        let mut base = self;
        let mut result = M61Field::one();
        let ghost p = prime();
        let ghost want = pow(self.value as int, exp as nat);
        assert(1 * want == want);
        while rest > 0
            invariant
                p == prime(),
                base.wf(),
                result.wf(),
                same(result.value as int * pow(base.value as int, rest as nat), want, p),
            decreases rest,
        {
            let ghost (x, y, e) = (result.value as int, base.value as int, rest as nat);
            let ghost h = (rest / 2) as nat;
            proof {
                lemma_pow_adds(y, 1, 1);
                lemma_pow1(y);
                lemma_pow_multiplies(y, 2, h);
                lemma_inside(y * y, 0, p);
                lemma_same_pow((y * y) % p, y * y, h, p);
                lemma_pow_adds(y, 1, 2 * h);
                vstd::arithmetic::div_mod::lemma_mod_bound(y * y, p);
                vstd::arithmetic::div_mod::lemma_mod_bound(x * y, p);
            }
            if rest % 2 == 1 {
                result = result * base;
                proof {
                    assert(e == 1 + 2 * h);
                    let q = pow((y * y) % p, h);
                    assert(x * (y * pow(y, 2 * h)) == (x * y) * pow(y, 2 * h))
                        by (nonlinear_arith);
                    lemma_inside(x * y, 0, p);
                    lemma_same((x * y) % p, x * y, q, pow(y, 2 * h), p);
                }
            } else {
                proof {
                    let q = pow((y * y) % p, h);
                    lemma_same(x, x, q, pow(y, 2 * h), p);
                }
            }
            base = base * base;
            rest = rest / 2;
        }
        proof {
            lemma_pow0(base.value as int);
            assert(result.value * 1 == result.value);
            lemma_canonical(result.value as int, p);
        }
        result
    }

    /// Returns a primitive root of unity of order 2^k.
    ///
    /// For M61, the multiplicative group has order M61 - 1 = 2^61 - 2 = 2 * (2^60 - 1).
    /// Since 2^60 - 1 is odd, the only power of 2 dividing the group order is 2^1.
    /// This means M61 only supports 2nd roots of unity (1 and -1).
    ///
    /// Returns None if k > 1.
    pub fn primitive_root_of_unity(k: u32) -> (r: Option<M61Field>)
        ensures
            r == if k == 0 {
                Some(M61Field { value: 1 })
            } else if k == 1 {
                Some(element(-1))
            } else {
                None
            },
            r matches Some(x) ==> x.wf(),
    {
        proof {
            lemma_multiple(-1, 1, prime());
            lemma_canonical(prime() - 1, prime());
        }
        match k {
            0 => Some(M61Field::one()),
            1 => Some(M61Field { value: M61 - 1 }),  // -1 mod M61
            _ => None,
        }
    }

    /// Returns the maximum NTT size supported (as a power of 2).
    ///
    /// For M61, this is only 2^1 = 2 since M61 - 1 = 2 * (odd).
    /// M61 is NOT NTT-friendly for larger transforms.
    pub fn max_ntt_log_size() -> (r: u32)
        ensures
            r == 1,
    {
        1
    }

    /// Draws an element: words are drawn until one is accepted.
    ///
    /// Use rejection sampling to avoid bias
    pub fn random(rng: &mut SeededRng) -> (r: M61Field)
        requires
            yields_element(*old(rng)),
        ensures
            r.wf(),
            forall|n: nat|
                (#[trigger] element_drawn(*old(rng), n)).0 is Some ==> (Some(r), *final(rng))
                    == element_drawn(*old(rng), n),
    {
        let ghost found = choose|n: nat| (#[trigger] element_drawn(*old(rng), n)).0 is Some;
        let ghost mut left: nat = found;
        loop
            invariant
                element_drawn(*rng, left) == element_drawn(*old(rng), found),
                element_drawn(*rng, left).0 is Some,
            decreases left,
        {
            let word: u64 = rng.next_u64();
            match M61Field::accept(word) {
                Some(element) => {
                    proof {
                        assert forall|n: nat|
                            (#[trigger] element_drawn(*old(rng), n)).0 is Some implies (Some(
                            element,
                        ), *rng) == element_drawn(*old(rng), n) by {
                            lemma_one_element(*old(rng), found, n);
                        }
                    }
                    return element;
                },
                None => {},
            }
            proof {
                left = (left - 1) as nat;
            }
        }
    }

    /// Draws an element if one of the next `tries` words is accepted; otherwise nothing is drawn.
    pub fn random_within(rng: &mut SeededRng, tries: usize) -> (r: Option<M61Field>)
        ensures
            (r, *final(rng)) == if element_drawn(*old(rng), tries as nat).0 is Some {
                element_drawn(*old(rng), tries as nat)
            } else {
                (None, *old(rng))
            },
            r matches Some(x) ==> x.wf(),
    {
        let mut ahead = *rng;
        for i in 0..tries
            invariant
                *rng == *old(rng),
                element_drawn(ahead, (tries - i) as nat) == element_drawn(
                    *old(rng),
                    tries as nat,
                ),
        {
            let word: u64 = ahead.next_u64();
            if M61Field::accept(word).is_some() {
                return Some(M61Field::random(rng));
            }
        }
        None
    }

    /// The element that a word stands for, masked to 61 bits, if it is in range.
    pub fn accept(word: u64) -> (r: Option<M61Field>)
        ensures
            r == accepted(word),
    {
        let value: u64 = word % 0x2000_0000_0000_0000;  // Mask to 61 bits
        if value < M61 {
            Some(M61Field { value })
        } else {
            None
        }
    }

    /// The bytes of the element, the least significant one first.
    pub fn to_le_bytes(&self) -> (r: Vec<u8>)
        ensures
            r.len() == 8,
            le_number(r@) == self.value,
    {
        let bytes: [u8; 8] = to_le_bytes(self.value);
        let mut out: Vec<u8> = Vec::new();
        out.extend_from_slice(bytes.as_slice());
        assert(out@ =~= bytes@);
        out
    }

    /// The bytes of the element, the most significant one first.
    pub fn to_be_bytes(&self) -> (r: Vec<u8>)
        ensures
            r.len() == 8,
            le_number(r@.reverse()) == self.value,
    {
        let bytes: [u8; 8] = to_be_bytes(self.value);
        let mut out: Vec<u8> = Vec::new();
        out.extend_from_slice(bytes.as_slice());
        assert(out@ =~= bytes@);
        out
    }

    /// The bytes of the element, the least significant one first.
    pub fn to_bytes(self) -> (r: [u8; 8])
        ensures
            le_number(r@) == self.value,
    {
        to_le_bytes(self.value)
    }

    /// The element that bytes stand for, the least significant one first, if it is in range.
    pub fn try_from(value: [u8; 8]) -> (r: Result<M61Field, M61Error>)
        ensures
            r == decoded(value@),
            r matches Ok(x) ==> x.wf(),
    {
        let n: u64 = from_le_bytes(value);
        if n >= M61 {
            return Err(M61Error::OutOfRange(n));
        }
        Ok(M61Field { value: n })
    }

    /// The bit at an index, counted from the least significant one.
    pub fn get_bit_lsb0(&self, index: usize) -> (r: bool)
        ensures
            r == (index < 61 && bit_at(self.value as nat, index as nat)),
    {
        if index >= 61 {
            false
        } else {
            get_bit(self.value, index)
        }
    }

    /// The bit at an index, counted from the most significant one.
    pub fn get_bit_msb0(&self, index: usize) -> (r: bool)
        ensures
            r == (index < 61 && bit_at(self.value as nat, (60 - index) as nat)),
    {
        if index >= 61 {
            false
        } else {
            get_bit(self.value, 60 - index)
        }
    }

    /// The element that the first 61 bits stand for, the least significant one first.
    pub fn from_lsb0_iter(bits: &[bool]) -> (r: M61Field)
        ensures
            r.wf(),
            r == from_lsb0_bits(bits@),
    {
        let n: usize = if bits.len() < 61 {
            bits.len()
        } else {
            61
        };
        let value: u64 = from_lsb0(vstd::slice::slice_subrange(bits, 0, n));
        assert(bits@.subrange(0, n as int) =~= bits@.take(n as int));
        M61Field::new(value)
    }

    /// The element that the first 61 bits stand for, the most significant one first; bits that
    /// are missing are zero.
    pub fn from_msb0_iter(bits: &[bool]) -> (r: M61Field)
        ensures
            r.wf(),
            r == from_msb0_bits(bits@),
    {
        let n: usize = if bits.len() < 61 {
            bits.len()
        } else {
            61
        };
        let value: u64 = from_msb0(vstd::slice::slice_subrange(bits, 0, n), 61);
        assert(bits@.subrange(0, n as int) =~= bits@.take(n as int));
        M61Field::new(value)
    }
}

/// The powers of two next to the prime.
proof fn lemma_two_pow_61()
    ensures
        pow2(60) == 0x1000_0000_0000_0000,
        pow2(61) == 0x2000_0000_0000_0000,
{
    lemma2_to64();
    lemma_pow2_adds(32, 28);
    lemma_pow2_adds(32, 29);
}

/// Powers of two repeat after 61 steps.
proof fn lemma_two_pow(e: nat)
    ensures
        same(pow2(e) as int, pow2(e % 61) as int, prime()),
    decreases e,
{
    if e >= 61 {
        let k = (e - 61) as nat;
        lemma_two_pow(k);
        lemma_pow2_adds(61, k);
        lemma2_to64();
        lemma_two_pow_61();
        let x = pow2(k) as int;
        let (q, p) = (pow2(61) as int, prime());
        assert(q * x == x + p * x) by (nonlinear_arith)
            requires
                q == 1 + p,
        ;
        lemma_multiple(x, x, prime());
        assert(e % 61 == k % 61);
    }
}

impl Default for M61Field {
    fn default() -> (r: M61Field)
        ensures
            r.value == 0,
    {
        M61Field { value: 0 }
    }
}

impl std::ops::Add for M61Field {
    type Output = M61Field;

    fn add(self, rhs: M61Field) -> (r: M61Field) {
        let sum: u128 = self.value as u128 + rhs.value as u128;
        M61Field { value: M61Field::reduce(sum) }
    }
}

impl vstd::std_specs::ops::AddSpecImpl for M61Field {
    open spec fn obeys_add_spec() -> bool {
        true
    }

    open spec fn add_req(self, rhs: M61Field) -> bool {
        self.wf() && rhs.wf()
    }

    open spec fn add_spec(self, rhs: M61Field) -> M61Field {
        self.plus(rhs)
    }
}

impl std::ops::Sub for M61Field {
    type Output = M61Field;

    fn sub(self, rhs: M61Field) -> (r: M61Field) {
        // Add M61 to avoid underflow, then reduce
        let diff: u128 = self.value as u128 + M61 as u128 - rhs.value as u128;
        proof {
            lemma_multiple(self.value as int - rhs.value as int, 1, prime());
        }
        M61Field { value: M61Field::reduce(diff) }
    }
}

impl vstd::std_specs::ops::SubSpecImpl for M61Field {
    open spec fn obeys_sub_spec() -> bool {
        true
    }

    open spec fn sub_req(self, rhs: M61Field) -> bool {
        self.wf() && rhs.wf()
    }

    open spec fn sub_spec(self, rhs: M61Field) -> M61Field {
        self.minus(rhs)
    }
}

impl std::ops::Mul for M61Field {
    type Output = M61Field;

    fn mul(self, rhs: M61Field) -> (r: M61Field) {
        assert(self.value * rhs.value <= 0x1FFF_FFFF_FFFF_FFFF * 0x1FFF_FFFF_FFFF_FFFF)
            by (nonlinear_arith)
            requires
                0 <= self.value <= 0x1FFF_FFFF_FFFF_FFFF,
                0 <= rhs.value <= 0x1FFF_FFFF_FFFF_FFFF,
        ;
        let prod: u128 = self.value as u128 * rhs.value as u128;
        M61Field { value: M61Field::reduce(prod) }
    }
}

impl vstd::std_specs::ops::MulSpecImpl for M61Field {
    open spec fn obeys_mul_spec() -> bool {
        true
    }

    open spec fn mul_req(self, rhs: M61Field) -> bool {
        self.wf() && rhs.wf()
    }

    open spec fn mul_spec(self, rhs: M61Field) -> M61Field {
        self.times(rhs)
    }
}

impl std::ops::Neg for M61Field {
    type Output = M61Field;

    fn neg(self) -> (r: M61Field) {
        proof {
            lemma_multiple(-(self.value as int), 1, prime());
            lemma_canonical(0, prime());
            if self.value > 0 {
                lemma_canonical(M61 - self.value, prime());
            }
        }
        if self.value == 0 {
            self
        } else {
            M61Field { value: M61 - self.value }
        }
    }
}

impl vstd::std_specs::ops::NegSpecImpl for M61Field {
    open spec fn obeys_neg_spec() -> bool {
        true
    }

    open spec fn neg_req(self) -> bool {
        self.wf()
    }

    open spec fn neg_spec(self) -> M61Field {
        self.negated()
    }
}

/// Every element is drawn: its own value is accepted as it, and so is every word with the same 61
/// least significant bits. Only words whose 61 bits are all set are rejected.
pub proof fn lemma_accepted(x: M61Field, word: u64)
    requires
        x.wf(),
    ensures
        accepted(x.value) == Some(x),
        (accepted(word) == Some(x)) == (word as int % 0x2000_0000_0000_0000 == x.value),
        accepted(word) is None <==> word as int % 0x2000_0000_0000_0000 == 0x1fff_ffff_ffff_ffff,
{
}

/// The element that is drawn is that of the first word that is accepted.
pub proof fn lemma_first_accepted(rng: SeededRng, n: nat)
    ensures
        ({
            let (word, rest) = rng.word_drawn();
            &&& element_drawn(rng, 0) == (None::<M61Field>, rng)
            &&& element_drawn(rng, n + 1) == if accepted(word) is Some {
                (accepted(word), rest)
            } else {
                element_drawn(rest, n)
            }
        }),
{
}

} // verus!
