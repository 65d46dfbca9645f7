//! Numbers as bytes and as bits.

use vstd::arithmetic::power2::{lemma2_to64, lemma_pow2_pos, lemma_pow2_unfold, pow2};
use vstd::prelude::*;

verus! {

/// The number that bytes stand for, the least significant byte first.
pub open spec fn le_number(bytes: Seq<u8>) -> nat
    decreases bytes.len(),
{
    if bytes.len() == 0 {
        0
    } else {
        bytes[0] as nat + 256 * le_number(bytes.skip(1))
    }
}

/// The number that bits stand for, the least significant bit first.
pub open spec fn lsb0_number(bits: Seq<bool>) -> nat
    decreases bits.len(),
{
    if bits.len() == 0 {
        0
    } else {
        bit_number(bits[0]) + 2 * lsb0_number(bits.skip(1))
    }
}

/// The number that a bit stands for.
pub open spec fn bit_number(bit: bool) -> nat {
    if bit {
        1
    } else {
        0
    }
}

/// The bit of a number at a position, counted from the least significant one.
pub open spec fn bit_at(x: nat, i: nat) -> bool {
    (x / pow2(i)) % 2 == 1
}

/// The first `n` bits of a number, the least significant one first.
pub open spec fn bits_of(x: nat, n: nat) -> Seq<bool> {
    Seq::new(n, |i: int| bit_at(x, i as nat))
}

/// One byte more at the end stands for the bytes times its place.
proof fn lemma_le_push(bytes: Seq<u8>, byte: u8)
    ensures
        le_number(bytes.push(byte)) == le_number(bytes) + pow2(8 * bytes.len()) * byte,
    decreases bytes.len(),
{
    lemma2_to64();
    let all = bytes.push(byte);
    if bytes.len() == 0 {
        assert(all.skip(1) =~= Seq::<u8>::empty());
        let one = pow2(8 * bytes.len()) as int;
        assert(8 * bytes.len() == 0 && pow2(0) == 1);
        assert(one * byte == byte) by (nonlinear_arith)
            requires
                one == 1,
        ;
        reveal_with_fuel(le_number, 2);
    } else {
        assert(all.skip(1) =~= bytes.skip(1).push(byte));
        lemma_le_push(bytes.skip(1), byte);
        let n = bytes.len();
        vstd::arithmetic::power2::lemma_pow2_adds(8, (8 * n - 8) as nat);
        assert(pow2(8) == 256);
        assert(8 * bytes.skip(1).len() == (8 * n - 8) as nat);
        assert(8 + (8 * n - 8) as nat == 8 * n);
        let (x, y) = (pow2((8 * n - 8) as nat) as int, byte as int);
        assert(256 * (x * y) == (256 * x) * y) by (nonlinear_arith);
    }
}

/// The bytes of a number, the least significant one first.
pub fn to_le_bytes(x: u64) -> (r: [u8; 8])
    ensures
        le_number(r@) == x,
{
    let mut bytes: [u8; 8] = [0u8; 8];
    let mut rest: u64 = x;
    proof {
        assert(bytes@.take(0) =~= Seq::<u8>::empty());
        lemma2_to64();
        let one = pow2(0) as int;
        assert(one * x == x) by (nonlinear_arith)
            requires
                one == 1,
        ;
        assert(pow2(64) > x);
    }
    for i in 0..8usize
        invariant
            le_number(bytes@.take(i as int)) + pow2((8 * i) as nat) * rest == x,
            i == 8 ==> rest == 0,
            rest < pow2((64 - 8 * i) as nat),
    {
        let byte: u8 = (rest % 256) as u8;
        let ghost before = bytes@;
        bytes[i] = byte;
        proof {
            assert(bytes@.take(i + 1) =~= before.take(i as int).push(byte));
            lemma_le_push(before.take(i as int), byte);
            vstd::arithmetic::power2::lemma_pow2_adds(8, (8 * i) as nat);
            lemma2_to64();
            let (p, q) = (pow2((8 * i) as nat) as int, rest as int / 256);
            assert(p * (rest as int) == p * (byte as int) + (256 * p) * q) by (nonlinear_arith)
                requires
                    rest as int == 256 * q + byte as int,
            ;
            vstd::arithmetic::power2::lemma_pow2_adds(8, (64 - 8 * (i + 1)) as nat);
        }
        rest = rest / 256;
    }
    assert(bytes@.take(8) =~= bytes@);
    bytes
}

/// The bytes of a number, the most significant one first.
pub fn to_be_bytes(x: u64) -> (r: [u8; 8])
    ensures
        le_number(r@.reverse()) == x,
{
    let b: [u8; 8] = to_le_bytes(x);
    let r: [u8; 8] = [b[7], b[6], b[5], b[4], b[3], b[2], b[1], b[0]];
    assert(r@.reverse() =~= b@);
    r
}

/// Eight bytes stand for a number of 64 bits.
proof fn lemma_le_bound(bytes: Seq<u8>)
    ensures
        le_number(bytes) < pow2(8 * bytes.len()),
    decreases bytes.len(),
{
    lemma2_to64();
    if bytes.len() > 0 {
        lemma_le_bound(bytes.skip(1));
        vstd::arithmetic::power2::lemma_pow2_adds(8, (8 * bytes.len() - 8) as nat);
    }
}

/// The number that bytes stand for, the least significant byte first.
pub fn from_le_bytes(bytes: [u8; 8]) -> (r: u64)
    ensures
        r == le_number(bytes@),
{
    let mut x: u64 = 0;
    assert(bytes@.skip(8) =~= Seq::<u8>::empty());
    proof {
        lemma2_to64();
    }
    for k in 0..8usize
        invariant
            x == le_number(bytes@.skip(8 - k)),
    {
        let i: usize = 7 - k;
        proof {
            let rest = bytes@.skip(i as int);
            assert(rest.skip(1) =~= bytes@.skip(8 - k));
            lemma_le_bound(rest);
            lemma2_to64();
            if k < 7 {
                vstd::arithmetic::power2::lemma_pow2_strictly_increases(
                    (8 * (k + 1)) as nat,
                    64,
                );
            }
        }
        x = bytes[i] as u64 + 256 * x;
    }
    assert(bytes@.skip(0) =~= bytes@);
    x
}

/// Bytes are the only ones that stand for their number.
pub proof fn lemma_le_bytes_unique(a: Seq<u8>, b: Seq<u8>)
    requires
        a.len() == b.len(),
        le_number(a) == le_number(b),
    ensures
        a == b,
    decreases a.len(),
{
    if a.len() > 0 {
        lemma_le_bytes_unique(a.skip(1), b.skip(1));
        assert(a =~= seq![a[0]] + a.skip(1));
        assert(b =~= seq![b[0]] + b.skip(1));
    } else {
        assert(a =~= b);
    }
}

/// The bit of a number at a position.
pub fn get_bit(x: u64, index: usize) -> (r: bool)
    requires
        index < 64,
    ensures
        r == bit_at(x as nat, index as nat),
{
    let mut rest: u64 = x;
    proof {
        lemma2_to64();
        vstd::arithmetic::div_mod::lemma_div_basics_2(x as int);
    }
    for i in 0..index
        invariant
            rest as nat == x as nat / pow2(i as nat),
    {
        proof {
            lemma_pow2_pos(i as nat);
            lemma_pow2_unfold((i + 1) as nat);
            vstd::arithmetic::div_mod::lemma_div_denominator(
                x as int,
                pow2(i as nat) as int,
                2,
            );
            assert(pow2(i as nat) * 2 == pow2((i + 1) as nat));
        }
        rest = rest / 2;
    }
    rest % 2 == 1
}

/// Bits stand for a number that fits in as many bits.
pub proof fn lemma_lsb0_bound(bits: Seq<bool>)
    ensures
        lsb0_number(bits) < pow2(bits.len()),
    decreases bits.len(),
{
    lemma2_to64();
    if bits.len() > 0 {
        lemma_lsb0_bound(bits.skip(1));
        lemma_pow2_unfold(bits.len());
    }
}

/// The bits of a number stand for the number.
pub proof fn lemma_bits_of(x: nat, n: nat)
    requires
        x < pow2(n),
    ensures
        lsb0_number(bits_of(x, n)) == x,
    decreases n,
{
    lemma2_to64();
    if n > 0 {
        lemma_pow2_unfold(n);
        lemma_bits_of(x / 2, (n - 1) as nat);
        let bits = bits_of(x, n);
        assert(bits.skip(1) =~= bits_of(x / 2, (n - 1) as nat)) by {
            assert forall|i: int| 0 <= i < n - 1 implies bits.skip(1)[i] == bits_of(
                x / 2,
                (n - 1) as nat,
            )[i] by {
                lemma_pow2_pos(i as nat);
                lemma_pow2_unfold((i + 1) as nat);
                vstd::arithmetic::div_mod::lemma_div_denominator(
                    x as int,
                    2,
                    pow2(i as nat) as int,
                );
            }
        }
        assert(pow2(0) == 1);
        vstd::arithmetic::div_mod::lemma_div_basics_2(x as int);
    }
}

/// The number that bits stand for, the least significant bit first.
pub fn from_lsb0(bits: &[bool]) -> (r: u64)
    requires
        bits.len() <= 64,
    ensures
        r == lsb0_number(bits@),
{
    let mut x: u64 = 0;
    let n: usize = bits.len();
    assert(bits@.skip(n as int) =~= Seq::<bool>::empty());
    for k in 0..n
        invariant
            n == bits.len(),
            n <= 64,
            x == lsb0_number(bits@.skip(n - k)),
    {
        let i: usize = n - 1 - k;
        proof {
            let rest = bits@.skip(i as int);
            assert(rest.skip(1) =~= bits@.skip(n - k));
            lemma_lsb0_bound(rest);
            lemma2_to64();
            if k + 1 < 64 {
                vstd::arithmetic::power2::lemma_pow2_strictly_increases((k + 1) as nat, 64);
            }
        }
        x = if bits[i] {
            1
        } else {
            0
        } + 2 * x;
    }
    assert(bits@.skip(0) =~= bits@);
    x
}

/// The bits, filled up with zeros to a width, in reverse order.
pub open spec fn msb0_padded(bits: Seq<bool>, width: nat) -> Seq<bool> {
    Seq::new(width, |i: int| width - 1 - i < bits.len() && bits[width - 1 - i])
}

/// The number that bits stand for, the most significant bit of a width first; bits that are missing
/// are zero.
pub fn from_msb0(bits: &[bool], width: usize) -> (r: u64)
    requires
        bits.len() <= width <= 64,
    ensures
        r == lsb0_number(msb0_padded(bits@, width as nat)),
{
    let mut padded: Vec<bool> = Vec::new();
    for i in 0..width
        invariant
            bits.len() <= width <= 64,
            padded@ =~= msb0_padded(bits@, width as nat).take(i as int),
    {
        let at: usize = width - 1 - i;
        padded.push(at < bits.len() && bits[at]);
    }
    assert(padded@ =~= msb0_padded(bits@, width as nat));
    from_lsb0(padded.as_slice())
}

} // verus!
