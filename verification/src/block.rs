//! 128-bit blocks: wire labels, ciphertexts, tweaks and field elements.

use vstd::prelude::*;

verus! {

/// A 128-bit block.
///
/// Byte 0 holds the 8 least significant bits, so bit 0 of byte 0 is the least significant bit of
/// the block.
#[derive(Clone, Copy, Debug, PartialEq, Eq, Hash, Structural)]
pub struct Block {
    /// The bits of the block, byte 0 least significant.
    pub bits: u128,
}

/// Byte `i` of an integer, counted from the least significant one.
pub open spec fn byte_of(x: u128, i: int) -> u8 {
    (x >> ((8 * i) as u128)) as u8
}

/// The block whose bytes are `s`.
pub open spec fn block_of(s: Seq<u8>) -> Block {
    Block {
        bits: (s[0] as u128) | ((s[1] as u128) << 8) | ((s[2] as u128) << 16) | ((s[3] as u128)
            << 24) | ((s[4] as u128) << 32) | ((s[5] as u128) << 40) | ((s[6] as u128) << 48) | ((
        s[7] as u128) << 56) | ((s[8] as u128) << 64) | ((s[9] as u128) << 72) | ((s[10] as u128)
            << 80) | ((s[11] as u128) << 88) | ((s[12] as u128) << 96) | ((s[13] as u128) << 104)
            | ((s[14] as u128) << 112) | ((s[15] as u128) << 120),
    }
}

/// The tweak that stands for a gate id: its 16 bytes, most significant first.
pub open spec fn tweak_of(gid: u128) -> Block {
    block_of(Seq::new(16, |i: int| byte_of(gid, 15 - i)))
}

impl Block {
    /// The block of zeros.
    pub fn zero() -> (r: Block)
        ensures
            r == (Block { bits: 0 }),
    {
        Block { bits: 0 }
    }

    /// The bytes of the block.
    pub open spec fn bytes(self) -> Seq<u8> {
        Seq::new(16, |i: int| byte_of(self.bits, i))
    }

    /// Bitwise exclusive or.
    pub open spec fn xor(self, other: Block) -> Block {
        Block { bits: self.bits ^ other.bits }
    }

    /// The block if `bit` is set, else zero.
    pub open spec fn times(self, bit: bool) -> Block {
        if bit {
            self
        } else {
            Block { bits: 0 }
        }
    }

    /// The least significant bit.
    pub open spec fn low_bit(self) -> bool {
        self.bits & 1 == 1
    }

    /// The block with its least significant bit set to `bit`.
    pub open spec fn with_low_bit(self, bit: bool) -> Block {
        Block { bits: if bit { self.bits | 1 } else { self.bits & !1u128 } }
    }

    /// Creates a block from its bytes.
    pub fn new(bytes: [u8; 16]) -> (r: Block)
        ensures
            r == block_of(bytes@),
    {
        Block {
            bits: (bytes[0] as u128) | ((bytes[1] as u128) << 8) | ((bytes[2] as u128) << 16) | ((
            bytes[3] as u128) << 24) | ((bytes[4] as u128) << 32) | ((bytes[5] as u128) << 40) | ((
            bytes[6] as u128) << 48) | ((bytes[7] as u128) << 56) | ((bytes[8] as u128) << 64) | ((
            bytes[9] as u128) << 72) | ((bytes[10] as u128) << 80) | ((bytes[11] as u128) << 88)
                | ((bytes[12] as u128) << 96) | ((bytes[13] as u128) << 104) | ((bytes[14] as u128)
                << 112) | ((bytes[15] as u128) << 120),
        }
    }

    /// The bytes of the block.
    pub fn to_bytes(&self) -> (r: [u8; 16])
        ensures
            r@ == self.bytes(),
    {
        let x: u128 = self.bits;
        let r: [u8; 16] = [
            x as u8,
            (x >> 8) as u8,
            (x >> 16) as u8,
            (x >> 24) as u8,
            (x >> 32) as u8,
            (x >> 40) as u8,
            (x >> 48) as u8,
            (x >> 56) as u8,
            (x >> 64) as u8,
            (x >> 72) as u8,
            (x >> 80) as u8,
            (x >> 88) as u8,
            (x >> 96) as u8,
            (x >> 104) as u8,
            (x >> 112) as u8,
            (x >> 120) as u8,
        ];
        proof {
            lemma_no_shift(x);
        }
        assert(r@ =~= self.bytes());
        r
    }

    /// The tweak that stands for a gate id: its 16 bytes, most significant first.
    pub fn tweak(gid: u128) -> (r: Block)
        ensures
            r == tweak_of(gid),
    {
        let bytes: [u8; 16] = [
            (gid >> 120) as u8,
            (gid >> 112) as u8,
            (gid >> 104) as u8,
            (gid >> 96) as u8,
            (gid >> 88) as u8,
            (gid >> 80) as u8,
            (gid >> 72) as u8,
            (gid >> 64) as u8,
            (gid >> 56) as u8,
            (gid >> 48) as u8,
            (gid >> 40) as u8,
            (gid >> 32) as u8,
            (gid >> 24) as u8,
            (gid >> 16) as u8,
            (gid >> 8) as u8,
            gid as u8,
        ];
        proof {
            lemma_no_shift(gid);
        }
        assert(bytes@ =~= Seq::new(16, |i: int| byte_of(gid, 15 - i)));
        Block::new(bytes)
    }

    /// The least significant bit.
    pub fn lsb(&self) -> (r: bool)
        ensures
            r == self.low_bit(),
    {
        self.bits & 1 == 1
    }

    /// Sets the least significant bit.
    pub fn set_lsb(&mut self, bit: bool)
        ensures
            *final(self) == old(self).with_low_bit(bit),
    {
        self.bits = if bit {
            self.bits | 1
        } else {
            self.bits & !1u128
        };
    }

    /// The block if `bit` is set, else zero.
    pub fn mul_bool(&self, bit: bool) -> (r: Block)
        ensures
            r == self.times(bit),
    {
        if bit {
            *self
        } else {
            Block::zero()
        }
    }
}

impl Default for Block {
    fn default() -> (r: Block)
        ensures
            r == (Block { bits: 0 }),
    {
        Block::zero()
    }
}

impl std::ops::BitXor for Block {
    type Output = Block;

    fn bitxor(self, rhs: Block) -> (r: Block) {
        Block { bits: self.bits ^ rhs.bits }
    }
}

impl vstd::std_specs::ops::BitXorSpecImpl for Block {
    open spec fn obeys_bitxor_spec() -> bool {
        true
    }

    open spec fn bitxor_req(self, rhs: Block) -> bool {
        true
    }

    open spec fn bitxor_spec(self, rhs: Block) -> Block {
        self.xor(rhs)
    }
}

impl From<[u8; 16]> for Block {
    fn from(bytes: [u8; 16]) -> (r: Block) {
        Block::new(bytes)
    }
}

impl vstd::std_specs::convert::FromSpecImpl<[u8; 16]> for Block {
    open spec fn obeys_from_spec() -> bool {
        true
    }

    open spec fn from_spec(bytes: [u8; 16]) -> Block {
        block_of(bytes@)
    }
}

/// Reading back the bytes of a block gives the block.
pub proof fn lemma_bytes_round_trip(b: Block)
    ensures
        block_of(b.bytes()) == b,
{
    let x = b.bits;
    assert(x == ((x >> 0) as u8) as u128 | (((x >> 8) as u8) as u128) << 8 | (((x >> 16)
        as u8) as u128) << 16 | (((x >> 24) as u8) as u128) << 24 | (((x >> 32) as u8) as u128)
        << 32 | (((x >> 40) as u8) as u128) << 40 | (((x >> 48) as u8) as u128) << 48 | (((x >> 56)
        as u8) as u128) << 56 | (((x >> 64) as u8) as u128) << 64 | (((x >> 72) as u8) as u128)
        << 72 | (((x >> 80) as u8) as u128) << 80 | (((x >> 88) as u8) as u128) << 88 | (((x >> 96)
        as u8) as u128) << 96 | (((x >> 104) as u8) as u128) << 104 | (((x >> 112) as u8) as u128)
        << 112 | (((x >> 120) as u8) as u128) << 120) by (bit_vector);
}

/// Exclusive or is commutative and associative, zero is neutral and every block its own inverse.
pub proof fn lemma_xor(a: Block, b: Block, c: Block)
    ensures
        a.xor(b) == b.xor(a),
        a.xor(b).xor(c) == a.xor(b.xor(c)),
        a.xor(Block { bits: 0 }) == a,
        a.xor(a) == (Block { bits: 0 }),
        a.xor(b).xor(b) == a,
{
    let (x, y, z) = (a.bits, b.bits, c.bits);
    assert(x ^ y == y ^ x && (x ^ y) ^ z == x ^ (y ^ z) && x ^ 0 == x && x ^ x == 0 && (x ^ y) ^ y
        == x) by (bit_vector);
}

/// The sum of two multiples of a block.
pub proof fn lemma_xor_times(d: Block, a: bool, b: bool)
    ensures
        d.times(a).xor(d.times(b)) == d.times(a != b),
{
    lemma_xor(d, d, d);
    lemma_xor(Block { bits: 0 }, d, d);
}

/// Two labels with their offsets add up to the sum of the labels and of the offsets.
pub proof fn lemma_xor_offset(x: Block, y: Block, d: Block, a: bool, b: bool)
    ensures
        x.xor(d.times(a)).xor(y.xor(d.times(b))) == x.xor(y).xor(d.times(a != b)),
{
    lemma_xor_times(d, a, b);
    let (da, db) = (d.times(a), d.times(b));
    lemma_xor(x, da, y.xor(db));
    lemma_xor(da, y, db);
    lemma_xor(y, da, db);
    lemma_xor(x, y, da.xor(db));
}

/// Adding a block whose least significant bit is set flips the least significant bit.
pub proof fn lemma_low_bit(x: Block, d: Block)
    ensures
        x.xor(d).low_bit() == (x.low_bit() != d.low_bit()),
        (Block { bits: 0 }).low_bit() == false,
        (Block { bits: 1 }).low_bit() == true,
{
    let (a, b) = (x.bits, d.bits);
    assert(((a ^ b) & 1 == 1) == ((a & 1 == 1) != (b & 1 == 1)) && 0u128 & 1 == 0 && 1u128 & 1 == 1)
        by (bit_vector);
}

/// The least significant bit that was set last is the one that stays.
pub proof fn lemma_with_low_bit(x: Block, a: bool, b: bool)
    ensures
        x.with_low_bit(a).low_bit() == a,
        x.with_low_bit(a).with_low_bit(b) == x.with_low_bit(b),
{
    let v = x.bits;
    assert((v | 1) & 1 == 1 && (v & !1u128) & 1 == 0 && (v | 1) | 1 == v | 1 && (v | 1) & !1u128
        == v & !1u128 && (v & !1u128) | 1 == v | 1 && (v & !1u128) & !1u128 == v & !1u128)
        by (bit_vector);
}

/// The bytes of the block with given bytes are those bytes.
pub proof fn lemma_bytes_of(s: Seq<u8>)
    requires
        s.len() == 16,
    ensures
        block_of(s).bytes() == s,
{
    let x = block_of(s).bits;
    lemma_packed(
        s[0],
        s[1],
        s[2],
        s[3],
        s[4],
        s[5],
        s[6],
        s[7],
        s[8],
        s[9],
        s[10],
        s[11],
        s[12],
        s[13],
        s[14],
        s[15],
    );
    assert(block_of(s).bytes() =~= s);
}

/// Sixteen bytes side by side can be told apart.
proof fn lemma_packed(
    b0: u8,
    b1: u8,
    b2: u8,
    b3: u8,
    b4: u8,
    b5: u8,
    b6: u8,
    b7: u8,
    b8: u8,
    b9: u8,
    b10: u8,
    b11: u8,
    b12: u8,
    b13: u8,
    b14: u8,
    b15: u8,
)
    by (bit_vector)
    ensures
        ({
            let x = (b0 as u128) | ((b1 as u128) << 8) | ((b2 as u128) << 16) | ((b3 as u128) << 24) | ((b4 as u128) << 32) | ((b5 as u128) << 40) | ((b6 as u128) << 48) | ((b7 as u128) << 56) | ((b8 as u128) << 64) | ((b9 as u128) << 72) | ((b10 as u128) << 80) | ((b11 as u128) << 88) | ((b12 as u128) << 96) | ((b13 as u128) << 104) | ((b14 as u128) << 112) | ((b15 as u128) << 120);
            &&& (x >> 0) as u8 == b0
            &&& (x >> 8) as u8 == b1
            &&& (x >> 16) as u8 == b2
            &&& (x >> 24) as u8 == b3
            &&& (x >> 32) as u8 == b4
            &&& (x >> 40) as u8 == b5
            &&& (x >> 48) as u8 == b6
            &&& (x >> 56) as u8 == b7
            &&& (x >> 64) as u8 == b8
            &&& (x >> 72) as u8 == b9
            &&& (x >> 80) as u8 == b10
            &&& (x >> 88) as u8 == b11
            &&& (x >> 96) as u8 == b12
            &&& (x >> 104) as u8 == b13
            &&& (x >> 112) as u8 == b14
            &&& (x >> 120) as u8 == b15
        }),
{
}

/// A tweak holds the bytes of its gate id, the most significant one first, and no two gate ids have
/// one tweak.
pub proof fn lemma_tweaks(gid: u128, other: u128)
    ensures
        forall|i: int| 0 <= i < 16 ==> #[trigger] tweak_of(gid).bytes()[i] == byte_of(gid, 15 - i),
        tweak_of(gid) == tweak_of(other) ==> gid == other,
{
    let s = Seq::new(16, |i: int| byte_of(gid, 15 - i));
    let t = Seq::new(16, |i: int| byte_of(other, 15 - i));
    lemma_bytes_of(s);
    lemma_bytes_of(t);
    if tweak_of(gid) == tweak_of(other) {
        let (a, b) = (Block { bits: gid }, Block { bits: other });
        assert forall|i: int| 0 <= i < 16 implies a.bytes()[i] == b.bytes()[i] by {
            assert(s[15 - i] == t[15 - i]);
        }
        assert(a.bytes() =~= b.bytes());
        lemma_bytes_round_trip(a);
        lemma_bytes_round_trip(b);
    }
}

/// The least significant bit is the remainder by two; setting it keeps all other bits.
pub proof fn lemma_low_bit_is_parity(x: Block, bit: bool)
    ensures
        x.low_bit() == (x.bits % 2 == 1),
        x.with_low_bit(bit).bits / 2 == x.bits / 2,
        x.with_low_bit(bit).bits % 2 == if bit {
            1int
        } else {
            0
        },
{
    let v = x.bits;
    assert((v & 1 == 1) == (v % 2 == 1) && (v | 1) / 2 == v / 2 && (v & !1u128) / 2 == v / 2 && (v
        | 1) % 2 == 1 && (v & !1u128) % 2 == 0) by (bit_vector);
}

proof fn lemma_no_shift(x: u128)
    ensures
        x >> 0u128 == x,
{
    assert(x >> 0u128 == x) by (bit_vector);
}

/// The first byte of a block holds its least significant bits, the last byte the most significant
/// ones.
pub proof fn lemma_byte_order(b: Block)
    ensures
        b.bytes().len() == 16,
        b.bytes()[0] == b.bits % 256,
        b.bytes()[15] == b.bits / 0x100_0000_0000_0000_0000_0000_0000_0000,
{
    let x = b.bits;
    assert((x >> 0) as u8 == x % 256 && (x >> 120) as u8 == x
        / 0x100_0000_0000_0000_0000_0000_0000_0000) by (bit_vector);
}

} // verus!
