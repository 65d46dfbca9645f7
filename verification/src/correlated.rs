//! Correlated bits: the global correlation, keys and MACs.

use vstd::prelude::*;

use crate::block::Block;
use crate::rng::SeededRng;

verus! {

/// A global correlation.
#[derive(Clone, Copy, Debug, PartialEq, Eq, Structural)]
pub struct Delta {
    /// The value of the correlation.
    pub block: Block,
}

/// The key of an authenticated bit, which is also the label that stands for the bit 0.
#[derive(Clone, Copy, Debug, PartialEq, Eq, Structural)]
pub struct Key {
    /// The value of the key.
    pub block: Block,
}

/// The MAC of an authenticated bit, which is also the active label of a wire.
#[derive(Clone, Copy, Debug, PartialEq, Eq, Structural)]
pub struct Mac {
    /// The value of the MAC.
    pub block: Block,
}

/// The MAC of `bit` under `key` and `delta`.
pub open spec fn mac_of(key: Key, bit: bool, delta: Delta) -> Mac {
    Mac { block: key.block.xor(delta.block.times(bit)) }
}

/// The blocks that the keys hold.
pub open spec fn key_blocks(keys: Seq<Key>) -> Seq<Block> {
    Seq::new(keys.len(), |i: int| keys[i].block)
}

/// The blocks that the MACs hold.
pub open spec fn mac_blocks(macs: Seq<Mac>) -> Seq<Block> {
    Seq::new(macs.len(), |i: int| macs[i].block)
}

/// The MACs of `bits` under `keys` and `delta`.
pub open spec fn macs_of(keys: Seq<Key>, bits: Seq<bool>, delta: Delta) -> Seq<Mac> {
    Seq::new(keys.len(), |i: int| mac_of(keys[i], bits[i], delta))
}

impl Delta {
    /// Creates a correlation from a block, setting its least significant bit.
    pub fn new(block: Block) -> (r: Delta)
        ensures
            r.block == block.with_low_bit(true),
    {
        let mut value = block;
        value.set_lsb(true);
        Delta { block: value }
    }

    /// Draws a correlation, with its least significant bit set.
    pub fn random(rng: &mut SeededRng) -> (r: Delta)
        ensures
            r.block == old(rng).block_drawn().0.with_low_bit(true),
            *final(rng) == old(rng).block_drawn().1,
    {
        Delta::new(rng.next_block())
    }

    /// The correlation with its least significant bit set to `bit`.
    pub fn set_lsb(self, bit: bool) -> (r: Delta)
        ensures
            r.block == self.block.with_low_bit(bit),
    {
        let mut value = self.block;
        value.set_lsb(bit);
        Delta { block: value }
    }

    /// The value of the correlation.
    pub fn as_block(&self) -> (r: &Block)
        ensures
            *r == self.block,
    {
        &self.block
    }

    /// The value of the correlation.
    pub fn into_inner(self) -> (r: Block)
        ensures
            r == self.block,
    {
        self.block
    }

    /// The correlation if `bit` is set, else zero.
    pub fn mul_bool(&self, bit: bool) -> (r: Block)
        ensures
            r == self.block.times(bit),
    {
        self.block.mul_bool(bit)
    }
}

impl Key {
    /// The MAC of `bit` under this key.
    pub fn auth(&self, bit: bool, delta: &Delta) -> (r: Mac)
        ensures
            r == mac_of(*self, bit, *delta),
    {
        Mac { block: self.block ^ delta.mul_bool(bit) }
    }

    /// The value of the key.
    pub fn as_block(&self) -> (r: &Block)
        ensures
            *r == self.block,
    {
        &self.block
    }

    /// The least significant bit of the key.
    pub fn pointer(&self) -> (r: bool)
        ensures
            r == self.block.low_bit(),
    {
        self.block.lsb()
    }

    /// The blocks that the keys hold.
    pub fn as_blocks(keys: &[Key]) -> (r: Vec<Block>)
        ensures
            r@ == key_blocks(keys@),
    {
        let mut out: Vec<Block> = Vec::with_capacity(keys.len());
        for i in 0..keys.len()
            invariant
                out@ == key_blocks(keys@).take(i as int),
        {
            out.push(keys[i].block);
            assert(out@ =~= key_blocks(keys@).take(i + 1));
        }
        out
    }

    /// The keys that hold the blocks.
    pub fn from_blocks(blocks: Vec<Block>) -> (r: Vec<Key>)
        ensures
            key_blocks(r@) == blocks@,
            r.len() == blocks.len(),
    {
        let mut out: Vec<Key> = Vec::with_capacity(blocks.len());
        for i in 0..blocks.len()
            invariant
                key_blocks(out@) =~= blocks@.take(i as int),
                out.len() == i,
        {
            out.push(Key { block: blocks[i] });
        }
        out
    }
}

impl Mac {
    /// The value of the MAC.
    pub fn as_block(&self) -> (r: &Block)
        ensures
            *r == self.block,
    {
        &self.block
    }

    /// The least significant bit of the MAC.
    pub fn pointer(&self) -> (r: bool)
        ensures
            r == self.block.low_bit(),
    {
        self.block.lsb()
    }

    /// The blocks that the MACs hold.
    pub fn as_blocks(macs: &[Mac]) -> (r: Vec<Block>)
        ensures
            r@ == mac_blocks(macs@),
    {
        let mut out: Vec<Block> = Vec::with_capacity(macs.len());
        for i in 0..macs.len()
            invariant
                out@ == mac_blocks(macs@).take(i as int),
        {
            out.push(macs[i].block);
            assert(out@ =~= mac_blocks(macs@).take(i + 1));
        }
        out
    }

    /// The MACs that hold the blocks.
    pub fn from_blocks(blocks: Vec<Block>) -> (r: Vec<Mac>)
        ensures
            mac_blocks(r@) == blocks@,
            r.len() == blocks.len(),
    {
        let mut out: Vec<Mac> = Vec::with_capacity(blocks.len());
        for i in 0..blocks.len()
            invariant
                mac_blocks(out@) =~= blocks@.take(i as int),
                out.len() == i,
        {
            out.push(Mac { block: blocks[i] });
        }
        out
    }
}

impl Default for Key {
    fn default() -> (r: Key)
        ensures
            r.block == (Block { bits: 0 }),
    {
        Key { block: Block::zero() }
    }
}

impl Default for Mac {
    fn default() -> (r: Mac)
        ensures
            r.block == (Block { bits: 0 }),
    {
        Mac { block: Block::zero() }
    }
}

impl std::ops::Add for Key {
    type Output = Key;

    fn add(self, rhs: Key) -> (r: Key) {
        Key { block: self.block ^ rhs.block }
    }
}

impl vstd::std_specs::ops::AddSpecImpl for Key {
    open spec fn obeys_add_spec() -> bool {
        true
    }

    open spec fn add_req(self, rhs: Key) -> bool {
        true
    }

    open spec fn add_spec(self, rhs: Key) -> Key {
        Key { block: self.block.xor(rhs.block) }
    }
}

impl std::ops::Add for Mac {
    type Output = Mac;

    fn add(self, rhs: Mac) -> (r: Mac) {
        Mac { block: self.block ^ rhs.block }
    }
}

impl vstd::std_specs::ops::AddSpecImpl for Mac {
    open spec fn obeys_add_spec() -> bool {
        true
    }

    open spec fn add_req(self, rhs: Mac) -> bool {
        true
    }

    open spec fn add_spec(self, rhs: Mac) -> Mac {
        Mac { block: self.block.xor(rhs.block) }
    }
}

impl From<Block> for Key {
    fn from(block: Block) -> (r: Key) {
        Key { block }
    }
}

impl vstd::std_specs::convert::FromSpecImpl<Block> for Key {
    open spec fn obeys_from_spec() -> bool {
        true
    }

    open spec fn from_spec(block: Block) -> Key {
        Key { block }
    }
}

impl From<Block> for Mac {
    fn from(block: Block) -> (r: Mac) {
        Mac { block }
    }
}

impl vstd::std_specs::convert::FromSpecImpl<Block> for Mac {
    open spec fn obeys_from_spec() -> bool {
        true
    }

    open spec fn from_spec(block: Block) -> Mac {
        Mac { block }
    }
}

/// The MACs of the two bits under one key are the key and the key plus the correlation, so they differ
/// unless the correlation is zero.
pub proof fn lemma_macs(key: Key, delta: Delta)
    ensures
        mac_of(key, false, delta).block == key.block,
        mac_of(key, true, delta).block == key.block.xor(delta.block),
        mac_of(key, true, delta).block.xor(mac_of(key, false, delta).block) == delta.block,
{
    let (k, d) = (key.block, delta.block);
    crate::block::lemma_xor(k, Block { bits: 0 }, k);
    crate::block::lemma_xor(k, d, k);
    crate::block::lemma_xor(d, k, k);
}

} // verus!
