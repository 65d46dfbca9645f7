//! Wire Label Slicing for Three Halves Garbling
//!
//! Wire labels are split into left and right halves (κ/2 bits each), allowing
//! the evaluator to compute each half using potentially different linear
//! combinations.
//!
//! # Layout
//!
//! A 128-bit Block is split as follows:
//! ```text
//! Block (128 bits):  [byte0, byte1, ..., byte7, byte8, ..., byte15]
//!                    [======= left =======][======= right ========]
//!                         (64 bits)              (64 bits)
//! ```

use vstd::prelude::*;

use crate::block::Block;
use crate::fields::words::{from_le_bytes, le_number, lemma_le_bytes_unique, to_le_bytes};

verus! {

/// The left half of a block, as a number.
pub open spec fn left_of(block: Block) -> u64 {
    (block.bits % 0x1_0000_0000_0000_0000) as u64
}

/// The right half of a block, as a number.
pub open spec fn right_of(block: Block) -> u64 {
    (block.bits / 0x1_0000_0000_0000_0000) as u64
}

/// The block with the given halves.
pub open spec fn joined(left: u64, right: u64) -> Block {
    Block { bits: (left + 0x1_0000_0000_0000_0000 * right) as u128 }
}

/// A wire label split into left and right halves.
///
/// Each half is κ/2 = 64 bits, stored as `[u8; 8]`.
#[derive(Clone, Copy, Debug, PartialEq, Eq)]
pub struct SlicedLabel {
    /// Left half of the wire label (κ/2 bits)
    ///
    /// In evaluation equations, this appears in even rows (0, 2, 4, 6).
    pub left: [u8; 8],
    /// Right half of the wire label (κ/2 bits)
    ///
    /// In evaluation equations, this appears in odd rows (1, 3, 5, 7).
    pub right: [u8; 8],
}

/// The halves are those of the block.
pub open spec fn is_sliced(sliced: SlicedLabel, block: Block) -> bool {
    &&& le_number(sliced.left@) == left_of(block)
    &&& le_number(sliced.right@) == right_of(block)
}

impl SlicedLabel {
    /// The left half as a number.
    pub open spec fn left_word(&self) -> u64 {
        le_number(self.left@) as u64
    }

    /// The right half as a number.
    pub open spec fn right_word(&self) -> u64 {
        le_number(self.right@) as u64
    }

    /// Create a new SlicedLabel from left and right halves.
    pub fn new(left: [u8; 8], right: [u8; 8]) -> (r: SlicedLabel)
        ensures
            r.left == left,
            r.right == right,
    {
        SlicedLabel { left, right }
    }

    /// Create a zero-valued SlicedLabel.
    pub fn zero() -> (r: SlicedLabel)
        ensures
            forall|i: int| 0 <= i < 8 ==> #[trigger] r.left@[i] == 0,
            forall|i: int| 0 <= i < 8 ==> #[trigger] r.right@[i] == 0,
    {
        SlicedLabel { left: [0u8; 8], right: [0u8; 8] }
    }

    /// Split a 128-bit Block into left and right halves.
    pub fn from_block(block: Block) -> (r: SlicedLabel)
        ensures
            is_sliced(r, block),
    {
        let left: u64 = (block.bits % 0x1_0000_0000_0000_0000) as u64;
        let right: u64 = (block.bits / 0x1_0000_0000_0000_0000) as u64;
        SlicedLabel { left: to_le_bytes(left), right: to_le_bytes(right) }
    }

    /// Recombine left and right halves into a 128-bit Block.
    pub fn to_block(&self) -> (r: Block)
        ensures
            r == joined(self.left_word(), self.right_word()),
    {
        let left: u64 = from_le_bytes(self.left);
        let right: u64 = from_le_bytes(self.right);
        Block { bits: left as u128 + 0x1_0000_0000_0000_0000 * (right as u128) }
    }
}

impl From<Block> for SlicedLabel {
    fn from(block: Block) -> (r: SlicedLabel) {
        let sliced = SlicedLabel::from_block(block);
        proof {
            let want = choose|sliced: SlicedLabel| is_sliced(sliced, block);
            assert(is_sliced(sliced, block));
            lemma_le_bytes_unique(sliced.left@, want.left@);
            lemma_le_bytes_unique(sliced.right@, want.right@);
            assert(sliced.left =~= want.left);
            assert(sliced.right =~= want.right);
        }
        sliced
    }
}

impl vstd::std_specs::convert::FromSpecImpl<Block> for SlicedLabel {
    open spec fn obeys_from_spec() -> bool {
        true
    }

    open spec fn from_spec(block: Block) -> SlicedLabel {
        choose|sliced: SlicedLabel| is_sliced(sliced, block)
    }
}

impl From<SlicedLabel> for Block {
    fn from(sliced: SlicedLabel) -> (r: Block) {
        sliced.to_block()
    }
}

impl vstd::std_specs::convert::FromSpecImpl<SlicedLabel> for Block {
    open spec fn obeys_from_spec() -> bool {
        true
    }

    open spec fn from_spec(sliced: SlicedLabel) -> Block {
        joined(sliced.left_word(), sliced.right_word())
    }
}

/// Splitting a block and joining its halves gives the block back.
pub proof fn lemma_join_halves(block: Block)
    ensures
        joined(left_of(block), right_of(block)) == block,
{
}

/// Joining halves and splitting gives the halves back.
pub proof fn lemma_split_joined(left: u64, right: u64)
    ensures
        left_of(joined(left, right)) == left,
        right_of(joined(left, right)) == right,
{
}

/// The halves of a sum are the sums of the halves.
pub proof fn lemma_halves_of_xor(x: Block, y: Block)
    ensures
        left_of(x.xor(y)) == left_of(x) ^ left_of(y),
        right_of(x.xor(y)) == right_of(x) ^ right_of(y),
{
    let (a, b) = (x.bits, y.bits);
    assert(((a ^ b) % 0x1_0000_0000_0000_0000) as u64 == ((a % 0x1_0000_0000_0000_0000) as u64) ^ ((
    b % 0x1_0000_0000_0000_0000) as u64) && ((a ^ b) / 0x1_0000_0000_0000_0000) as u64 == ((a
        / 0x1_0000_0000_0000_0000) as u64) ^ ((b / 0x1_0000_0000_0000_0000) as u64))
        by (bit_vector);
}

/// The left half of a block is the one with the less significant bits.
pub proof fn lemma_halves(block: Block)
    ensures
        block.bits == left_of(block) + 0x1_0000_0000_0000_0000 * right_of(block),
{
}

} // verus!
