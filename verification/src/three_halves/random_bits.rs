//! Random Bit Source for Garbling
//!
//! This module provides an efficient source of random bits for garbling
//! operations. Random bits are pre-generated in bulk and consumed sequentially
//! to avoid repeated RNG calls during circuit processing.

use vstd::prelude::*;

use crate::fields::words::{bit_at, get_bit};
use crate::rng::SeededRng;

verus! {

/// The number of words that hold some bits.
pub open spec fn word_count(bits: nat) -> nat {
    ((bits + 63) / 64) as nat
}

/// The bit at an index of packed words.
pub open spec fn packed_bit(data: Seq<u64>, index: int) -> bool {
    bit_at(data[index / 64] as nat, (index % 64) as nat)
}

/// Pre-generated random bits for efficient consumption during garbling.
///
/// Random bits are packed into u64 words and extracted one at a time.
/// This is more efficient than calling the RNG for each individual bit.
#[derive(Debug)]
pub struct RandomBitSource {
    /// Pre-generated random words
    pub data: Vec<u64>,
    /// Current bit index
    pub bit_idx: usize,
}

impl RandomBitSource {
    /// Create a new source with pre-generated random bits.
    ///
    /// # Arguments
    /// * `num_bits` - Total number of random bits needed
    /// * `rng` - Random number generator to use for generation
    pub fn new(num_bits: usize, rng: &mut SeededRng) -> (r: RandomBitSource)
        requires
            num_bits + 63 <= usize::MAX,
        ensures
            (r.data@, *final(rng)) == old(rng).words_drawn(word_count(num_bits as nat)),
            r.data@.len() == word_count(num_bits as nat),
            r.bit_idx == 0,
    {
        let num_u64s: usize = (num_bits + 63) / 64;
        let data = rng.next_words(num_u64s);
        RandomBitSource { data, bit_idx: 0 }
    }

    /// Get the next random bit.
    pub fn next_bit(&mut self) -> (r: bool)
        requires
            old(self).bit_idx < 64 * old(self).data@.len(),
            old(self).bit_idx < usize::MAX,
        ensures
            r == packed_bit(old(self).data@, old(self).bit_idx as int),
            final(self).data == old(self).data,
            final(self).bit_idx == old(self).bit_idx + 1,
    {
        let word_idx: usize = self.bit_idx / 64;
        let bit_pos: usize = self.bit_idx % 64;
        self.bit_idx = self.bit_idx + 1;
        get_bit(self.data[word_idx], bit_pos)
    }

    /// Get the next two random bits.
    pub fn next_two_bits(&mut self) -> (r: [bool; 2])
        requires
            old(self).bit_idx + 1 < 64 * old(self).data@.len(),
            old(self).bit_idx + 1 < usize::MAX,
        ensures
            r@[0] == packed_bit(old(self).data@, old(self).bit_idx as int),
            r@[1] == packed_bit(old(self).data@, old(self).bit_idx + 1),
            final(self).data == old(self).data,
            final(self).bit_idx == old(self).bit_idx + 2,
    {
        let first = self.next_bit();
        let second = self.next_bit();
        [first, second]
    }
}

} // verus!
