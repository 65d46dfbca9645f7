//! Randomness: what the thread's generator draws, and the reproducible draws of a seeded one.

use rand::{Rng, SeedableRng};
use rand_chacha::ChaCha12Rng;
use vstd::prelude::*;

use crate::block::Block;

verus! {

/// Draws 128 random bits.
///
/// Calls `rand::random`, which draws from the generator of the thread. Nothing is claimed of the
/// result.
#[verifier::external_body]
pub(crate) fn random_u128() -> (r: u128) {
    rand::random()
}

/// Draws a random bit.
///
/// Calls `rand::random`, which draws from the generator of the thread. Nothing is claimed of the
/// result.
#[verifier::external_body]
pub(crate) fn random_bool() -> (r: bool) {
    rand::random()
}

/// The 128 bits that `ChaCha12Rng` draws from a word position of the stream of a seed, and the
/// word position behind them.
pub uninterp spec fn chacha12_u128(seed: u64, position: u128) -> (u128, u128);

/// Draws 128 bits from a position of the stream of a seed.
///
/// Calls `Rng::random` on a `ChaCha12Rng` that `seed_from_u64` made and `set_word_pos` placed.
/// The seed and the position are all that such a generator's draws depend on; they are named, and
/// nothing else is claimed of them.
#[verifier::external_body]
fn draw_u128(seed: u64, position: u128) -> (r: (u128, u128))
    ensures
        r == chacha12_u128(seed, position),
{
    let mut rng = ChaCha12Rng::seed_from_u64(seed);
    rng.set_word_pos(position);
    let value: u128 = rng.random();
    (value, rng.get_word_pos())
}

/// The 64 bits that `ChaCha12Rng` draws from a word position of the stream of a seed, and the word
/// position behind them.
pub uninterp spec fn chacha12_u64(seed: u64, position: u128) -> (u64, u128);

/// Draws 64 bits from a position of the stream of a seed.
///
/// Calls `Rng::random` on a `ChaCha12Rng` that `seed_from_u64` made and `set_word_pos` placed; the
/// result is named and nothing else is claimed of it.
#[verifier::external_body]
fn draw_u64(seed: u64, position: u128) -> (r: (u64, u128))
    ensures
        r == chacha12_u64(seed, position),
{
    let mut rng = ChaCha12Rng::seed_from_u64(seed);
    rng.set_word_pos(position);
    let value: u64 = rng.random();
    (value, rng.get_word_pos())
}

/// The bit that `ChaCha12Rng` draws from a word position of the stream of a seed, and the word
/// position behind it.
pub uninterp spec fn chacha12_bool(seed: u64, position: u128) -> (bool, u128);

/// Draws a bit from a position of the stream of a seed.
///
/// Calls `Rng::random` on a `ChaCha12Rng` that `seed_from_u64` made and `set_word_pos` placed; the
/// result is named and nothing else is claimed of it.
#[verifier::external_body]
fn draw_bool(seed: u64, position: u128) -> (r: (bool, u128))
    ensures
        r == chacha12_bool(seed, position),
{
    let mut rng = ChaCha12Rng::seed_from_u64(seed);
    rng.set_word_pos(position);
    let value: bool = rng.random();
    (value, rng.get_word_pos())
}

/// The fair coin that `ChaCha12Rng` tosses at a word position of the stream of a seed, and the
/// word position behind it.
pub uninterp spec fn chacha12_coin(seed: u64, position: u128) -> (bool, u128);

/// Tosses a fair coin at a position of the stream of a seed.
///
/// Calls `Rng::random_ratio` with one half on a `ChaCha12Rng` that `seed_from_u64` made and
/// `set_word_pos` placed; the result is named and nothing else is claimed of it.
#[verifier::external_body]
fn draw_coin(seed: u64, position: u128) -> (r: (bool, u128))
    ensures
        r == chacha12_coin(seed, position),
{
    let mut rng = ChaCha12Rng::seed_from_u64(seed);
    rng.set_word_pos(position);
    let value = rng.random_ratio(1, 2);
    (value, rng.get_word_pos())
}

/// The number up to `max` that `ChaCha12Rng` draws from a word position of the stream of a seed,
/// and the word position behind it.
pub uninterp spec fn chacha12_index(seed: u64, position: u128, max: usize) -> (usize, u128);

/// Draws a number up to `max` from a position of the stream of a seed.
///
/// Calls `Rng::random_range` with `0..=max` on a `ChaCha12Rng` that `seed_from_u64` made and
/// `set_word_pos` placed. The result is named, and it is no larger than `max`.
#[verifier::external_body]
fn draw_index(seed: u64, position: u128, max: usize) -> (r: (usize, u128))
    ensures
        r == chacha12_index(seed, position, max),
        r.0 <= max,
{
    let mut rng = ChaCha12Rng::seed_from_u64(seed);
    rng.set_word_pos(position);
    let value = rng.random_range(0..=max);
    (value, rng.get_word_pos())
}

/// A generator whose draws depend on its seed alone: a place in the stream of the seed.
#[derive(Clone, Copy, Debug, PartialEq, Eq, Structural)]
pub struct SeededRng {
    /// The seed.
    pub seed: u64,
    /// The word of the stream from which the next draw is made.
    pub position: u128,
}

impl SeededRng {
    /// The block that is drawn next, and the generator behind it.
    pub open spec fn block_drawn(self) -> (Block, SeededRng) {
        let (bits, position) = chacha12_u128(self.seed, self.position);
        (Block { bits }, SeededRng { seed: self.seed, position })
    }

    /// The word that is drawn next, and the generator behind it.
    pub open spec fn word_drawn(self) -> (u64, SeededRng) {
        let (word, position) = chacha12_u64(self.seed, self.position);
        (word, SeededRng { seed: self.seed, position })
    }

    /// The bit that is drawn next, and the generator behind it.
    pub open spec fn bit_drawn(self) -> (bool, SeededRng) {
        let (bit, position) = chacha12_bool(self.seed, self.position);
        (bit, SeededRng { seed: self.seed, position })
    }

    /// The coin that is tossed next, and the generator behind it.
    pub open spec fn coin_drawn(self) -> (bool, SeededRng) {
        let (bit, position) = chacha12_coin(self.seed, self.position);
        (bit, SeededRng { seed: self.seed, position })
    }

    /// The number up to `max` that is drawn next, and the generator behind it.
    pub open spec fn index_drawn(self, max: usize) -> (usize, SeededRng) {
        let (value, position) = chacha12_index(self.seed, self.position, max);
        (value, SeededRng { seed: self.seed, position })
    }

    /// The `n` blocks that are drawn next, and the generator behind them.
    pub open spec fn blocks_drawn(self, n: nat) -> (Seq<Block>, SeededRng)
        decreases n,
    {
        if n == 0 {
            (Seq::empty(), self)
        } else {
            let (blocks, rng) = self.blocks_drawn((n - 1) as nat);
            let (block, rng) = rng.block_drawn();
            (blocks.push(block), rng)
        }
    }

    /// The `n` bits that are drawn next, and the generator behind them.
    pub open spec fn bits_drawn(self, n: nat) -> (Seq<bool>, SeededRng)
        decreases n,
    {
        if n == 0 {
            (Seq::empty(), self)
        } else {
            let (bits, rng) = self.bits_drawn((n - 1) as nat);
            let (bit, rng) = rng.bit_drawn();
            (bits.push(bit), rng)
        }
    }

    /// The `n` words that are drawn next, and the generator behind them.
    pub open spec fn words_drawn(self, n: nat) -> (Seq<u64>, SeededRng)
        decreases n,
    {
        if n == 0 {
            (Seq::empty(), self)
        } else {
            let (words, rng) = self.words_drawn((n - 1) as nat);
            let (word, rng) = rng.word_drawn();
            (words.push(word), rng)
        }
    }

    /// Draws are as many as were asked for.
    pub proof fn lemma_drawn_len(self, n: nat)
        ensures
            self.blocks_drawn(n).0.len() == n,
            self.bits_drawn(n).0.len() == n,
            self.words_drawn(n).0.len() == n,
        decreases n,
    {
        if n > 0 {
            self.lemma_drawn_len((n - 1) as nat);
        }
    }

    /// Each draw is the one that stands at the generator's place in its seed's stream, and the next
    /// one stands where it ends.
    pub proof fn lemma_draws_advance(self, max: usize)
        ensures
            self.block_drawn().0.bits == chacha12_u128(self.seed, self.position).0,
            self.block_drawn().1.position == chacha12_u128(self.seed, self.position).1,
            self.word_drawn().0 == chacha12_u64(self.seed, self.position).0,
            self.word_drawn().1.position == chacha12_u64(self.seed, self.position).1,
            self.bit_drawn().0 == chacha12_bool(self.seed, self.position).0,
            self.bit_drawn().1.position == chacha12_bool(self.seed, self.position).1,
            self.coin_drawn().0 == chacha12_coin(self.seed, self.position).0,
            self.coin_drawn().1.position == chacha12_coin(self.seed, self.position).1,
            self.index_drawn(max).0 == chacha12_index(self.seed, self.position, max).0,
            self.index_drawn(max).1.position == chacha12_index(self.seed, self.position, max).1,
            self.block_drawn().1.seed == self.seed,
            self.word_drawn().1.seed == self.seed,
            self.bit_drawn().1.seed == self.seed,
            self.coin_drawn().1.seed == self.seed,
            self.index_drawn(max).1.seed == self.seed,
    {
    }

    /// Drawing `n` and then `m` is drawing `n + m`, and one that is drawn alone is the next one.
    pub proof fn lemma_draws_in_turn(self, n: nat, m: nat)
        ensures
            ({
                let (first, rng) = self.blocks_drawn(n);
                let (then, end) = rng.blocks_drawn(m);
                self.blocks_drawn(n + m) == (first + then, end)
            }),
            ({
                let (first, rng) = self.bits_drawn(n);
                let (then, end) = rng.bits_drawn(m);
                self.bits_drawn(n + m) == (first + then, end)
            }),
            ({
                let (first, rng) = self.words_drawn(n);
                let (then, end) = rng.words_drawn(m);
                self.words_drawn(n + m) == (first + then, end)
            }),
            self.blocks_drawn(1) == (seq![self.block_drawn().0], self.block_drawn().1),
            self.bits_drawn(1) == (seq![self.bit_drawn().0], self.bit_drawn().1),
            self.words_drawn(1) == (seq![self.word_drawn().0], self.word_drawn().1),
        decreases m,
    {
        reveal_with_fuel(SeededRng::blocks_drawn, 2);
        reveal_with_fuel(SeededRng::bits_drawn, 2);
        reveal_with_fuel(SeededRng::words_drawn, 2);
        assert(self.blocks_drawn(1).0 =~= seq![self.block_drawn().0]);
        assert(self.bits_drawn(1).0 =~= seq![self.bit_drawn().0]);
        assert(self.words_drawn(1).0 =~= seq![self.word_drawn().0]);
        let (a, b, c) = (self.blocks_drawn(n), self.bits_drawn(n), self.words_drawn(n));
        if m == 0 {
            assert(a.0 + a.1.blocks_drawn(0).0 =~= a.0);
            assert(b.0 + b.1.bits_drawn(0).0 =~= b.0);
            assert(c.0 + c.1.words_drawn(0).0 =~= c.0);
        } else {
            let k = (m - 1) as nat;
            self.lemma_draws_in_turn(n, k);
            assert((n + m - 1) as nat == n + k);
            assert(a.0 + a.1.blocks_drawn(m).0 =~= self.blocks_drawn(n + m).0);
            assert(b.0 + b.1.bits_drawn(m).0 =~= self.bits_drawn(n + m).0);
            assert(c.0 + c.1.words_drawn(m).0 =~= self.words_drawn(n + m).0);
        }
    }

    /// Creates a generator at the start of the stream of a seed.
    pub fn seed_from_u64(seed: u64) -> (r: SeededRng)
        ensures
            r == (SeededRng { seed, position: 0 }),
    {
        SeededRng { seed, position: 0 }
    }

    /// Draws a block.
    pub fn next_block(&mut self) -> (r: Block)
        ensures
            (r, *final(self)) == old(self).block_drawn(),
    {
        let (bits, position) = draw_u128(self.seed, self.position);
        self.position = position;
        Block { bits }
    }

    /// Draws a word.
    pub fn next_u64(&mut self) -> (r: u64)
        ensures
            (r, *final(self)) == old(self).word_drawn(),
    {
        let (word, position) = draw_u64(self.seed, self.position);
        self.position = position;
        word
    }

    /// Draws a bit.
    pub fn next_bool(&mut self) -> (r: bool)
        ensures
            (r, *final(self)) == old(self).bit_drawn(),
    {
        let (bit, position) = draw_bool(self.seed, self.position);
        self.position = position;
        bit
    }

    /// Tosses a fair coin.
    pub fn next_coin(&mut self) -> (r: bool)
        ensures
            (r, *final(self)) == old(self).coin_drawn(),
    {
        let (bit, position) = draw_coin(self.seed, self.position);
        self.position = position;
        bit
    }

    /// Draws a number up to `max`.
    pub fn next_index(&mut self, max: usize) -> (r: usize)
        ensures
            (r, *final(self)) == old(self).index_drawn(max),
            r <= max,
    {
        let (value, position) = draw_index(self.seed, self.position, max);
        self.position = position;
        value
    }

    /// Draws `n` blocks.
    pub fn next_blocks(&mut self, n: usize) -> (r: Vec<Block>)
        ensures
            (r@, *final(self)) == old(self).blocks_drawn(n as nat),
            r.len() == n,
    {
        let mut out: Vec<Block> = Vec::with_capacity(n);
        for i in 0..n
            invariant
                (out@, *self) == old(self).blocks_drawn(i as nat),
                out.len() == i,
        {
            let block = self.next_block();
            out.push(block);
        }
        out
    }

    /// Draws `n` bits.
    pub fn next_bools(&mut self, n: usize) -> (r: Vec<bool>)
        ensures
            (r@, *final(self)) == old(self).bits_drawn(n as nat),
            r.len() == n,
    {
        let mut out: Vec<bool> = Vec::with_capacity(n);
        for i in 0..n
            invariant
                (out@, *self) == old(self).bits_drawn(i as nat),
                out.len() == i,
        {
            let bit = self.next_bool();
            out.push(bit);
        }
        out
    }

    /// Draws `n` words.
    pub fn next_words(&mut self, n: usize) -> (r: Vec<u64>)
        ensures
            (r@, *final(self)) == old(self).words_drawn(n as nat),
            r.len() == n,
    {
        let mut out: Vec<u64> = Vec::with_capacity(n);
        for i in 0..n
            invariant
                (out@, *self) == old(self).words_drawn(i as nat),
                out.len() == i,
        {
            let word: u64 = self.next_u64();
            out.push(word);
        }
        out
    }
}

} // verus!
