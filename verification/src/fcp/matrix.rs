//! The public matrix that expands compressed wire masks, and its dimensions.

use vstd::arithmetic::power::{lemma_pow_positive, pow};
use vstd::arithmetic::power2::{lemma_pow2_adds, lemma_pow2_pos, lemma_pow2_unfold, pow2};
use vstd::prelude::*;

use crate::bignum::{base, lemma_double_fits, less, power, scale, value};
use crate::block::Block;
use crate::rng::SeededRng;
use crate::SSP;

verus! {

/// Whether `l` is the compressed length for `n` AND gates.
///
/// The length is `ρ log2(n/ρ) + 2ρ`, rounded up, and at least `2ρ`: it is `2ρ` plus the least `k`
/// with `2^k >= (n/ρ)^ρ`.
pub open spec fn is_compressed_len(n: nat, l: nat) -> bool {
    let k = l - 2 * SSP;
    &&& k >= 0
    &&& pow2(k as nat) * pow(SSP as int, SSP as nat) >= pow(n as int, SSP as nat)
    &&& k > 0 ==> pow2((k - 1) as nat) * pow(SSP as int, SSP as nat) < pow(n as int, SSP as nat)
}

/// The number of limbs in which the length is computed.
const LIMBS: usize = 42;

/// Compute the compressed vector length L for Fcp.
///
/// L = (ρ log n - ρ log ρ) / log 2 + 2ρ
///
/// where:
/// - ρ = statistical security parameter (SSP)
/// - n = number of AND gates
///
/// This is the length of the compressed vectors b̃ and d̃ that B uses,
/// which get expanded to full length n via the MH matrix.
pub fn compute_l(num_and_gates: usize) -> (l: usize)
    ensures
        is_compressed_len(num_and_gates as nat, l as nat),
        2 * SSP <= l < 2 * SSP + 2560,
{
    // The least k with 2^k * ρ^ρ >= n^ρ
    let target = power(num_and_gates as u64, SSP, LIMBS);
    let mut scaled = power(SSP as u64, SSP, LIMBS);
    let mut l: usize = 2 * SSP;
    let ghost unit = pow(SSP as int, SSP as nat);
    proof {
        lemma_pow_positive(SSP as int, SSP as nat);
        vstd::arithmetic::power2::lemma2_to64();
        assert(pow2(0) * unit == unit);
        lemma_limit();
    }
    while less(&scaled, &target)
        invariant
            target.len() == LIMBS,
            scaled.len() == LIMBS,
            unit == pow(SSP as int, SSP as nat),
            unit > 0,
            2 * SSP <= l < 2 * SSP + 2560,
            value(target@) == pow(num_and_gates as int, SSP as nat),
            value(target@) < pow(base(), SSP as nat),
            pow(base(), SSP as nat) == pow2(2560),
            value(scaled@) == pow2((l - 2 * SSP) as nat) * unit,
            l > 2 * SSP ==> pow2((l - 2 * SSP - 1) as nat) * unit < value(target@),
        decreases 2 * SSP + 2560 - l,
    {
        let ghost k = (l - 2 * SSP) as nat;
        proof {
            lemma_pow2_pos(k);
            let (p, u) = (pow2(k) as int, unit);
            assert(p * u >= p && p * u > 0) by (nonlinear_arith)
                requires
                    p > 0,
                    u > 0,
            ;
            lemma_double_fits(value(scaled@), SSP as nat, LIMBS as nat);
            lemma_pow2_unfold(k + 1);
            assert((2 * p) * u == (p * u) * 2) by (nonlinear_arith);
            assert(k + 1 < 2560) by {
                if k >= 2559 {
                    lemma_unit_large();
                    lemma_pow2_monotonic(2559, k);
                    lemma_pow2_unfold(2560);
                    assert(p * u >= p * 2) by (nonlinear_arith)
                        requires
                            p > 0,
                            u >= 2,
                    ;
                }
            }
        }
        scale(&mut scaled, 2);
        l = l + 1;
    }
    l
}

/// The power of the base that bounds the numbers in `compute_l`, as a power of two.
proof fn lemma_limit()
    ensures
        pow(base(), SSP as nat) == pow2(2560),
{
    lemma_base_pow2(SSP as nat);
}

proof fn lemma_base_pow2(n: nat)
    ensures
        pow(base(), n) == pow2(64 * n),
    decreases n,
{
    vstd::arithmetic::power2::lemma2_to64();
    vstd::arithmetic::power2::lemma2_to64_rest();
    vstd::arithmetic::power::lemma_pow0(base());
    if n > 0 {
        lemma_base_pow2((n - 1) as nat);
        vstd::arithmetic::power::lemma_pow_adds(base(), 1, (n - 1) as nat);
        vstd::arithmetic::power::lemma_pow1(base());
        lemma_pow2_adds(64, (64 * (n - 1)) as nat);
    }
}

proof fn lemma_pow2_monotonic(a: nat, b: nat)
    requires
        a <= b,
    ensures
        pow2(a) <= pow2(b),
{
    if a < b {
        vstd::arithmetic::power2::lemma_pow2_strictly_increases(a, b);
    }
}

proof fn lemma_unit_large()
    ensures
        pow(SSP as int, SSP as nat) >= 2,
{
    vstd::arithmetic::power::lemma_pow_adds(SSP as int, 1, (SSP - 1) as nat);
    vstd::arithmetic::power::lemma_pow1(SSP as int);
    lemma_pow_positive(SSP as int, (SSP - 1) as nat);
    let p = pow(SSP as int, (SSP - 1) as nat);
    assert(40 * p >= 2) by (nonlinear_arith)
        requires
            p > 0,
    ;
}

/// There is one compressed length for a number of gates, and more gates never have a smaller one.
pub proof fn lemma_compressed_len_grows(n: nat, l: nat, m: nat, k: nat)
    requires
        is_compressed_len(n, l),
        is_compressed_len(m, k),
        n <= m,
    ensures
        l <= k,
        n == m ==> l == k,
{
    lemma_pow_base_grows(n as int, m as int, SSP as nat);
    lemma_compressed_order(n, l, m, k);
    if n == m {
        lemma_compressed_order(m, k, n, l);
    }
}

/// The larger of two lengths belongs to the larger power.
proof fn lemma_compressed_order(n: nat, l: nat, m: nat, k: nat)
    requires
        is_compressed_len(n, l),
        is_compressed_len(m, k),
        pow(n as int, SSP as nat) <= pow(m as int, SSP as nat),
    ensures
        l <= k,
{
    let unit = pow(SSP as int, SSP as nat);
    lemma_pow_positive(SSP as int, SSP as nat);
    if l > k {
        let (a, b) = ((k - 2 * SSP) as nat, (l - 2 * SSP - 1) as nat);
        lemma_pow2_monotonic(a, b);
        let (p, q) = (pow2(a) as int, pow2(b) as int);
        assert(p * unit <= q * unit) by (nonlinear_arith)
            requires
                p <= q,
                unit > 0,
        ;
    }
}

/// A power grows with its base.
proof fn lemma_pow_base_grows(a: int, b: int, e: nat)
    requires
        0 <= a <= b,
    ensures
        0 <= pow(a, e) <= pow(b, e),
    decreases e,
{
    vstd::arithmetic::power::lemma_pow0(a);
    vstd::arithmetic::power::lemma_pow0(b);
    if e > 0 {
        let d = (e - 1) as nat;
        lemma_pow_base_grows(a, b, d);
        vstd::arithmetic::power::lemma_pow_adds(a, 1, d);
        vstd::arithmetic::power::lemma_pow_adds(b, 1, d);
        vstd::arithmetic::power::lemma_pow1(a);
        vstd::arithmetic::power::lemma_pow1(b);
        let (p, q) = (pow(a, d), pow(b, d));
        assert(0 <= a * p <= b * q) by (nonlinear_arith)
            requires
                0 <= a <= b,
                0 <= p <= q,
        ;
    }
}

/// Number of bits per word.
pub const BITS_PER_WORD: usize = 64;

/// The number of words that hold a row of `cols` bits.
pub open spec fn words_for(cols: nat) -> nat {
    (cols + 63) / 64
}

/// Binary matrix over F2 (n × L dimensions).
///
/// Used to expand compressed vectors: b' = MH · b̃
/// where b̃ has length L and b' has length n.
#[derive(Debug)]
pub struct BinaryMatrix {
    /// Number of rows (n = number of AND gates)
    pub rows: usize,
    /// Number of columns (L = compressed length)
    pub cols: usize,
    /// Row-major storage, packed as bits in u64 words
    pub data: Vec<u64>,
}

/// A matrix of these dimensions can be held.
pub open spec fn dimensions_fit(rows: nat, cols: nat) -> bool {
    &&& cols + 64 <= usize::MAX
    &&& rows * words_for(cols) <= usize::MAX
}

/// The word of a row that holds a column, and its place in the data.
proof fn lemma_word(rows: int, cols: int, row: int, col: int)
    requires
        0 <= row < rows,
        0 <= col < cols,
    ensures
        0 <= col / 64 < words_for(cols as nat),
        0 <= row * words_for(cols as nat) + col / 64 < rows * words_for(cols as nat),
        0 <= row * words_for(cols as nat),
        (row * words_for(cols as nat) + col / 64) / words_for(cols as nat) as int == row,
        (row * words_for(cols as nat) + col / 64) % words_for(cols as nat) as int == col / 64,
{
    let w = words_for(cols as nat) as int;
    assert(col / 64 < w);
    assert(row * w + col / 64 < rows * w) by (nonlinear_arith)
        requires
            0 <= row < rows,
            0 <= col / 64 < w,
    ;
    assert(0 <= row * w) by (nonlinear_arith)
        requires
            0 <= row,
            0 < w,
    ;
    vstd::arithmetic::div_mod::lemma_fundamental_div_mod_converse(
        row * w + col / 64,
        w,
        row,
        col / 64,
    );
}

impl BinaryMatrix {
    /// The data holds all rows.
    pub open spec fn wf(&self) -> bool {
        &&& dimensions_fit(self.rows as nat, self.cols as nat)
        &&& self.data.len() == self.rows * words_for(self.cols as nat)
    }

    /// The bit at position (row, col).
    pub open spec fn bit(&self, row: int, col: int) -> bool {
        (self.data@[row * words_for(self.cols as nat) + col / 64] >> ((col % 64) as u64)) & 1 == 1
    }

    /// Create a new zero matrix with given dimensions.
    pub fn new(rows: usize, cols: usize) -> (r: BinaryMatrix)
        requires
            dimensions_fit(rows as nat, cols as nat),
        ensures
            r.wf(),
            r.rows == rows,
            r.cols == cols,
            forall|i: int, j: int| 0 <= i < rows && 0 <= j < cols ==> !#[trigger] r.bit(i, j),
    {
        let words_per_row: usize = (cols + BITS_PER_WORD - 1) / BITS_PER_WORD;
        let total_words: usize = rows * words_per_row;
        let r = BinaryMatrix { rows, cols, data: vec![0u64; total_words] };
        assert forall|i: int, j: int| 0 <= i < rows && 0 <= j < cols implies !#[trigger] r.bit(
            i,
            j,
        ) by {
            lemma_word(rows as int, cols as int, i, j);
            let k = (j % 64) as u64;
            assert((0u64 >> k) & 1 == 0) by (bit_vector);
        }
        r
    }

    /// Generate a random binary matrix using the given RNG.
    ///
    /// This creates the public matrix MH that both parties use.
    pub fn random(rows: usize, cols: usize, rng: &mut SeededRng) -> (r: BinaryMatrix)
        requires
            dimensions_fit(rows as nat, cols as nat),
        ensures
            r.wf(),
            r.rows == rows,
            r.cols == cols,
            (r.data@, *final(rng)) == old(rng).words_drawn(rows as nat * words_for(cols as nat)),
    {
        let words_per_row: usize = (cols + BITS_PER_WORD - 1) / BITS_PER_WORD;
        let total_words: usize = rows * words_per_row;
        let data = rng.next_words(total_words);
        BinaryMatrix { rows, cols, data }
    }

    /// Generate a random matrix from a seed.
    ///
    /// Both parties can call this with the same seed to get identical MH.
    pub fn from_seed(rows: usize, cols: usize, seed: u64) -> (r: BinaryMatrix)
        requires
            dimensions_fit(rows as nat, cols as nat),
        ensures
            is_seeded(r, rows, cols, seed),
    {
        let mut rng = SeededRng::seed_from_u64(seed);
        BinaryMatrix::random(rows, cols, &mut rng)
    }

    /// Number of u64 words per row.
    pub fn words_per_row(&self) -> (r: usize)
        requires
            self.wf(),
        ensures
            r == words_for(self.cols as nat),
    {
        (self.cols + BITS_PER_WORD - 1) / BITS_PER_WORD
    }

    /// Get the bit at position (row, col).
    pub fn get(&self, row: usize, col: usize) -> (r: bool)
        requires
            self.wf(),
            row < self.rows,
            col < self.cols,
        ensures
            r == self.bit(row as int, col as int),
    {
        proof {
            lemma_word(self.rows as int, self.cols as int, row as int, col as int);
        }
        let words_per_row: usize = self.words_per_row();
        let word_idx: usize = row * words_per_row + col / BITS_PER_WORD;
        let bit_idx: u64 = (col % BITS_PER_WORD) as u64;
        (self.data[word_idx] >> bit_idx) & 1 == 1
    }

    /// Set the bit at position (row, col).
    pub fn set(&mut self, row: usize, col: usize, value: bool)
        requires
            old(self).wf(),
            row < old(self).rows,
            col < old(self).cols,
        ensures
            final(self).wf(),
            final(self).rows == old(self).rows,
            final(self).cols == old(self).cols,
            forall|i: int, j: int|
                0 <= i < old(self).rows && 0 <= j < old(self).cols ==> #[trigger] final(self).bit(
                    i,
                    j,
                ) == if i == row && j == col {
                    value
                } else {
                    old(self).bit(i, j)
                },
    {
        proof {
            lemma_word(self.rows as int, self.cols as int, row as int, col as int);
        }
        let words_per_row: usize = self.words_per_row();
        let word_idx: usize = row * words_per_row + col / BITS_PER_WORD;
        let bit_idx: u64 = (col % BITS_PER_WORD) as u64;
        let word: u64 = self.data[word_idx];
        if value {
            self.data[word_idx] = word | (1u64 << bit_idx);
        } else {
            self.data[word_idx] = word & !(1u64 << bit_idx);
        }
        proof {
            assert forall|i: int, j: int|
                0 <= i < self.rows && 0 <= j < self.cols implies #[trigger] self.bit(i, j) == if i
                == row && j == col {
                value
            } else {
                old(self).bit(i, j)
            } by {
                lemma_word(self.rows as int, self.cols as int, i, j);
                let w = words_for(self.cols as nat);
                let k = (j % 64) as u64;
                assert((((word | (1u64 << bit_idx)) >> k) & 1 == 1) == (k == bit_idx || ((word
                    >> k) & 1 == 1)) && (((word & !(1u64 << bit_idx)) >> k) & 1 == 1) == (k
                    != bit_idx && ((word >> k) & 1 == 1))) by (bit_vector)
                    requires
                        k < 64,
                        bit_idx < 64,
                ;
            }
        }
    }

    /// The sum of the bits of `v` that the first `n` columns of a row pick.
    pub open spec fn row_dot(&self, row: int, v: Seq<bool>, n: nat) -> bool
        decreases n,
    {
        if n == 0 {
            false
        } else {
            self.row_dot(row, v, (n - 1) as nat) != (self.bit(row, n - 1) && v[n - 1])
        }
    }

    /// The product with a bit vector.
    pub open spec fn times_bits(&self, v: Seq<bool>) -> Seq<bool> {
        Seq::new(self.rows as nat, |i: int| self.row_dot(i, v, self.cols as nat))
    }

    /// The sum of the blocks of `v` that the first `n` columns of a row pick.
    pub open spec fn row_dot_block(&self, row: int, v: Seq<Block>, n: nat) -> Block
        decreases n,
    {
        if n == 0 {
            Block { bits: 0 }
        } else {
            self.row_dot_block(row, v, (n - 1) as nat).xor(v[n - 1].times(self.bit(row, n - 1)))
        }
    }

    /// The product with a vector of blocks.
    pub open spec fn times_blocks(&self, v: Seq<Block>) -> Seq<Block> {
        Seq::new(self.rows as nat, |i: int| self.row_dot_block(i, v, self.cols as nat))
    }

    /// Multiply matrix by a bit vector: result = M · v
    ///
    /// Input v has length `cols`, output has length `rows`.
    /// Each output bit is the XOR (inner product over F2) of row with v.
    pub fn mul_vec(&self, v: &[bool]) -> (r: Vec<bool>)
        requires
            self.wf(),
            v.len() == self.cols,
        ensures
            r@ == self.times_bits(v@),
    {
        let mut result: Vec<bool> = Vec::with_capacity(self.rows);
        let ghost want = self.times_bits(v@);
        for i in 0..self.rows
            invariant
                self.wf(),
                v.len() == self.cols,
                want == self.times_bits(v@),
                result@ == want.take(i as int),
        {
            let mut bit = false;
            for j in 0..self.cols
                invariant
                    self.wf(),
                    i < self.rows,
                    v.len() == self.cols,
                    bit == self.row_dot(i as int, v@, j as nat),
            {
                if self.get(i, j) && v[j] {
                    bit = !bit;
                }
            }
            result.push(bit);
            assert(result@ =~= want.take(i + 1));
        }
        assert(want.take(self.rows as int) =~= want);
        result
    }

    /// Multiply matrix by a Block vector: result[i] = XOR of M[i][j] * v[j] for all j
    ///
    /// This is used to compute w = MH · w̃ where w̃ contains Block elements.
    pub fn mul_vec_block(&self, v: &[Block]) -> (r: Vec<Block>)
        requires
            self.wf(),
            v.len() == self.cols,
        ensures
            r@ == self.times_blocks(v@),
    {
        let mut result: Vec<Block> = Vec::with_capacity(self.rows);
        let ghost want = self.times_blocks(v@);
        for i in 0..self.rows
            invariant
                self.wf(),
                v.len() == self.cols,
                want == self.times_blocks(v@),
                result@ == want.take(i as int),
        {
            let mut block = Block::zero();
            for j in 0..self.cols
                invariant
                    self.wf(),
                    i < self.rows,
                    v.len() == self.cols,
                    block == self.row_dot_block(i as int, v@, j as nat),
            {
                proof {
                    crate::block::lemma_xor(block, block, block);
                }
                if self.get(i, j) {
                    block = block ^ v[j];
                }
            }
            result.push(block);
            assert(result@ =~= want.take(i + 1));
        }
        assert(want.take(self.rows as int) =~= want);
        result
    }

    /// Compute the outer product of (MH · b̃)^T · (MH · b̃) for specific entries.
    ///
    /// This computes b_{i,j} = (MH·b̃)[i] AND (MH·b̃)[j] for each AND gate k = (∧, i, j).
    /// Returns one bool per AND gate.
    pub fn compute_bij(&self, b_tilde: &[bool], gate_indices: &[(usize, usize)]) -> (r: Vec<bool>)
        requires
            self.wf(),
            b_tilde.len() == self.cols,
            indices_below(gate_indices@, self.rows as nat),
        ensures
            r@ == products(self.times_bits(b_tilde@), gate_indices@),
    {
        // First compute b' = MH · b̃
        let b_prime = self.mul_vec(b_tilde);

        // Then for each gate k with inputs (i, j), compute b'[i] AND b'[j]
        and_pairs(&b_prime, gate_indices)
    }
}

/// The matrix is the one that the seed determines.
pub open spec fn is_seeded(m: BinaryMatrix, rows: usize, cols: usize, seed: u64) -> bool {
    &&& m.wf()
    &&& m.rows == rows
    &&& m.cols == cols
    &&& m.data@ == (SeededRng { seed, position: 0 }).words_drawn(
        rows as nat * words_for(cols as nat),
    ).0
}

/// Two matrices of one seed and the same dimensions have the same bits.
pub proof fn lemma_same_seed_same_matrix(
    a: BinaryMatrix,
    b: BinaryMatrix,
    rows: usize,
    cols: usize,
    seed: u64,
)
    requires
        is_seeded(a, rows, cols, seed),
        is_seeded(b, rows, cols, seed),
    ensures
        forall|i: int, j: int| #[trigger] a.bit(i, j) == b.bit(i, j),
{
}

/// Two matrices of one seed and the same dimensions expand a vector to the same one.
pub proof fn lemma_same_seed_same_expansion(
    a: BinaryMatrix,
    b: BinaryMatrix,
    rows: usize,
    cols: usize,
    seed: u64,
    bits: Seq<bool>,
    blocks: Seq<Block>,
)
    requires
        is_seeded(a, rows, cols, seed),
        is_seeded(b, rows, cols, seed),
    ensures
        a.times_bits(bits) == b.times_bits(bits),
        a.times_blocks(blocks) == b.times_blocks(blocks),
{
    assert forall|row: int| #[trigger]
        a.row_dot(row, bits, cols as nat) == b.row_dot(row, bits, cols as nat) by {
        lemma_same_dots(a, b, row, bits, blocks, cols as nat);
    }
    assert forall|row: int| #[trigger]
        a.row_dot_block(row, blocks, cols as nat) == b.row_dot_block(
            row,
            blocks,
            cols as nat,
        ) by {
        lemma_same_dots(a, b, row, bits, blocks, cols as nat);
    }
    assert(a.times_bits(bits) =~= b.times_bits(bits));
    assert(a.times_blocks(blocks) =~= b.times_blocks(blocks));
}

/// Rows of equal bits have equal products with a vector.
proof fn lemma_same_dots(
    a: BinaryMatrix,
    b: BinaryMatrix,
    row: int,
    bits: Seq<bool>,
    blocks: Seq<Block>,
    n: nat,
)
    requires
        a.data@ == b.data@,
        a.cols == b.cols,
    ensures
        a.row_dot(row, bits, n) == b.row_dot(row, bits, n),
        a.row_dot_block(row, blocks, n) == b.row_dot_block(row, blocks, n),
    decreases n,
{
    if n > 0 {
        lemma_same_dots(a, b, row, bits, blocks, (n - 1) as nat);
    }
}

/// Every index is below `n`.
pub open spec fn indices_below(gate_indices: Seq<(usize, usize)>, n: nat) -> bool {
    forall|k: int|
        0 <= k < gate_indices.len() ==> (#[trigger] gate_indices[k]).0 < n && gate_indices[k].1 < n
}

/// The products of the pairs of bits that the gates read.
pub open spec fn products(bits: Seq<bool>, gate_indices: Seq<(usize, usize)>) -> Seq<bool> {
    Seq::new(
        gate_indices.len(),
        |k: int| bits[gate_indices[k].0 as int] && bits[gate_indices[k].1 as int],
    )
}

/// Computes the products of the pairs of bits that the gates read.
pub fn and_pairs(bits: &Vec<bool>, gate_indices: &[(usize, usize)]) -> (r: Vec<bool>)
    requires
        indices_below(gate_indices@, bits.len() as nat),
    ensures
        r@ == products(bits@, gate_indices@),
{
    let mut out: Vec<bool> = Vec::with_capacity(gate_indices.len());
    let ghost want = products(bits@, gate_indices@);
    for k in 0..gate_indices.len()
        invariant
            indices_below(gate_indices@, bits.len() as nat),
            want == products(bits@, gate_indices@),
            out@ == want.take(k as int),
    {
        let (i, j) = gate_indices[k];
        assert(gate_indices@[k as int].0 < bits.len());
        out.push(bits[i] && bits[j]);
        assert(out@ =~= want.take(k + 1));
    }
    assert(want.take(gate_indices.len() as int) =~= want);
    out
}

/// Multiplying by a matrix keeps the correlation between bits and blocks: if `w = b * beta + d`
/// then `M w = (M b) * beta + M d`.
pub proof fn lemma_matrix_keeps_correlation(
    m: BinaryMatrix,
    w: Seq<Block>,
    b: Seq<bool>,
    d: Seq<Block>,
    beta: Block,
    row: int,
    n: nat,
)
    requires
        n <= w.len(),
        n <= b.len(),
        n <= d.len(),
        forall|i: int| 0 <= i < n ==> #[trigger] w[i] == d[i].xor(beta.times(b[i])),
    ensures
        m.row_dot_block(row, w, n) == m.row_dot_block(row, d, n).xor(
            beta.times(m.row_dot(row, b, n)),
        ),
    decreases n,
{
    let zero = Block { bits: 0 };
    crate::block::lemma_xor(zero, zero, zero);
    if n > 0 {
        let k = (n - 1) as nat;
        lemma_matrix_keeps_correlation(m, w, b, d, beta, row, k);
        let (p, q) = (m.row_dot_block(row, d, k), m.row_dot(row, b, k));
        let bit = m.bit(row, n - 1);
        assert(w[n - 1] == d[n - 1].xor(beta.times(b[n - 1])));
        crate::block::lemma_xor_offset(p, d[n - 1].times(bit), beta, q, bit && b[n - 1]);
        crate::block::lemma_xor(d[n - 1], zero, zero);
    }
}

/// The vector with `value` at place `j` and `rest` elsewhere.
pub open spec fn single<T>(len: nat, j: int, value: T, rest: T) -> Seq<T> {
    Seq::new(
        len,
        |i: int|
            if i == j {
                value
            } else {
                rest
            },
    )
}

/// A row picks the one element of a vector that is set if it has that column.
proof fn lemma_single_dot(m: BinaryMatrix, row: int, j: int, block: Block, n: nat)
    requires
        n <= m.cols,
        0 <= j < m.cols,
    ensures
        m.row_dot(row, single(m.cols as nat, j, true, false), n) == (j < n && m.bit(row, j)),
        m.row_dot_block(row, single(m.cols as nat, j, block, Block { bits: 0 }), n)
            == block.times(j < n && m.bit(row, j)),
    decreases n,
{
    let zero = Block { bits: 0 };
    if n > 0 {
        lemma_single_dot(m, row, j, block, (n - 1) as nat);
        crate::block::lemma_xor(zero, block, zero);
        crate::block::lemma_xor(block, zero, zero);
        crate::block::lemma_xor(zero, zero, zero);
    }
}

/// The product with the unit vector of a column is that column, for bits and for blocks.
pub proof fn lemma_unit_vectors(m: BinaryMatrix, j: int, block: Block, i: int)
    requires
        0 <= j < m.cols,
        0 <= i < m.rows,
    ensures
        m.times_bits(single(m.cols as nat, j, true, false)).len() == m.rows,
        m.times_bits(single(m.cols as nat, j, true, false))[i] == m.bit(i, j),
        m.times_blocks(single(m.cols as nat, j, block, Block { bits: 0 })).len() == m.rows,
        m.times_blocks(single(m.cols as nat, j, block, Block { bits: 0 }))[i] == block.times(
            m.bit(i, j),
        ),
{
    lemma_single_dot(m, i, j, block, m.cols as nat);
}

proof fn lemma_dot_of_sum(
    m: BinaryMatrix,
    row: int,
    u: Seq<bool>,
    v: Seq<bool>,
    a: Seq<Block>,
    b: Seq<Block>,
    n: nat,
)
    requires
        u.len() == v.len() == a.len() == b.len() >= n,
    ensures
        m.row_dot(row, Seq::new(u.len(), |i: int| u[i] != v[i]), n) == (m.row_dot(row, u, n)
            != m.row_dot(row, v, n)),
        m.row_dot_block(row, Seq::new(a.len(), |i: int| a[i].xor(b[i])), n) == m.row_dot_block(
            row,
            a,
            n,
        ).xor(m.row_dot_block(row, b, n)),
    decreases n,
{
    let zero = Block { bits: 0 };
    crate::block::lemma_xor(zero, zero, zero);
    if n > 0 {
        let k = (n - 1) as nat;
        lemma_dot_of_sum(m, row, u, v, a, b, k);
        let bit = m.bit(row, n - 1);
        let (p, q) = (m.row_dot_block(row, a, k), m.row_dot_block(row, b, k));
        let (x, y) = (a[n - 1].times(bit), b[n - 1].times(bit));
        // (p + q) + (x + y) = (p + x) + (q + y)
        crate::block::lemma_xor(p, q, x.xor(y));
        crate::block::lemma_xor(q, x, y);
        crate::block::lemma_xor(x, q, y);
        crate::block::lemma_xor(p, x, q.xor(y));
    }
}

/// The product is additive in the vector, for bits and for blocks.
pub proof fn lemma_product_of_sum(
    m: BinaryMatrix,
    u: Seq<bool>,
    v: Seq<bool>,
    a: Seq<Block>,
    b: Seq<Block>,
    i: int,
)
    requires
        u.len() == v.len() == a.len() == b.len() == m.cols,
        0 <= i < m.rows,
    ensures
        m.times_bits(Seq::new(u.len(), |j: int| u[j] != v[j]))[i] == (m.times_bits(u)[i]
            != m.times_bits(v)[i]),
        m.times_blocks(Seq::new(a.len(), |j: int| a[j].xor(b[j])))[i] == m.times_blocks(a)[i].xor(
            m.times_blocks(b)[i],
        ),
{
    lemma_dot_of_sum(m, i, u, v, a, b, m.cols as nat);
}

/// An entry of a seeded matrix is a bit of a word of the seed's stream; each row takes whole words.
pub proof fn lemma_seeded_bits(
    m: BinaryMatrix,
    rows: usize,
    cols: usize,
    seed: u64,
    i: int,
    j: int,
)
    requires
        is_seeded(m, rows, cols, seed),
        0 <= i < rows,
        0 <= j < cols,
    ensures
        ({
            let words = (cols + 63) / 64;
            let stream = (SeededRng { seed, position: 0 }).words_drawn(
                (rows * words) as nat,
            ).0;
            &&& 0 <= i * words + j / 64 < stream.len()
            &&& m.bit(i, j) == ((stream[i * words + j / 64] >> ((j % 64) as u64)) & 1 == 1)
        }),
{
    lemma_word(rows as int, cols as int, i, j);
    assert(words_for(cols as nat) == (cols + 63) / 64);
    assert(rows as nat * words_for(cols as nat) == (rows * ((cols + 63) / 64)) as nat);
    (SeededRng { seed, position: 0 }).lemma_drawn_len(rows as nat * words_for(cols as nat));
}

/// Configuration for the Fcp protocol.
#[derive(Clone, Copy, Debug, PartialEq, Eq, Structural)]
pub struct FcpConfig {
    /// Number of input wires
    pub num_inputs: usize,
    /// Number of AND gates
    pub num_and_gates: usize,
    /// Compressed vector length L
    pub l: usize,
    /// Seed for generating the public matrix MH
    pub matrix_seed: u64,
}

impl FcpConfig {
    /// Create a new Fcp configuration.
    pub fn new(num_inputs: usize, num_and_gates: usize, matrix_seed: u64) -> (r: FcpConfig)
        ensures
            r.num_inputs == num_inputs,
            r.num_and_gates == num_and_gates,
            r.matrix_seed == matrix_seed,
            is_compressed_len(num_and_gates as nat, r.l as nat),
            2 * SSP <= r.l < 2 * SSP + 2560,
    {
        let l: usize = compute_l(num_and_gates);
        FcpConfig { num_inputs, num_and_gates, l, matrix_seed }
    }

    /// Get the public matrix MH (n × L over F2).
    pub fn matrix(&self) -> (r: BinaryMatrix)
        requires
            dimensions_fit(self.num_and_gates as nat, self.l as nat),
        ensures
            is_seeded(r, self.num_and_gates, self.l, self.matrix_seed),
    {
        BinaryMatrix::from_seed(self.num_and_gates, self.l, self.matrix_seed)
    }
}

} // verus!
