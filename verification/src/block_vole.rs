//! Block VOLE (Vector Oblivious Linear Evaluation) functionality.
//!
//! Block VOLE is a collection of VOLE instances where party A uses the same inputs across all VOLE
//! calls: B has `β_1, ..., β_k`, A has a vector `a`, and for each `i` A receives a random vector
//! `b_i` and B receives `v_i = a·β_i + b_i`.

use vstd::prelude::*;

use crate::block::{lemma_xor, Block};
use crate::fcp::BinaryMatrix;
use crate::gf2_128::gf_product;
use crate::rng::SeededRng;

verus! {

/// Error types for Block VOLE operations.
#[derive(Clone, Copy, Debug, PartialEq, Eq, Structural)]
pub enum BlockVoleError {
    /// A vector has the wrong length.
    DimensionMismatch {
        /// The length that was expected.
        expected: usize,
        /// The length that was given.
        got: usize,
    },
    /// The number of instances is zero.
    InvalidK(usize),
}

/// Output for the sender (Party A) in Block VOLE.
///
/// A receives random vectors b_1, ..., b_k that will be used as masks.
#[derive(Debug)]
pub struct BlockVoleSenderOutput {
    /// Random vectors b_i ∈ F_{2^ρ}^n for i = 1..k
    /// Stored as b[i][j] where i is the VOLE instance and j is the vector index
    pub b: Vec<Vec<Block>>,
}

/// Output for the receiver (Party B) in Block VOLE.
///
/// B receives v_i = a·β_i + b_i for each VOLE instance.
#[derive(Debug)]
pub struct BlockVoleReceiverOutput {
    /// Computed vectors v_i = a·β_i + b_i for i = 1..k
    pub v: Vec<Vec<Block>>,
}

/// The rows have the sequences as their contents.
pub open spec fn rows_are(rows: Seq<Vec<Block>>, want: Seq<Seq<Block>>) -> bool {
    &&& rows.len() == want.len()
    &&& forall|i: int| 0 <= i < rows.len() ==> (#[trigger] rows[i])@ == want[i]
}

/// There are `k` rows of `n` blocks.
pub open spec fn has_shape(rows: Seq<Vec<Block>>, k: nat, n: nat) -> bool {
    &&& rows.len() == k
    &&& forall|i: int| 0 <= i < k ==> (#[trigger] rows[i])@.len() == n
}

/// The `k` random rows of `n` blocks that are drawn, and the generator behind them.
pub open spec fn rows_drawn(rng: SeededRng, k: nat, n: nat) -> (Seq<Seq<Block>>, SeededRng)
    decreases k,
{
    if k == 0 {
        (Seq::empty(), rng)
    } else {
        let (rows, rng1) = rows_drawn(rng, (k - 1) as nat, n);
        let (row, rng2) = rng1.blocks_drawn(n);
        (rows.push(row), rng2)
    }
}

/// A row that B receives where A's input is bits: `a[j] * beta + b[j]`.
pub open spec fn bit_row(a: Seq<bool>, beta: Block, b: Seq<Block>) -> Seq<Block> {
    Seq::new(a.len(), |j: int| b[j].xor(beta.times(a[j])))
}

/// A row that B receives where A's input is field elements: `a[j] * beta + b[j]`.
pub open spec fn field_row(a: Seq<Block>, beta: Block, b: Seq<Block>) -> Seq<Block> {
    Seq::new(a.len(), |j: int| gf_product(a[j], beta).xor(b[j]))
}

/// The rows of the receiver are those of the sender, plus A's bits times B's correlations.
pub open spec fn bit_correlated(
    a: Seq<bool>,
    betas: Seq<Block>,
    b: Seq<Vec<Block>>,
    v: Seq<Vec<Block>>,
) -> bool {
    &&& has_shape(b, betas.len(), a.len())
    &&& v.len() == betas.len()
    &&& forall|i: int|
        0 <= i < betas.len() ==> (#[trigger] v[i])@ == bit_row(a, betas[i], b[i]@)
}

/// The rows of the receiver are those of the sender, plus A's elements times B's correlations.
pub open spec fn field_correlated(
    a: Seq<Block>,
    betas: Seq<Block>,
    b: Seq<Vec<Block>>,
    v: Seq<Vec<Block>>,
) -> bool {
    &&& has_shape(b, betas.len(), a.len())
    &&& v.len() == betas.len()
    &&& forall|i: int|
        0 <= i < betas.len() ==> (#[trigger] v[i])@ == field_row(a, betas[i], b[i]@)
}

/// Draws `k` rows of `n` blocks.
pub fn draw_rows(rng: &mut SeededRng, k: usize, n: usize) -> (r: Vec<Vec<Block>>)
    ensures
        rows_are(r@, rows_drawn(*old(rng), k as nat, n as nat).0),
        *final(rng) == rows_drawn(*old(rng), k as nat, n as nat).1,
        has_shape(r@, k as nat, n as nat),
{
    let mut b: Vec<Vec<Block>> = Vec::with_capacity(k);
    for i in 0..k
        invariant
            rows_are(b@, rows_drawn(*old(rng), i as nat, n as nat).0),
            *rng == rows_drawn(*old(rng), i as nat, n as nat).1,
            has_shape(b@, i as nat, n as nat),
    {
        let bi = rng.next_blocks(n);
        b.push(bi);
    }
    b
}

/// Ideal Block VOLE functionality for testing.
///
/// This is an ideal/trusted implementation that both parties would
/// interact with in the ideal world. In practice, this would be
/// replaced with a real protocol based on OT extension.
#[derive(Debug)]
pub struct IdealBlockVole {
    /// Source of randomness
    pub rng: SeededRng,
}

impl IdealBlockVole {
    /// Create a new ideal Block VOLE instance.
    pub fn new(seed: u64) -> (r: IdealBlockVole)
        ensures
            r.rng == (SeededRng { seed, position: 0 }),
    {
        IdealBlockVole { rng: SeededRng::seed_from_u64(seed) }
    }

    /// Execute Block Subfield VOLE where A's input is bits (F = F_2).
    ///
    /// # Arguments
    /// * `a` - A's input vector of bits (length n)
    /// * `betas` - B's correlation values β_1, ..., β_k ∈ F_{2^ρ}
    ///
    /// # Returns
    /// * `(BlockVoleSenderOutput, BlockVoleReceiverOutput)` - outputs for A and B
    ///
    /// # Computation
    /// For each i in 1..k:
    /// - b_i is random in F_{2^ρ}^n
    /// - v_i[j] = a[j] * β_i + b_i[j] (multiplication is scalar: 0 or β_i)
    pub fn subfield_vole(&mut self, a: &[bool], betas: &[Block]) -> (r: Result<
        (BlockVoleSenderOutput, BlockVoleReceiverOutput),
        BlockVoleError,
    >)
        ensures
            if betas.len() == 0 {
                &&& r == Err::<(BlockVoleSenderOutput, BlockVoleReceiverOutput), BlockVoleError>(
                    BlockVoleError::InvalidK(0),
                )
                &&& *final(self) == *old(self)
            } else {
                let (rows, rng) = rows_drawn(old(self).rng, betas@.len(), a@.len());
                &&& r matches Ok((sender, receiver))
                &&& rows_are(sender.b@, rows)
                &&& bit_correlated(a@, betas@, sender.b@, receiver.v@)
                &&& final(self).rng == rng
            },
    {
        let n: usize = a.len();
        let k: usize = betas.len();

        if k == 0 {
            return Err(BlockVoleError::InvalidK(k));
        }
        // Generate random b vectors for A

        let b = draw_rows(&mut self.rng, k, n);

        // Compute v vectors for B: v_i[j] = a[j] * β_i + b_i[j]
        let mut v: Vec<Vec<Block>> = Vec::with_capacity(k);
        for i in 0..k
            invariant
                n == a.len(),
                k == betas.len(),
                has_shape(b@, k as nat, n as nat),
                v.len() == i,
                forall|l: int|
                    0 <= l < i ==> (#[trigger] v@[l])@ == bit_row(a@, betas@[l], b@[l]@),
        {
            let ghost want = bit_row(a@, betas@[i as int], b@[i as int]@);
            let row = &b[i];
            let beta = betas[i];
            let mut vi: Vec<Block> = Vec::with_capacity(n);
            assert(b@[i as int]@.len() == n);
            for j in 0..n
                invariant
                    n == a.len() == row.len(),
                    want == bit_row(a@, beta, row@),
                    vi@ == want.take(j as int),
            {
                vi.push(row[j] ^ beta.mul_bool(a[j]));
                assert(vi@ =~= want.take(j + 1));
            }
            assert(want.take(n as int) =~= want);
            v.push(vi);
        }
        Ok((BlockVoleSenderOutput { b }, BlockVoleReceiverOutput { v }))
    }

    /// Execute Block VOLE where A's input is field elements (F = F_{2^ρ}).
    ///
    /// # Arguments
    /// * `a` - A's input vector in F_{2^ρ}^n
    /// * `betas` - B's correlation values β_1, ..., β_k ∈ F_{2^ρ}
    ///
    /// # Returns
    /// * `(BlockVoleSenderOutput, BlockVoleReceiverOutput)` - outputs for A and B
    ///
    /// # Computation
    /// For each i in 1..k:
    /// - b_i is random in F_{2^ρ}^n
    /// - v_i[j] = a[j] * β_i + b_i[j] (field multiplication in F_{2^ρ})
    pub fn block_vole(&mut self, a: &[Block], betas: &[Block]) -> (r: Result<
        (BlockVoleSenderOutput, BlockVoleReceiverOutput),
        BlockVoleError,
    >)
        ensures
            if betas.len() == 0 {
                &&& r == Err::<(BlockVoleSenderOutput, BlockVoleReceiverOutput), BlockVoleError>(
                    BlockVoleError::InvalidK(0),
                )
                &&& *final(self) == *old(self)
            } else {
                let (rows, rng) = rows_drawn(old(self).rng, betas@.len(), a@.len());
                &&& r matches Ok((sender, receiver))
                &&& rows_are(sender.b@, rows)
                &&& field_correlated(a@, betas@, sender.b@, receiver.v@)
                &&& final(self).rng == rng
            },
    {
        let n: usize = a.len();
        let k: usize = betas.len();

        if k == 0 {
            return Err(BlockVoleError::InvalidK(k));
        }
        // Generate random b vectors for A

        let b = draw_rows(&mut self.rng, k, n);

        // Compute v vectors for B: v_i[j] = a[j] * β_i + b_i[j]
        // Using field multiplication in GF(2^128)
        let mut v: Vec<Vec<Block>> = Vec::with_capacity(k);
        for i in 0..k
            invariant
                n == a.len(),
                k == betas.len(),
                has_shape(b@, k as nat, n as nat),
                v.len() == i,
                forall|l: int|
                    0 <= l < i ==> (#[trigger] v@[l])@ == field_row(a@, betas@[l], b@[l]@),
        {
            let ghost want = field_row(a@, betas@[i as int], b@[i as int]@);
            let row = &b[i];
            let beta = betas[i];
            let mut vi: Vec<Block> = Vec::with_capacity(n);
            assert(b@[i as int]@.len() == n);
            for j in 0..n
                invariant
                    n == a.len() == row.len(),
                    want == field_row(a@, beta, row@),
                    vi@ == want.take(j as int),
            {
                vi.push(a[j].gfmul(beta) ^ row[j]);
                assert(vi@ =~= want.take(j + 1));
            }
            assert(want.take(n as int) =~= want);
            v.push(vi);
        }
        Ok((BlockVoleSenderOutput { b }, BlockVoleReceiverOutput { v }))
    }
}

/// Subfield VOLE output for a single instance.
///
/// In subfield VOLE (F = F_2, E = F_{2^ρ}):
/// - A holds: key k ∈ F_{2^ρ}
/// - B holds: choice bit c ∈ F_2 and MAC m = c·Δ + k
#[derive(Clone, Copy, Debug, PartialEq, Eq, Structural)]
pub struct SubfieldVoleOutput {
    /// A's random key
    pub key: Block,
    /// B's choice bit
    pub choice: bool,
    /// B's MAC: m = choice * delta + key
    pub mac: Block,
}

impl SubfieldVoleOutput {
    /// The MAC is that of the choice.
    pub open spec fn is_correlated(&self, delta: Block) -> bool {
        self.mac == self.key.xor(delta.times(self.choice))
    }
}

/// The output for a key and a choice.
pub open spec fn subfield_output(key: Block, choice: bool, delta: Block) -> SubfieldVoleOutput {
    SubfieldVoleOutput { key, choice, mac: key.xor(delta.times(choice)) }
}

/// The random outputs that are drawn, and the generator behind them.
pub open spec fn outputs_drawn(rng: SeededRng, delta: Block, n: nat) -> (
    Seq<SubfieldVoleOutput>,
    SeededRng,
)
    decreases n,
{
    if n == 0 {
        (Seq::empty(), rng)
    } else {
        let (outputs, rng1) = outputs_drawn(rng, delta, (n - 1) as nat);
        let (key, rng2) = rng1.block_drawn();
        let (choice, rng3) = rng2.bit_drawn();
        (outputs.push(subfield_output(key, choice, delta)), rng3)
    }
}

/// The outputs with given choices that are drawn, and the generator behind them.
pub open spec fn outputs_chosen(
    rng: SeededRng,
    delta: Block,
    choices: Seq<bool>,
    n: nat,
) -> (Seq<SubfieldVoleOutput>, SeededRng)
    decreases n,
{
    if n == 0 {
        (Seq::empty(), rng)
    } else {
        let (outputs, rng1) = outputs_chosen(rng, delta, choices, (n - 1) as nat);
        let (key, rng2) = rng1.block_drawn();
        (outputs.push(subfield_output(key, choices[n - 1], delta)), rng2)
    }
}

/// Ideal Subfield VOLE for generating authenticated bits.
///
/// This generates correlations of the form:
/// - A holds: random key k
/// - B holds: (choice c, MAC m) where m = c·Δ + k
#[derive(Debug)]
pub struct IdealSubfieldVole {
    /// Source of randomness
    pub rng: SeededRng,
    /// B's global correlation Δ
    pub delta: Block,
}

impl IdealSubfieldVole {
    /// Create a new ideal subfield VOLE with given delta.
    pub fn new(seed: u64, delta: Block) -> (r: IdealSubfieldVole)
        ensures
            r.rng == (SeededRng { seed, position: 0 }),
            r.delta == delta,
    {
        IdealSubfieldVole { rng: SeededRng::seed_from_u64(seed), delta }
    }

    /// Generate `count` subfield VOLE correlations.
    ///
    /// Returns vectors of (key, choice, mac) tuples where:
    /// - mac = choice * delta + key
    pub fn generate(&mut self, count: usize) -> (r: Vec<SubfieldVoleOutput>)
        ensures
            (r@, final(self).rng) == outputs_drawn(old(self).rng, old(self).delta, count as nat),
            final(self).delta == old(self).delta,
            r.len() == count,
            forall|i: int|
                0 <= i < r.len() ==> (#[trigger] r@[i]).is_correlated(old(self).delta),
    {
        let mut out: Vec<SubfieldVoleOutput> = Vec::with_capacity(count);
        for i in 0..count
            invariant
                (out@, self.rng) == outputs_drawn(old(self).rng, old(self).delta, i as nat),
                self.delta == old(self).delta,
                out.len() == i,
                forall|k: int|
                    0 <= k < i ==> (#[trigger] out@[k]).is_correlated(old(self).delta),
        {
            let key = self.rng.next_block();
            let choice = self.rng.next_bool();
            let mac = key ^ self.delta.mul_bool(choice);
            out.push(SubfieldVoleOutput { key, choice, mac });
        }
        out
    }

    /// Generate subfield VOLE with specific choices (for testing).
    pub fn generate_with_choices(&mut self, choices: &[bool]) -> (r: Vec<SubfieldVoleOutput>)
        ensures
            (r@, final(self).rng) == outputs_chosen(
                old(self).rng,
                old(self).delta,
                choices@,
                choices@.len(),
            ),
            final(self).delta == old(self).delta,
            r.len() == choices.len(),
            forall|i: int|
                0 <= i < r.len() ==> (#[trigger] r@[i]).is_correlated(old(self).delta)
                    && r@[i].choice == choices@[i],
    {
        let mut out: Vec<SubfieldVoleOutput> = Vec::with_capacity(choices.len());
        for i in 0..choices.len()
            invariant
                (out@, self.rng) == outputs_chosen(
                    old(self).rng,
                    old(self).delta,
                    choices@,
                    i as nat,
                ),
                self.delta == old(self).delta,
                out.len() == i,
                forall|k: int|
                    0 <= k < i ==> (#[trigger] out@[k]).is_correlated(old(self).delta)
                        && out@[k].choice == choices@[k],
        {
            let choice = choices[i];
            let key = self.rng.next_block();
            let mac = key ^ self.delta.mul_bool(choice);
            out.push(SubfieldVoleOutput { key, choice, mac });
        }
        out
    }

    /// Get the delta value.
    pub fn delta(&self) -> (r: Block)
        ensures
            r == self.delta,
    {
        self.delta
    }
}

/// Extended VOLE that can be used to extend base VOLEs.
///
/// Given L base VOLEs, this can be extended to n VOLEs
/// using the public matrix MH.
#[derive(Debug)]
pub struct ExtendedVole {
    /// Base VOLE outputs (length L)
    pub base: Vec<SubfieldVoleOutput>,
}

/// The keys of the outputs.
pub open spec fn keys_of(outputs: Seq<SubfieldVoleOutput>) -> Seq<Block> {
    Seq::new(outputs.len(), |i: int| outputs[i].key)
}

/// The choices of the outputs.
pub open spec fn choices_of(outputs: Seq<SubfieldVoleOutput>) -> Seq<bool> {
    Seq::new(outputs.len(), |i: int| outputs[i].choice)
}

/// The MACs of the outputs.
pub open spec fn macs_of(outputs: Seq<SubfieldVoleOutput>) -> Seq<Block> {
    Seq::new(outputs.len(), |i: int| outputs[i].mac)
}

/// The output for a row of the matrix: the sums of the base outputs that the row picks.
pub open spec fn extended_output(
    base: Seq<SubfieldVoleOutput>,
    matrix: BinaryMatrix,
    row: int,
) -> SubfieldVoleOutput {
    SubfieldVoleOutput {
        key: matrix.row_dot_block(row, keys_of(base), matrix.cols as nat),
        choice: matrix.row_dot(row, choices_of(base), matrix.cols as nat),
        mac: matrix.row_dot_block(row, macs_of(base), matrix.cols as nat),
    }
}

impl ExtendedVole {
    /// Create from base VOLE outputs.
    pub fn new(base: Vec<SubfieldVoleOutput>) -> (r: ExtendedVole)
        ensures
            r.base == base,
    {
        ExtendedVole { base }
    }

    /// Extend using matrix MH to get n outputs.
    ///
    /// For each output wire i:
    /// - key'[i] = XOR of base keys where MH[i][j] = 1
    /// - choice'[i] = XOR of base choices where MH[i][j] = 1
    /// - mac'[i] = XOR of base MACs where MH[i][j] = 1
    pub fn extend(&self, matrix: &BinaryMatrix) -> (r: Vec<SubfieldVoleOutput>)
        requires
            matrix.wf(),
            self.base.len() == matrix.cols,
        ensures
            r@ == Seq::new(
                matrix.rows as nat,
                |i: int| extended_output(self.base@, *matrix, i),
            ),
    {
        let n: usize = matrix.rows;
        let l: usize = matrix.cols;
        let ghost (keys, choices, macs) = (
            keys_of(self.base@),
            choices_of(self.base@),
            macs_of(self.base@),
        );
        let mut out: Vec<SubfieldVoleOutput> = Vec::with_capacity(n);
        for i in 0..n
            invariant
                matrix.wf(),
                n == matrix.rows,
                l == matrix.cols == self.base.len(),
                keys == keys_of(self.base@),
                choices == choices_of(self.base@),
                macs == macs_of(self.base@),
                out.len() == i,
                forall|k: int|
                    0 <= k < i ==> #[trigger] out@[k] == extended_output(self.base@, *matrix, k),
        {
            let mut key = Block::zero();
            let mut choice = false;
            let mut mac = Block::zero();
            for j in 0..l
                invariant
                    matrix.wf(),
                    i < matrix.rows,
                    l == matrix.cols == self.base.len(),
                    keys == keys_of(self.base@),
                    choices == choices_of(self.base@),
                    macs == macs_of(self.base@),
                    key == matrix.row_dot_block(i as int, keys, j as nat),
                    choice == matrix.row_dot(i as int, choices, j as nat),
                    mac == matrix.row_dot_block(i as int, macs, j as nat),
            {
                proof {
                    lemma_xor(key, key, key);
                    lemma_xor(mac, mac, mac);
                }
                if matrix.get(i, j) {
                    key = key ^ self.base[j].key;
                    choice = choice ^ self.base[j].choice;
                    mac = mac ^ self.base[j].mac;
                }
            }
            out.push(SubfieldVoleOutput { key, choice, mac });
        }
        assert(out@ =~= Seq::new(
            matrix.rows as nat,
            |i: int| extended_output(self.base@, *matrix, i),
        ));
        out
    }

    /// Get the base outputs.
    pub fn base(&self) -> (r: &[SubfieldVoleOutput])
        ensures
            r@ == self.base@,
    {
        self.base.as_slice()
    }
}

/// Extending correlated base outputs gives correlated outputs.
pub proof fn lemma_extension_is_correlated(
    base: Seq<SubfieldVoleOutput>,
    matrix: BinaryMatrix,
    delta: Block,
    row: int,
)
    requires
        base.len() == matrix.cols,
        forall|i: int| 0 <= i < base.len() ==> (#[trigger] base[i]).is_correlated(delta),
    ensures
        extended_output(base, matrix, row).is_correlated(delta),
{
    let (keys, choices, macs) = (keys_of(base), choices_of(base), macs_of(base));
    assert forall|i: int| 0 <= i < base.len() implies #[trigger] macs[i] == keys[i].xor(
        delta.times(choices[i]),
    ) by {
        assert(base[i].is_correlated(delta));
    }
    crate::fcp::matrix::lemma_matrix_keeps_correlation(
        matrix,
        macs,
        choices,
        keys,
        delta,
        row,
        matrix.cols as nat,
    );
}

/// The instances of a block VOLE share A's input: two rows of the receiver differ by the rows of
/// the sender, and by the two correlations where A's bit is set.
pub proof fn lemma_same_input(
    a: Seq<bool>,
    betas: Seq<Block>,
    b: Seq<Vec<Block>>,
    v: Seq<Vec<Block>>,
    i: int,
    k: int,
    j: int,
)
    requires
        bit_correlated(a, betas, b, v),
        0 <= i < betas.len(),
        0 <= k < betas.len(),
        0 <= j < a.len(),
    ensures
        v[i]@[j].xor(v[k]@[j]) == b[i]@[j].xor(b[k]@[j]).xor(
            betas[i].xor(betas[k]).times(a[j]),
        ),
{
    let (p, q) = (b[i]@[j], b[k]@[j]);
    let (s, t) = (betas[i].times(a[j]), betas[k].times(a[j]));
    assert(v[i]@ == bit_row(a, betas[i], b[i]@));
    assert(v[k]@ == bit_row(a, betas[k], b[k]@));
    let (x, y, z, w) = (p.bits, s.bits, q.bits, t.bits);
    assert((x ^ y) ^ (z ^ w) == (x ^ z) ^ (y ^ w)) by (bit_vector);
    let zero = Block { bits: 0 };
    lemma_xor(zero, zero, zero);
}

/// What the receiver holds beyond the sender's rows is A's input times B's: a bit selects B's element,
/// and field elements are multiplied.
pub proof fn lemma_correlations(
    a: Seq<bool>,
    e: Seq<Block>,
    betas: Seq<Block>,
    b: Seq<Vec<Block>>,
    v: Seq<Vec<Block>>,
    i: int,
    j: int,
)
    requires
        0 <= i < betas.len(),
    ensures
        bit_correlated(a, betas, b, v) && 0 <= j < a.len() ==> v[i]@[j].xor(b[i]@[j])
            == betas[i].times(a[j]),
        field_correlated(e, betas, b, v) && 0 <= j < e.len() ==> v[i]@[j].xor(b[i]@[j])
            == gf_product(e[j], betas[i]),
{
    if bit_correlated(a, betas, b, v) && 0 <= j < a.len() {
        assert(v[i]@ == bit_row(a, betas[i], b[i]@));
        let (p, q) = (b[i]@[j], betas[i].times(a[j]));
        crate::block::lemma_xor(p, q, p);
        crate::block::lemma_xor(q, p, p);
    }
    if field_correlated(e, betas, b, v) && 0 <= j < e.len() {
        assert(v[i]@ == field_row(e, betas[i], b[i]@));
        let (p, q) = (b[i]@[j], gf_product(e[j], betas[i]));
        crate::block::lemma_xor(q, p, p);
    }
}

/// The outputs are drawn in turn: a key and a choice for each, or a key where the choices are given.
/// The MAC is the key, plus the correlation if the choice is set.
pub proof fn lemma_outputs_drawn(
    rng: SeededRng,
    delta: Block,
    choices: Seq<bool>,
    i: nat,
    n: nat,
)
    requires
        i < n,
    ensures
        ({
            let out = outputs_drawn(rng, delta, n).0;
            let (key, next) = outputs_drawn(rng, delta, i).1.block_drawn();
            &&& outputs_drawn(rng, delta, 0).1 == rng
            &&& out.len() == n
            &&& out[i as int].key == key
            &&& out[i as int].choice == next.bit_drawn().0
            &&& out[i as int].mac.xor(key) == delta.times(out[i as int].choice)
            &&& outputs_drawn(rng, delta, i + 1).1 == next.bit_drawn().1
        }),
        ({
            let out = outputs_chosen(rng, delta, choices, n).0;
            let (key, next) = outputs_chosen(rng, delta, choices, i).1.block_drawn();
            &&& outputs_chosen(rng, delta, choices, 0).1 == rng
            &&& out.len() == n
            &&& out[i as int].key == key
            &&& out[i as int].choice == choices[i as int]
            &&& out[i as int].mac.xor(key) == delta.times(choices[i as int])
            &&& outputs_chosen(rng, delta, choices, i + 1).1 == next
        }),
    decreases n,
{
    lemma_outputs_len(rng, delta, choices, n);
    lemma_outputs_len(rng, delta, choices, (n - 1) as nat);
    if i + 1 < n {
        lemma_outputs_drawn(rng, delta, choices, i, (n - 1) as nat);
    } else {
        let (key, next) = outputs_drawn(rng, delta, i).1.block_drawn();
        let d = delta.times(next.bit_drawn().0);
        crate::block::lemma_xor(key, d, key);
        crate::block::lemma_xor(d, key, key);
        let (key, next) = outputs_chosen(rng, delta, choices, i).1.block_drawn();
        let d = delta.times(choices[i as int]);
        crate::block::lemma_xor(key, d, key);
        crate::block::lemma_xor(d, key, key);
    }
}

proof fn lemma_outputs_len(rng: SeededRng, delta: Block, choices: Seq<bool>, n: nat)
    ensures
        outputs_drawn(rng, delta, n).0.len() == n,
        outputs_chosen(rng, delta, choices, n).0.len() == n,
    decreases n,
{
    if n > 0 {
        lemma_outputs_len(rng, delta, choices, (n - 1) as nat);
    }
}

/// The rows are drawn in turn.
pub proof fn lemma_rows_drawn(rng: SeededRng, i: nat, k: nat, n: nat)
    requires
        i < k,
    ensures
        ({
            let (row, next) = rows_drawn(rng, i, n).1.blocks_drawn(n);
            &&& rows_drawn(rng, 0, n).1 == rng
            &&& rows_drawn(rng, k, n).0.len() == k
            &&& rows_drawn(rng, k, n).0[i as int] == row
            &&& rows_drawn(rng, i + 1, n).1 == next
        }),
    decreases k,
{
    if i + 1 < k {
        lemma_rows_drawn(rng, i, (k - 1) as nat, n);
    } else if k > 1 {
        lemma_rows_drawn(rng, 0, (k - 1) as nat, n);
    }
}

/// Extending multiplies the keys, the choices and the MACs of the base outputs by the matrix.
pub proof fn lemma_extension_parts(base: Seq<SubfieldVoleOutput>, matrix: BinaryMatrix, row: int)
    requires
        0 <= row < matrix.rows,
    ensures
        ({
            let out = extended_output(base, matrix, row);
            let (keys, choices, macs) = (
                Seq::new(base.len(), |i: int| base[i].key),
                Seq::new(base.len(), |i: int| base[i].choice),
                Seq::new(base.len(), |i: int| base[i].mac),
            );
            &&& out.key == matrix.times_blocks(keys)[row]
            &&& out.choice == matrix.times_bits(choices)[row]
            &&& out.mac == matrix.times_blocks(macs)[row]
        }),
{
    assert(keys_of(base) =~= Seq::new(base.len(), |i: int| base[i].key));
    assert(choices_of(base) =~= Seq::new(base.len(), |i: int| base[i].choice));
    assert(macs_of(base) =~= Seq::new(base.len(), |i: int| base[i].mac));
}

} // verus!
