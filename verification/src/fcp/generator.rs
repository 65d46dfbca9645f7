//! The generator's side of compressed preprocessing (Party A).

use vstd::prelude::*;

use crate::block::Block;
use crate::block_vole::has_shape;
use crate::correlated::{Delta, Key, Mac};
use crate::fcp::matrix::{BinaryMatrix, FcpConfig};
use crate::rng::{random_bool, random_u128};
use crate::shares::{AuthBitShare, AuthTripleShare};

verus! {

/// Error types for Fcp operations.
#[derive(Debug)]
pub enum FcpError {
    /// The number of AND gates is zero.
    InvalidAndCount(usize),
    /// A matrix has the wrong dimension.
    MatrixDimensionMismatch {
        /// The dimension that was expected.
        expected: usize,
        /// The dimension that was given.
        got: usize,
    },
    /// A vector has the wrong length.
    VoleLengthMismatch {
        /// The length that was expected.
        expected: usize,
        /// The length that was given.
        got: usize,
    },
    /// Block VOLE failed.
    BlockVole(String),
}

/// Certification proof for Steps 10-11: a commitment to B's witness values (β, b̃).
#[derive(Clone, Copy, Debug, PartialEq, Eq, Structural)]
pub struct CertificationProof {
    /// Commitment to B's witness values (β, b̃, etc.)
    pub commitment: Block,
}

/// Output of Step 12: Intermediate values computed by B.
///
/// These values are used in Step 13 to compute the final authenticated shares.
#[derive(Debug)]
pub struct Step12Output {
    /// v̂_k for each AND gate k (authenticated AND output shares)
    pub v_hat: Vec<Block>,
    /// v_{k,2} values for each AND gate k
    pub v_2: Vec<Block>,
    /// v_{k,3} values for each AND gate k
    pub v_3: Vec<Block>,
    /// v_{k,4} values for each AND gate k
    pub v_4: Vec<Block>,
    /// v_{k,5} values for each AND gate k
    pub v_5: Vec<Block>,
}

/// Messages sent from A to B in Step 13.
#[derive(Debug)]
pub struct Step13Messages {
    /// m_{k,1} for each AND gate k
    pub m_1: Vec<Block>,
    /// m_{k,2} for each AND gate k
    pub m_2: Vec<Block>,
}

/// Output of Step 13: B's authenticated shares.
#[derive(Debug)]
pub struct Step13Output {
    /// b̂_k for each AND gate k (B's share of the AND output)
    pub b_hat: Vec<Block>,
    /// d̂_k for each AND gate k (B's MAC for the AND output)
    pub d_hat: Vec<Block>,
}

/// Final Fcp output (Step 14): wire shares and triple shares of a party.
#[derive(Debug)]
pub struct FcpOutput {
    /// Authenticated wire label shares
    pub wire_shares: Vec<AuthBitShare>,
    /// Authenticated AND triple shares
    pub triple_shares: Vec<AuthTripleShare>,
}

/// Generator's state for the Fcp protocol (Party A).
///
/// A holds:
/// - α ∈ F_{2^ρ} (global correlation)
/// - a ∈ F_2^n (wire labels)
/// - c ∈ F_{2^ρ}^n (MAC keys)
/// - w̃ from subfield VOLE
#[derive(Debug)]
pub struct FcpGen {
    /// Configuration
    pub config: FcpConfig,
    /// Generator's global correlation (α)
    pub delta: Delta,
    /// Public matrix MH
    pub matrix: BinaryMatrix,
    /// w̃ ∈ F_{2^ρ}^L from subfield VOLE (A is receiver)
    /// Correlation: w̃[i] = b̃[i] * β + d̃[i]
    pub w_tilde: Vec<Block>,
    /// w = MH · w̃ (expanded to length n)
    pub w: Vec<Block>,
    /// c_{i,j} ∈ F_{2^ρ} MAC keys for d_{i,j} (A's side), one for each AND gate
    pub c_ij: Vec<Block>,
    /// a - wire mask bits (length n)
    pub a: Vec<bool>,
    /// a_i · a_j - products for AND gates (length n)
    pub a_products: Vec<bool>,
    /// â_i - random bits for AND shares (length n)
    pub a_hat: Vec<bool>,
    /// ā - concatenated vector for block VOLE (length 3n)
    pub a_bar: Vec<bool>,
    /// c values from subfield block VOLE (A's random masks)
    pub c_subfield: Vec<Vec<Block>>,
    /// α·ā input for full block VOLE
    pub alpha_a_bar: Vec<Block>,
    /// â_{i,2} - random field elements for AND shares
    pub a_hat_2: Vec<Block>,
    /// c' values from full block VOLE
    pub c_full: Vec<Vec<Block>>,
    /// Wire mask shares (a values)
    pub wire_shares: Vec<AuthBitShare>,
    /// Triple shares for AND gates
    pub triple_shares: Vec<AuthTripleShare>,
}

/// The bit of a wire, or false if there is none.
pub open spec fn bit_or_false(bits: Seq<bool>, i: int) -> bool {
    0 <= i < bits.len() && bits[i]
}

/// The block of a wire, or zero if there is none.
pub open spec fn block_or_zero(blocks: Seq<Block>, i: int) -> Block {
    if 0 <= i < blocks.len() {
        blocks[i]
    } else {
        Block { bits: 0 }
    }
}

/// Reads the bit of a wire.
pub fn get_bit(bits: &Vec<bool>, i: usize) -> (r: bool)
    ensures
        r == bit_or_false(bits@, i as int),
{
    if i < bits.len() {
        bits[i]
    } else {
        false
    }
}

/// Reads the block of a wire.
pub fn get_block(blocks: &Vec<Block>, i: usize) -> (r: Block)
    ensures
        r == block_or_zero(blocks@, i as int),
{
    if i < blocks.len() {
        blocks[i]
    } else {
        Block::zero()
    }
}

/// The products of the masks of the wires that the gates read.
pub open spec fn mask_products(a: Seq<bool>, gate_indices: Seq<(usize, usize)>) -> Seq<bool> {
    Seq::new(
        gate_indices.len(),
        |k: int|
            bit_or_false(a, gate_indices[k].0 as int) && bit_or_false(
                a,
                gate_indices[k].1 as int,
            ),
    )
}

/// The correlation for each bit that is set, else zero.
pub open spec fn scaled_bits(bits: Seq<bool>, alpha: Block) -> Seq<Block> {
    Seq::new(bits.len(), |i: int| alpha.times(bits[i]))
}

/// Computes the correlation for each bit that is set.
pub fn scale_bits(bits: &Vec<bool>, alpha: &Block) -> (r: Vec<Block>)
    ensures
        r@ == scaled_bits(bits@, *alpha),
{
    let mut out: Vec<Block> = Vec::with_capacity(bits.len());
    let ghost want = scaled_bits(bits@, *alpha);
    for i in 0..bits.len()
        invariant
            want == scaled_bits(bits@, *alpha),
            out@ == want.take(i as int),
    {
        out.push(alpha.mul_bool(bits[i]));
        assert(out@ =~= want.take(i + 1));
    }
    assert(want.take(bits.len() as int) =~= want);
    out
}

/// Draws `n` random bits.
pub fn random_bits(n: usize) -> (r: Vec<bool>)
    ensures
        r.len() == n,
{
    let mut out: Vec<bool> = Vec::with_capacity(n);
    for i in 0..n
        invariant
            out.len() == i,
    {
        out.push(random_bool());
    }
    out
}

/// Draws `n` random blocks.
pub fn random_blocks(n: usize) -> (r: Vec<Block>)
    ensures
        r.len() == n,
{
    let mut out: Vec<Block> = Vec::with_capacity(n);
    for i in 0..n
        invariant
            out.len() == i,
    {
        out.push(Block { bits: random_u128() });
    }
    out
}

/// A row, if it is there, has those of the `n` entries from `from` on that the first row has.
pub open spec fn row_reaches(rows: Seq<Vec<Block>>, i: int, from: int, n: int) -> bool {
    0 <= i < rows.len() ==> {
        ||| n <= 0
        ||| rows[0]@.len() <= from
        ||| rows[i]@.len() >= rows[0]@.len()
        ||| rows[i]@.len() >= from + n
    }
}

/// The entry of a matrix of blocks, or zero if there is no such row.
pub open spec fn entry_or_zero(rows: Seq<Vec<Block>>, i: int, j: int) -> Block {
    if 0 <= i < rows.len() {
        rows[i]@[j]
    } else {
        Block { bits: 0 }
    }
}

/// A message of Step 13: A's bit times α, plus two masks; zero if the masks are missing.
pub open spec fn message(
    rows: Seq<Vec<Block>>,
    a_bar: Seq<bool>,
    alpha: Block,
    first: int,
    second: int,
    at: int,
) -> Block {
    if rows.len() > 0 && rows[0]@.len() > at {
        alpha.times(bit_or_false(a_bar, at)).xor(entry_or_zero(rows, first, at)).xor(
            entry_or_zero(rows, second, at),
        )
    } else {
        Block { bits: 0 }
    }
}

/// Computes a message of Step 13.
fn compute_message(
    rows: &Vec<Vec<Block>>,
    a_bar: &Vec<bool>,
    alpha: &Block,
    first: usize,
    second: usize,
    at: usize,
) -> (r: Block)
    requires
        row_reaches(rows@, first as int, at as int, 1),
        row_reaches(rows@, second as int, at as int, 1),
    ensures
        r == message(rows@, a_bar@, *alpha, first as int, second as int, at as int),
{
    if rows.len() > 0 && rows[0].len() > at {
        let c_first = if first < rows.len() {
            rows[first][at]
        } else {
            Block::zero()
        };
        let c_second = if second < rows.len() {
            rows[second][at]
        } else {
            Block::zero()
        };
        let bit = alpha.mul_bool(get_bit(a_bar, at));
        bit ^ c_first ^ c_second
    } else {
        Block::zero()
    }
}

/// A share of A: its key and its bit.
pub open spec fn key_share(key: Block, value: bool) -> AuthBitShare {
    AuthBitShare { key: Key { block: key }, mac: Mac { block: Block { bits: 0 } }, value }
}

/// Makes a share of A.
fn make_key_share(key: Block, value: bool) -> (r: AuthBitShare)
    ensures
        r == key_share(key, value),
{
    AuthBitShare { key: Key::from(key), mac: Mac::from(Block::zero()), value }
}

impl FcpGen {
    /// Create a new FcpGen instance.
    pub fn new(config: FcpConfig, delta: Delta) -> (r: FcpGen)
        requires
            crate::fcp::matrix::dimensions_fit(config.num_and_gates as nat, config.l as nat),
        ensures
            r.config == config,
            r.delta == delta,
            crate::fcp::matrix::is_seeded(
                r.matrix,
                config.num_and_gates,
                config.l,
                config.matrix_seed,
            ),
            r.w_tilde@ == Seq::<Block>::empty(),
            r.w@ == Seq::<Block>::empty(),
            r.c_ij@ == Seq::<Block>::empty(),
            r.a@ == Seq::<bool>::empty(),
            r.a_products@ == Seq::<bool>::empty(),
            r.a_hat@ == Seq::<bool>::empty(),
            r.a_bar@ == Seq::<bool>::empty(),
            r.c_subfield@ == Seq::<Vec<Block>>::empty(),
            r.alpha_a_bar@ == Seq::<Block>::empty(),
            r.a_hat_2@ == Seq::<Block>::empty(),
            r.c_full@ == Seq::<Vec<Block>>::empty(),
            r.wire_shares@ == Seq::<AuthBitShare>::empty(),
            r.triple_shares@ == Seq::<AuthTripleShare>::empty(),
    {
        let matrix = config.matrix();
        FcpGen {
            config,
            delta,
            matrix,
            w_tilde: Vec::new(),
            w: Vec::new(),
            c_ij: Vec::new(),
            a: Vec::new(),
            a_products: Vec::new(),
            a_hat: Vec::new(),
            a_bar: Vec::new(),
            c_subfield: Vec::new(),
            alpha_a_bar: Vec::new(),
            a_hat_2: Vec::new(),
            c_full: Vec::new(),
            wire_shares: Vec::new(),
            triple_shares: Vec::new(),
        }
    }

    /// Step 2: Receive w̃ from subfield VOLE (A is receiver).
    ///
    /// In the subfield VOLE, B chooses random b̃ ∈ F_2^L and d̃ ∈ F_{2^ρ}^L,
    /// and A receives w̃ where w̃[i] = b̃[i] * β + d̃[i].
    pub fn step2_receive_vole(&mut self, w_tilde: Vec<Block>) -> (r: Result<(), FcpError>)
        ensures
            if w_tilde.len() != old(self).config.l {
                &&& r == Err::<(), FcpError>(
                    FcpError::VoleLengthMismatch {
                        expected: old(self).config.l,
                        got: w_tilde.len(),
                    },
                )
                &&& *final(self) == *old(self)
            } else {
                &&& r is Ok
                &&& *final(self) == (FcpGen { w_tilde, ..*old(self) })
            },
    {
        if w_tilde.len() != self.config.l {
            return Err(
                FcpError::VoleLengthMismatch { expected: self.config.l, got: w_tilde.len() },
            );
        }
        self.w_tilde = w_tilde;
        Ok(())
    }

    /// Step 3: Receive c_{i,j} values from extended VOLE (A's side).
    ///
    /// A receives MAC keys c_{i,j} for the authenticated product d_{i,j}.
    /// Relation: c_{i,j} = α·(b_i ∧ b_j) + d_{i,j}
    ///
    /// # Arguments
    /// * `c_ij` - MAC keys for each AND gate
    pub fn step3_receive_extended_vole(&mut self, c_ij: Vec<Block>)
        ensures
            *final(self) == (FcpGen { c_ij, ..*old(self) }),
    {
        self.c_ij = c_ij;
    }

    /// Step 4: Expand w̃ to w using the MH matrix.
    ///
    /// Computes w = MH · w̃, expanding from length L to length n.
    /// The VOLE correlation is preserved: w[i] = b'[i] * β + d'[i]
    /// where b' = MH · b̃ and d' = MH · d̃.
    pub fn step4_expand(&mut self)
        requires
            old(self).matrix.wf(),
            old(self).w_tilde.len() == old(self).matrix.cols,
        ensures
            final(self).w@ == old(self).matrix.times_blocks(old(self).w_tilde@),
            *final(self) == (FcpGen { w: final(self).w, ..*old(self) }),
    {
        self.w = self.matrix.mul_vec_block(self.w_tilde.as_slice());
    }

    /// Step 6: Construct vector ā for block VOLE, with random â_i.
    ///
    /// Constructs ā = a ∪ (a_i · a_j) ∪ (â_i) where:
    /// - a: wire mask bits (length n)
    /// - a_i · a_j: products of input wire masks for each AND gate (length n)
    /// - â_i: random bits that become part of A's AND share output (length n)
    ///
    /// # Arguments
    /// * `a` - Wire mask bits for AND gate output wires (length n)
    /// * `gate_indices` - (i, j) pairs where gate k has inputs from wires i and j
    pub fn step6_construct_a_bar(&mut self, a: &[bool], gate_indices: &[(usize, usize)])
        requires
            a.len() == old(self).config.num_and_gates,
            gate_indices.len() == old(self).config.num_and_gates,
        ensures
            final(self).a_hat.len() == old(self).config.num_and_gates,
            has_a_bar(*old(self), *final(self), a@, gate_indices@, final(self).a_hat@),
    {
        // Generate random â_i bits
        let a_hat = random_bits(self.config.num_and_gates);
        self.construct_a_bar(a, gate_indices, a_hat);
    }

    /// Constructs vector ā from given bits â_i.
    pub fn construct_a_bar(
        &mut self,
        a: &[bool],
        gate_indices: &[(usize, usize)],
        a_hat: Vec<bool>,
    )
        requires
            a.len() == old(self).config.num_and_gates,
            gate_indices.len() == old(self).config.num_and_gates,
            a_hat.len() == old(self).config.num_and_gates,
        ensures
            has_a_bar(*old(self), *final(self), a@, gate_indices@, a_hat@),
    {
        // Store wire masks
        let mut masks: Vec<bool> = Vec::with_capacity(a.len());
        for i in 0..a.len()
            invariant
                masks@ == a@.take(i as int),
        {
            masks.push(a[i]);
            assert(masks@ =~= a@.take(i + 1));
        }
        assert(a@.take(a.len() as int) =~= a@);

        // Compute products a_i · a_j for each AND gate
        let mut a_products: Vec<bool> = Vec::with_capacity(gate_indices.len());
        let ghost want = mask_products(a@, gate_indices@);
        for k in 0..gate_indices.len()
            invariant
                masks@ == a@,
                want == mask_products(a@, gate_indices@),
                a_products@ == want.take(k as int),
        {
            let (i, j) = gate_indices[k];
            let a_i = get_bit(&masks, i);
            let a_j = get_bit(&masks, j);
            a_products.push(a_i && a_j);
            assert(a_products@ =~= want.take(k + 1));
        }
        assert(want.take(gate_indices.len() as int) =~= want);

        // Construct ā = a ∪ (a_i · a_j) ∪ (â_i)
        let mut a_bar: Vec<bool> = Vec::new();
        a_bar.extend_from_slice(masks.as_slice());
        a_bar.extend_from_slice(a_products.as_slice());
        a_bar.extend_from_slice(a_hat.as_slice());
        assert(a_bar@ =~= a@ + want + a_hat@);
        self.a = masks;
        self.a_products = a_products;
        self.a_hat = a_hat;
        self.a_bar = a_bar;
    }

    /// Get the â values (random AND share bits).
    pub fn a_hat(&self) -> (r: &[bool])
        ensures
            r@ == self.a_hat@,
    {
        self.a_hat.as_slice()
    }

    /// Step 8: Receive subfield block VOLE output.
    ///
    /// In subfield block VOLE F^{(F_{2ρ}, F_2, L+2, n)}_{bVOLE}:
    /// - A's input: ā ∈ F_2^{3n} (bits)
    /// - B's input: b̄ ∈ F_{2ρ}^{L+2}
    /// - A receives: c[i] for i ∈ [L+2], each c[i] ∈ F_{2ρ}^{3n}
    /// - B receives: v[i] = ā · b̄[i] + c[i]
    ///
    /// The c values are random masks that A will use to compute authenticated values.
    pub fn step8_receive_subfield_vole(&mut self, c: Vec<Vec<Block>>)
        requires
            has_shape(
                c@,
                (old(self).config.l + 2) as nat,
                (3 * old(self).config.num_and_gates) as nat,
            ),
        ensures
            *final(self) == (FcpGen { c_subfield: c, ..*old(self) }),
    {
        self.c_subfield = c;
    }

    /// Step 9: Construct α·ā input and receive full block VOLE output, with random â_{i,2}.
    ///
    /// A's input to full block VOLE is: α·ā ∪ (â_{i,2}) ∪ {α}
    /// - α·ā: ā scaled by α (length 3n, as field elements)
    /// - â_{i,2}: random field elements for AND shares (length n)
    /// - α: A's global correlation
    ///
    /// Total input length: 3n + n + 1 = 4n + 1
    pub fn step9_construct_alpha_input_and_receive_vole(&mut self, c: Vec<Vec<Block>>)
        requires
            has_shape(
                c@,
                (old(self).config.l + 2) as nat,
                (4 * old(self).config.num_and_gates + 1) as nat,
            ),
        ensures
            final(self).alpha_a_bar@ == scaled_bits(old(self).a_bar@, old(self).delta.block),
            final(self).a_hat_2.len() == old(self).config.num_and_gates,
            *final(self) == (FcpGen {
                alpha_a_bar: final(self).alpha_a_bar,
                a_hat_2: final(self).a_hat_2,
                c_full: c,
                ..*old(self)
            }),
    {
        // Construct α·ā (convert bits to field elements scaled by α)
        self.alpha_a_bar = scale_bits(&self.a_bar, self.delta.as_block());

        // Generate random â_{i,2} ∈ F_{2ρ}^n
        self.a_hat_2 = random_blocks(self.config.num_and_gates);

        // Store the VOLE output
        self.c_full = c;
    }

    /// Get â_{i,2} values (random field elements for AND shares).
    pub fn a_hat_2(&self) -> (r: &[Block])
        ensures
            r@ == self.a_hat_2@,
    {
        self.a_hat_2.as_slice()
    }

    /// Step 13: Compute and send messages to B.
    ///
    /// A computes messages for each AND gate k:
    /// - m_{k,1} involves ā values and c values from subfield block VOLE
    /// - m_{k,2} involves ā values and c values from subfield block VOLE
    ///
    /// These messages allow B to compute authenticated shares b̂_k and d̂_k.
    ///
    /// # Returns
    /// Messages to be sent to B
    pub fn step13_compute_messages(&self) -> (r: Step13Messages)
        requires
            self.messages_reach(),
            3 * self.config.num_and_gates <= usize::MAX,
        ensures
            r.m_1@ == Seq::new(
                self.config.num_and_gates as nat,
                |k: int| self.first_message(k),
            ),
            r.m_2@ == Seq::new(
                self.config.num_and_gates as nat,
                |k: int| self.second_message(k),
            ),
    {
        let n: usize = self.config.num_and_gates;

        let mut m_1: Vec<Block> = Vec::with_capacity(n);
        let mut m_2: Vec<Block> = Vec::with_capacity(n);

        // For each AND gate k, compute the two message components
        for k in 0..n
            invariant
                n == self.config.num_and_gates,
                3 * n <= usize::MAX,
                self.messages_reach(),
                m_1@ =~= Seq::new(k as nat, |k: int| self.first_message(k)),
                m_2@ =~= Seq::new(k as nat, |k: int| self.second_message(k)),
        {
            let alpha = self.delta.as_block();
            // m_{k,1} uses values from positions related to products (second segment of ā)
            let msg_1 = compute_message(&self.c_subfield, &self.a_bar, alpha, 0, 3, n + k);
            // m_{k,2} uses values from positions related to random shares (third segment of ā)
            let msg_2 = compute_message(&self.c_subfield, &self.a_bar, alpha, 1, 4, 2 * n + k);
            m_1.push(msg_1);
            m_2.push(msg_2);
        }
        Step13Messages { m_1, m_2 }
    }

    /// The rows that the messages read hold the entries that the first row holds.
    pub open spec fn messages_reach(&self) -> bool {
        let n = self.config.num_and_gates as int;
        &&& row_reaches(self.c_subfield@, 3, n, n)
        &&& row_reaches(self.c_subfield@, 1, 2 * n, n)
        &&& row_reaches(self.c_subfield@, 4, 2 * n, n)
    }

    /// The message m_{k,1}.
    pub open spec fn first_message(&self, k: int) -> Block {
        message(
            self.c_subfield@,
            self.a_bar@,
            self.delta.block,
            0,
            3,
            self.config.num_and_gates + k,
        )
    }

    /// The message m_{k,2}.
    pub open spec fn second_message(&self, k: int) -> Block {
        message(
            self.c_subfield@,
            self.a_bar@,
            self.delta.block,
            1,
            4,
            2 * self.config.num_and_gates + k,
        )
    }

    /// A's share of the mask of a wire.
    pub open spec fn mask_share(&self, wire: int) -> AuthBitShare {
        key_share(block_or_zero(self.w@, wire), bit_or_false(self.a@, wire))
    }

    /// A's share of the triple of gate `k`.
    pub open spec fn triple_share(&self, gate_indices: Seq<(usize, usize)>, k: int) -> AuthTripleShare {
        AuthTripleShare {
            x: self.mask_share(gate_indices[k].0 as int),
            y: self.mask_share(gate_indices[k].1 as int),
            z: key_share(block_or_zero(self.a_hat_2@, k), bit_or_false(self.a_hat@, k)),
        }
    }

    /// Step 14: Compute final authenticated outputs.
    ///
    /// # Arguments
    /// * `gate_indices` - (i, j) pairs for each AND gate's input wires
    ///
    /// # Returns
    /// Final authenticated shares for A (Generator)
    pub fn step14_compute_final_outputs(&self, gate_indices: &[(usize, usize)]) -> (r: FcpOutput)
        requires
            self.a.len() >= self.config.num_and_gates,
            self.w.len() >= self.config.num_and_gates,
        ensures
            r.wire_shares@ == Seq::new(
                self.config.num_and_gates as nat,
                |k: int| self.mask_share(k),
            ),
            r.triple_shares@ == Seq::new(
                gate_indices@.len(),
                |k: int| self.triple_share(gate_indices@, k),
            ),
    {
        let n: usize = self.config.num_and_gates;

        // Construct wire label shares (a, c, w values)
        let mut wire_shares: Vec<AuthBitShare> = Vec::with_capacity(n);
        for k in 0..n
            invariant
                n == self.config.num_and_gates,
                self.a.len() >= n,
                self.w.len() >= n,
                wire_shares@ =~= Seq::new(k as nat, |k: int| self.mask_share(k)),
        {
            // A knows: a[k] (wire mask bit), w[k] (authenticated value)
            // w[k] = b'[k] * β + d'[k] from VOLE expansion
            wire_shares.push(make_key_share(self.w[k], self.a[k]));
        }

        // Construct AND triple shares
        let mut triple_shares: Vec<AuthTripleShare> = Vec::with_capacity(n);
        for k in 0..gate_indices.len()
            invariant
                triple_shares@ =~= Seq::new(
                    k as nat,
                    |k: int| self.triple_share(gate_indices@, k),
                ),
        {
            let (i, j) = gate_indices[k];
            // x component: input wire i
            let x = make_key_share(get_block(&self.w, i), get_bit(&self.a, i));
            // y component: input wire j
            let y = make_key_share(get_block(&self.w, j), get_bit(&self.a, j));
            // z component: AND gate output
            // A's bit share for the output is â[k] from Step 6, its key is â_{k,2} from Step 9
            let z = make_key_share(get_block(&self.a_hat_2, k), get_bit(&self.a_hat, k));
            triple_shares.push(AuthTripleShare { x, y, z });
        }
        FcpOutput { wire_shares, triple_shares }
    }

    /// Steps 10-11: Verify LPZK certification proofs.
    ///
    /// The commitment of a proof is not zero.
    ///
    /// # Arguments
    /// * `proof` - The certification proof from B
    ///
    /// # Returns
    /// Ok(()) if the proof is valid
    pub fn step10_11_verify_certification(&self, certificate: &CertificationProof) -> (r: Result<
        (),
        FcpError,
    >)
        ensures
            r is Ok <==> certificate.commitment != (Block { bits: 0 }),
            r matches Err(err) ==> (err matches FcpError::BlockVole(text) && text@
                == "Invalid certification proof"@),
    {
        if certificate.commitment == Block::zero() {
            return Err(FcpError::BlockVole("Invalid certification proof".to_owned()));
        }
        Ok(())
    }
}

/// The generator holds ā = a ∪ (a_i · a_j) ∪ (â_i), and its parts.
pub open spec fn has_a_bar(
    before: FcpGen,
    after: FcpGen,
    a: Seq<bool>,
    gate_indices: Seq<(usize, usize)>,
    a_hat: Seq<bool>,
) -> bool {
    &&& after.a@ == a
    &&& after.a_products@ == mask_products(a, gate_indices)
    &&& after.a_hat@ == a_hat
    &&& after.a_bar@ == a + mask_products(a, gate_indices) + a_hat
    &&& after == (FcpGen {
        a: after.a,
        a_products: after.a_products,
        a_hat: after.a_hat,
        a_bar: after.a_bar,
        ..before
    })
}

} // verus!
