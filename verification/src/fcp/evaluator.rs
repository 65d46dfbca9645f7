//! The evaluator's side of compressed preprocessing (Party B).

use vstd::prelude::*;

use crate::block::{block_of, Block};
use crate::block_vole::has_shape;
use crate::correlated::{Delta, Key, Mac};
use crate::fcp::generator::{
    bit_or_false, block_or_zero, get_bit, get_block, random_blocks, row_reaches,
    CertificationProof, FcpError, FcpOutput, Step12Output, Step13Messages, Step13Output,
};
use crate::fcp::matrix::{
    and_pairs, dimensions_fit, indices_below, is_seeded, products, BinaryMatrix, FcpConfig,
};
use crate::gf2_128::{gf_one, gf_product, inverse_of};
use crate::rng::random_u128;
use crate::shares::{AuthBitShare, AuthTripleShare};

verus! {

/// The digest that BLAKE3 computes of some bytes.
pub uninterp spec fn blake3_digest(input: Seq<u8>) -> Seq<u8>;

/// Hashes bytes with BLAKE3.
///
/// Calls `blake3::hash`. The digest is a function of the bytes; it is named, and nothing else is
/// claimed of it.
#[verifier::external_body]
fn hash_bytes(input: &Vec<u8>) -> (r: [u8; 32])
    ensures
        r@ == blake3_digest(input@),
{
    *blake3::hash(input.as_slice()).as_bytes()
}

/// The commitment that the first half of a digest is.
pub fn commitment_of(digest: &[u8; 32]) -> (r: CertificationProof)
    ensures
        r.commitment == block_of(digest@.take(16)),
{
    let bytes: [u8; 16] = [
        digest[0],
        digest[1],
        digest[2],
        digest[3],
        digest[4],
        digest[5],
        digest[6],
        digest[7],
        digest[8],
        digest[9],
        digest[10],
        digest[11],
        digest[12],
        digest[13],
        digest[14],
        digest[15],
    ];
    assert(bytes@ =~= digest@.take(16));
    CertificationProof { commitment: Block::new(bytes) }
}

/// The bytes that B commits to: β, the length of b̃ and the bits of b̃.
pub open spec fn witness_bytes(beta: Block, b_tilde: Seq<bool>) -> Seq<u8> {
    beta.bytes().push((b_tilde.len() % 256) as u8) + Seq::new(
        b_tilde.len(),
        |i: int|
            if b_tilde[i] {
                1u8
            } else {
                0u8
            },
    )
}

/// The vector b̄: β for each bit of b̃ that is set, then β, then zero, each plus γ.
pub open spec fn b_bar_of(b_tilde: Seq<bool>, beta: Block, gamma: Block) -> Seq<Block> {
    Seq::new(b_tilde.len(), |i: int| beta.times(b_tilde[i]).xor(gamma)).push(beta.xor(gamma)).push(
        gamma,
    )
}

/// The sum of two rows at an index, or zero if one is missing.
pub open spec fn row_difference(rows: Seq<Vec<Block>>, first: int, second: int, at: int) -> Block {
    if first < rows.len() && second < rows.len() && at < rows[0]@.len() {
        rows[first]@[at].xor(rows[second]@[at])
    } else {
        Block { bits: 0 }
    }
}

/// Computes the sum of two rows at an index.
fn subtract_rows(rows: &Vec<Vec<Block>>, first: usize, second: usize, at: usize) -> (r: Block)
    requires
        first < rows.len() && second < rows.len() ==> row_reaches(rows@, first as int, at as int, 1)
            && row_reaches(rows@, second as int, at as int, 1),
    ensures
        r == row_difference(rows@, first as int, second as int, at as int),
{
    if first < rows.len() && second < rows.len() && at < rows[0].len() {
        rows[first][at] ^ rows[second][at]
    } else {
        Block::zero()
    }
}

/// A share of B: its MAC and its bit.
pub open spec fn mac_share(mac: Block, value: bool) -> AuthBitShare {
    AuthBitShare { key: Key { block: Block { bits: 0 } }, mac: Mac { block: mac }, value }
}

/// Makes a share of B.
fn make_mac_share(mac: Block, value: bool) -> (r: AuthBitShare)
    ensures
        r == mac_share(mac, value),
{
    AuthBitShare { key: Key::from(Block::zero()), mac: Mac::from(mac), value }
}

/// Evaluator's state for the Fcp protocol (Party B).
///
/// B holds:
/// - β ∈ F_{2^ρ} (global correlation)
/// - b̃ ∈ F_2^L (compressed wire labels)
/// - d̃ ∈ F_{2^ρ}^L (compressed MACs)
#[derive(Debug)]
pub struct FcpEval {
    /// Configuration
    pub config: FcpConfig,
    /// Evaluator's global correlation (β)
    pub delta: Delta,
    /// Public matrix MH
    pub matrix: BinaryMatrix,
    /// b̃ ∈ F_2^L - compressed wire mask bits (B is sender)
    pub b_tilde: Vec<bool>,
    /// d̃ ∈ F_{2^ρ}^L - compressed MAC values (B is sender)
    pub d_tilde: Vec<Block>,
    /// b' = MH · b̃ (expanded to length n)
    pub b_prime: Vec<bool>,
    /// d' = MH · d̃ (expanded to length n)
    pub d_prime: Vec<Block>,
    /// b_{i,j} = b'[i] ∧ b'[j] for each AND gate (the AND of input wire masks)
    pub b_ij: Vec<bool>,
    /// d_{i,j} ∈ F_{2^ρ} for each AND gate
    pub d_ij: Vec<Block>,
    /// Random mask γ used in b̄ construction
    pub gamma: Option<Block>,
    /// b̄ vector for block VOLE (length L+2)
    pub b_bar: Vec<Block>,
    /// v values from subfield block VOLE (B's outputs)
    /// v[i][j] = ā[j] * b̄[i] + c[i][j]
    pub v_subfield: Vec<Vec<Block>>,
    /// v' values from full block VOLE (B's outputs)
    pub v_full: Vec<Vec<Block>>,
    /// Wire mask shares (b values, expanded from b̃)
    pub wire_shares: Vec<AuthBitShare>,
    /// Triple shares for AND gates
    pub triple_shares: Vec<AuthTripleShare>,
}

impl FcpEval {
    /// Create a new FcpEval instance.
    pub fn new(config: FcpConfig, delta: Delta) -> (r: FcpEval)
        requires
            dimensions_fit(config.num_and_gates as nat, config.l as nat),
        ensures
            r.config == config,
            r.delta == delta,
            is_seeded(r.matrix, config.num_and_gates, config.l, config.matrix_seed),
            r.b_tilde@ == Seq::<bool>::empty(),
            r.d_tilde@ == Seq::<Block>::empty(),
            r.b_prime@ == Seq::<bool>::empty(),
            r.d_prime@ == Seq::<Block>::empty(),
            r.b_ij@ == Seq::<bool>::empty(),
            r.d_ij@ == Seq::<Block>::empty(),
            r.gamma is None,
            r.b_bar@ == Seq::<Block>::empty(),
            r.v_subfield@ == Seq::<Vec<Block>>::empty(),
            r.v_full@ == Seq::<Vec<Block>>::empty(),
            r.wire_shares@ == Seq::<AuthBitShare>::empty(),
            r.triple_shares@ == Seq::<AuthTripleShare>::empty(),
    {
        let matrix = config.matrix();
        FcpEval {
            config,
            delta,
            matrix,
            b_tilde: Vec::new(),
            d_tilde: Vec::new(),
            b_prime: Vec::new(),
            d_prime: Vec::new(),
            b_ij: Vec::new(),
            d_ij: Vec::new(),
            gamma: None,
            b_bar: Vec::new(),
            v_subfield: Vec::new(),
            v_full: Vec::new(),
            wire_shares: Vec::new(),
            triple_shares: Vec::new(),
        }
    }

    /// Step 2: Set (b̃, d̃) from subfield VOLE (B is sender).
    ///
    /// B chooses random b̃ ∈ F_2^L and d̃ ∈ F_{2^ρ}^L.
    /// A receives w̃ where w̃[i] = b̃[i] * β + d̃[i].
    pub fn step2_set_vole(&mut self, b_tilde: Vec<bool>, d_tilde: Vec<Block>) -> (r: Result<
        (),
        FcpError,
    >)
        ensures
            if b_tilde.len() != old(self).config.l {
                &&& r == Err::<(), FcpError>(
                    FcpError::VoleLengthMismatch {
                        expected: old(self).config.l,
                        got: b_tilde.len(),
                    },
                )
                &&& *final(self) == *old(self)
            } else if d_tilde.len() != old(self).config.l {
                &&& r == Err::<(), FcpError>(
                    FcpError::VoleLengthMismatch {
                        expected: old(self).config.l,
                        got: d_tilde.len(),
                    },
                )
                &&& *final(self) == *old(self)
            } else {
                &&& r is Ok
                &&& *final(self) == (FcpEval { b_tilde, d_tilde, ..*old(self) })
            },
    {
        if b_tilde.len() != self.config.l {
            return Err(
                FcpError::VoleLengthMismatch { expected: self.config.l, got: b_tilde.len() },
            );
        }
        if d_tilde.len() != self.config.l {
            return Err(
                FcpError::VoleLengthMismatch { expected: self.config.l, got: d_tilde.len() },
            );
        }
        self.b_tilde = b_tilde;
        self.d_tilde = d_tilde;
        Ok(())
    }

    /// Step 3: Extended VOLE to generate b_{i,j} and random d_{i,j} values.
    ///
    /// B computes b_{i,j} = b'[i] ∧ b'[j] (the (i,j)-th entry of (MH·b̃)^T · (MH·b̃))
    /// and generates random d_{i,j} ∈ F_{2^ρ} for all AND gate pairs (i,j).
    ///
    /// # Arguments
    /// * `gate_indices` - (i, j) pairs for each AND gate
    pub fn step3_extended_vole(&mut self, gate_indices: &[(usize, usize)])
        requires
            indices_below(gate_indices@, old(self).b_prime.len() as nat),
        ensures
            final(self).b_ij@ == products(old(self).b_prime@, gate_indices@),
            final(self).d_ij.len() == gate_indices.len(),
            *final(self) == (FcpEval {
                b_ij: final(self).b_ij,
                d_ij: final(self).d_ij,
                ..*old(self)
            }),
    {
        // Compute b_{i,j} = b'[i] ∧ b'[j] for each AND gate
        self.b_ij = and_pairs(&self.b_prime, gate_indices);

        // Generate random d_{i,j} values for each AND gate
        self.d_ij = random_blocks(gate_indices.len());
    }

    /// Step 4: Expand (b̃, d̃) to (b', d') using the MH matrix.
    ///
    /// Computes:
    /// - b' = MH · b̃ (length n, wire mask bits)
    /// - d' = MH · d̃ (length n, MAC values)
    ///
    /// The VOLE correlation is preserved through linearity:
    /// w[i] = b'[i] * β + d'[i]
    pub fn step4_expand(&mut self)
        requires
            old(self).matrix.wf(),
            old(self).b_tilde.len() == old(self).matrix.cols,
            old(self).d_tilde.len() == old(self).matrix.cols,
        ensures
            final(self).b_prime@ == old(self).matrix.times_bits(old(self).b_tilde@),
            final(self).d_prime@ == old(self).matrix.times_blocks(old(self).d_tilde@),
            *final(self) == (FcpEval {
                b_prime: final(self).b_prime,
                d_prime: final(self).d_prime,
                ..*old(self)
            }),
    {
        self.b_prime = self.matrix.mul_vec(self.b_tilde.as_slice());
        self.d_prime = self.matrix.mul_vec_block(self.d_tilde.as_slice());
    }

    /// Combined Step 3-4.
    pub fn step3_4_expand(&mut self)
        requires
            old(self).matrix.wf(),
            old(self).b_tilde.len() == old(self).matrix.cols,
            old(self).d_tilde.len() == old(self).matrix.cols,
        ensures
            final(self).b_prime@ == old(self).matrix.times_bits(old(self).b_tilde@),
            final(self).d_prime@ == old(self).matrix.times_blocks(old(self).d_tilde@),
            *final(self) == (FcpEval {
                b_prime: final(self).b_prime,
                d_prime: final(self).d_prime,
                ..*old(self)
            }),
    {
        self.step4_expand();
    }

    /// Compute b_{i,j} for AND gates.
    ///
    /// For each AND gate k = (∧, i, j), computes b_{i,j} = b'[i] AND b'[j].
    /// This is the (i,j)-th entry of (MH·b̃)^T · (MH·b̃).
    ///
    /// # Arguments
    /// * `gate_indices` - List of (i, j) pairs for each AND gate's input wire indices
    pub fn compute_bij(&self, gate_indices: &[(usize, usize)]) -> (r: Vec<bool>)
        requires
            indices_below(gate_indices@, self.b_prime.len() as nat),
        ensures
            r@ == products(self.b_prime@, gate_indices@),
    {
        and_pairs(&self.b_prime, gate_indices)
    }

    /// Step 5: Construct vector b̄ for block VOLE, with a random γ.
    ///
    /// Constructs b̄ = (b̃[0]*β + γ, ..., b̃[L-1]*β + γ, β + γ, γ)
    /// where γ ∈ F_{2^ρ} is chosen randomly.
    ///
    /// The structure allows computing products via subtraction in Step 12:
    /// - If a is A's input and (b̃*β + γ), (β + γ), γ are B's inputs,
    ///   then A and B can compute shares of a*b̃ by subtracting VOLEs.
    pub fn step5_construct_b_bar(&mut self)
        ensures
            final(self).gamma matches Some(gamma) && final(self).b_bar@ == b_bar_of(
                old(self).b_tilde@,
                old(self).delta.block,
                gamma,
            ),
            *final(self) == (FcpEval {
                gamma: final(self).gamma,
                b_bar: final(self).b_bar,
                ..*old(self)
            }),
    {
        self.construct_b_bar(Block { bits: random_u128() });
    }

    /// Constructs vector b̄ with a given γ.
    pub fn construct_b_bar(&mut self, gamma: Block)
        ensures
            final(self).gamma == Some(gamma),
            final(self).b_bar@ == b_bar_of(old(self).b_tilde@, old(self).delta.block, gamma),
            *final(self) == (FcpEval {
                gamma: final(self).gamma,
                b_bar: final(self).b_bar,
                ..*old(self)
            }),
    {
        let beta = *self.delta.as_block();
        let mut b_bar: Vec<Block> = Vec::new();
        // First L entries: b̃[i] * β + γ
        for i in 0..self.b_tilde.len()
            invariant
                beta == self.delta.block,
                b_bar@ =~= Seq::new(i as nat, |i: int| beta.times(self.b_tilde@[i]).xor(gamma)),
        {
            b_bar.push(beta.mul_bool(self.b_tilde[i]) ^ gamma);
        }
        // Entry L: β + γ
        b_bar.push(beta ^ gamma);

        // Entry L+1: γ
        b_bar.push(gamma);
        assert(b_bar@ =~= b_bar_of(self.b_tilde@, beta, gamma));

        self.gamma = Some(gamma);
        self.b_bar = b_bar;
    }

    /// Get gamma value.
    pub fn gamma(&self) -> (r: Block)
        requires
            self.gamma is Some,
        ensures
            self.gamma == Some(r),
    {
        self.gamma.unwrap()
    }

    /// Get b̄ vector (used in ZK proofs).
    pub fn b_bar(&self) -> (r: &[Block])
        ensures
            r@ == self.b_bar@,
    {
        self.b_bar.as_slice()
    }

    /// Step 8: Receive subfield block VOLE output.
    ///
    /// In subfield block VOLE F^{(F_{2ρ}, F_2, L+2, 3n)}_{bVOLE}:
    /// - A's input: ā ∈ F_2^{3n} (bits)
    /// - B's input: b̄ ∈ F_{2ρ}^{L+2}
    /// - A receives: c[i] for i ∈ [L+2]
    /// - B receives: v[i] = ā · b̄[i] + c[i]
    ///
    /// The v values allow B to compute authenticated shares.
    pub fn step8_receive_subfield_vole(&mut self, v: Vec<Vec<Block>>)
        requires
            has_shape(
                v@,
                (old(self).config.l + 2) as nat,
                (3 * old(self).config.num_and_gates) as nat,
            ),
        ensures
            *final(self) == (FcpEval { v_subfield: v, ..*old(self) }),
    {
        self.v_subfield = v;
    }

    /// Step 9: Receive full block VOLE output.
    ///
    /// In full block VOLE:
    /// - A's input: α·ā ∪ â_{i,2} ∪ {α} (length 4n+1)
    /// - B's input: b̄ ∈ F_{2ρ}^{L+2}
    /// - A receives: c'[i] for i ∈ [L+2]
    /// - B receives: v'[i] = (α·ā ∪ â_{i,2} ∪ {α}) · b̄[i] + c'[i]
    pub fn step9_receive_full_vole(&mut self, v: Vec<Vec<Block>>)
        requires
            has_shape(
                v@,
                (old(self).config.l + 2) as nat,
                (4 * old(self).config.num_and_gates + 1) as nat,
            ),
        ensures
            *final(self) == (FcpEval { v_full: v, ..*old(self) }),
    {
        self.v_full = v;
    }

    /// Steps 10-11: Generate certification proofs: a commitment to β and b̃.
    ///
    /// # Returns
    /// A certification proof that A can verify
    pub fn step10_11_generate_certification(&self) -> (r: CertificationProof)
        ensures
            r.commitment == block_of(
                blake3_digest(witness_bytes(self.delta.block, self.b_tilde@)).take(16),
            ),
    {
        let mut bytes: Vec<u8> = Vec::new();
        let beta: [u8; 16] = self.delta.as_block().to_bytes();
        bytes.extend_from_slice(beta.as_slice());
        bytes.push((self.b_tilde.len() % 256) as u8);
        assert(bytes@ =~= self.delta.block.bytes().push((self.b_tilde@.len() % 256) as u8));
        let ghost head = bytes@;
        for i in 0..self.b_tilde.len()
            invariant
                bytes@ =~= head + Seq::new(
                    i as nat,
                    |i: int|
                        if self.b_tilde@[i] {
                            1u8
                        } else {
                            0u8
                        },
                ),
        {
            bytes.push(
                if self.b_tilde[i] {
                    1u8
                } else {
                    0u8
                },
            );
        }
        assert(bytes@ =~= witness_bytes(self.delta.block, self.b_tilde@));
        let digest: [u8; 32] = hash_bytes(&bytes);
        commitment_of(&digest)
    }

    /// Step 12: B locally computes intermediate values.
    ///
    /// For each AND gate k, B computes:
    /// - v̂_k from subfield block VOLE outputs
    /// - v_{k,2}, v_{k,3}, v_{k,4}, v_{k,5} from full block VOLE outputs
    ///
    /// These values are used in Step 13 to compute the final authenticated shares.
    ///
    /// The computation leverages the subtraction property of the b̄ construction:
    /// By subtracting VOLE outputs with different b̄ entries, B can extract
    /// the authenticated products.
    ///
    /// # Returns
    /// A `Step12Output` containing all computed intermediate values
    pub fn step12_compute_intermediate_values(&self) -> (r: Step12Output)
        requires
            self.values_reach(),
            self.config.l + 1 <= usize::MAX,
            4 * self.config.num_and_gates <= usize::MAX,
        ensures
            ({
                let n = self.config.num_and_gates;
                let l = self.config.l;
                let v = self.v_full@;
                &&& r.v_hat@ == Seq::new(
                    n as nat,
                    |k: int| row_difference(self.v_subfield@, l as int, l + 1, 2 * n + k),
                )
                &&& r.v_2@ == Seq::new(
                    n as nat,
                    |k: int| row_difference(v, l as int, l + 1, 3 * n + k),
                )
                &&& r.v_3@ == Seq::new(n as nat, |k: int| row_difference(v, 0, l + 1, 2 * n + k))
                &&& r.v_4@ == Seq::new(
                    n as nat,
                    |k: int| row_difference(v, l as int, l + 1, n + k),
                )
                &&& r.v_5@ == Seq::new(
                    n as nat,
                    |k: int| row_difference(v, l as int, l + 1, 2 * n + k),
                )
            }),
    {
        let n: usize = self.config.num_and_gates;
        let l: usize = self.config.l;

        // Extract indices for the special entries in b̄
        // b̄ = (b̃[0]*β + γ, ..., b̃[L-1]*β + γ, β + γ, γ)
        let idx_beta_gamma: usize = l;  // Index L: β + γ
        let idx_gamma: usize = l + 1;  // Index L+1: γ

        let mut v_hat: Vec<Block> = Vec::with_capacity(n);
        let mut v_2: Vec<Block> = Vec::with_capacity(n);
        let mut v_3: Vec<Block> = Vec::with_capacity(n);
        let mut v_4: Vec<Block> = Vec::with_capacity(n);
        let mut v_5: Vec<Block> = Vec::with_capacity(n);
        let ghost v = self.v_full@;
        for k in 0..n
            invariant
                self.values_reach(),
                l == self.config.l,
                v == self.v_full@,
                n == self.config.num_and_gates,
                4 * n <= usize::MAX,
                idx_beta_gamma == l,
                idx_gamma == l + 1,
                v_hat@ =~= Seq::new(
                    k as nat,
                    |k: int| row_difference(self.v_subfield@, l as int, l + 1, 2 * n + k),
                ),
                v_2@ =~= Seq::new(
                    k as nat,
                    |k: int| row_difference(v, l as int, l + 1, 3 * n + k),
                ),
                v_3@ =~= Seq::new(k as nat, |k: int| row_difference(v, 0, l + 1, 2 * n + k)),
                v_4@ =~= Seq::new(k as nat, |k: int| row_difference(v, l as int, l + 1, n + k)),
                v_5@ =~= Seq::new(
                    k as nat,
                    |k: int| row_difference(v, l as int, l + 1, 2 * n + k),
                ),
        {
            // v̂_k = â_k β + ĉ_k
            v_hat.push(subtract_rows(&self.v_subfield, idx_beta_gamma, idx_gamma, 2 * n + k));
            // v_{k,2} = â_{k,2}β + c_{k,2}
            v_2.push(subtract_rows(&self.v_full, idx_beta_gamma, idx_gamma, 3 * n + k));
            v_3.push(subtract_rows(&self.v_full, 0, idx_gamma, 2 * n + k));
            v_4.push(subtract_rows(&self.v_full, idx_beta_gamma, idx_gamma, n + k));
            v_5.push(subtract_rows(&self.v_full, idx_beta_gamma, idx_gamma, 2 * n + k));
        }
        Step12Output { v_hat, v_2, v_3, v_4, v_5 }
    }

    /// The rows of γ and of β + γ, if both are there, hold the entries that the first row holds.
    pub open spec fn values_reach(&self) -> bool {
        let (n, l) = (self.config.num_and_gates as int, self.config.l as int);
        let (sub, full) = (self.v_subfield@, self.v_full@);
        &&& l + 1 < sub.len() ==> row_reaches(sub, l, 2 * n, n) && row_reaches(
            sub,
            l + 1,
            2 * n,
            n,
        )
        &&& l + 1 < full.len() ==> row_reaches(full, l, n, 3 * n) && row_reaches(
            full,
            l + 1,
            n,
            3 * n,
        )
    }

    /// b̂ of gate `k`: (v̂ + v_4 + m_1)β⁻¹ + b_i b_j.
    pub open spec fn b_hat_of(
        &self,
        messages: Step13Messages,
        step12: Step12Output,
        gate_indices: Seq<(usize, usize)>,
        beta_inv: Block,
        k: int,
    ) -> Block {
        let both = self.b_prime@[gate_indices[k].0 as int]
            && self.b_prime@[gate_indices[k].1 as int];
        gf_product(
            step12.v_hat@[k].xor(step12.v_4@[k]).xor(messages.m_1@[k]),
            beta_inv,
        ).xor(gf_one().times(both))
    }

    /// d̂ of gate `k`: (v_2 + v_3 + v_5 + m_2)β⁻¹ + d_{i,j}.
    pub open spec fn d_hat_of(
        &self,
        messages: Step13Messages,
        step12: Step12Output,
        beta_inv: Block,
        k: int,
    ) -> Block {
        gf_product(
            step12.v_2@[k].xor(step12.v_3@[k]).xor(step12.v_5@[k]).xor(messages.m_2@[k]),
            beta_inv,
        ).xor(block_or_zero(self.d_ij@, k))
    }

    /// Step 13: Receive messages from A and compute authenticated shares.
    ///
    /// B receives messages (m_{k,1}, m_{k,2}) from A and combines them
    /// with the intermediate values from Step 12 to compute:
    /// - b̂ᵢ := (v̂ᵢ + vᵢ,₄ + mᵢ,₁)β⁻¹ + bᵢbⱼ
    /// - d̂ᵢ := (vᵢ,₂ + vᵢ,₃ + vᵢ,₅ + mᵢ,₂)β⁻¹ + dᵢ,ⱼ
    ///
    /// These are B's shares of the authenticated AND gate outputs. β has an inverse.
    ///
    /// # Arguments
    /// * `messages` - Messages from A (output of step13_compute_messages)
    /// * `step12` - Intermediate values from Step 12
    /// * `gate_indices` - (i, j) pairs for each AND gate's input wires
    ///
    /// # Returns
    /// B's authenticated shares for each AND gate
    pub fn step13_receive_and_compute_shares(
        &self,
        messages: &Step13Messages,
        step12: &Step12Output,
        gate_indices: &[(usize, usize)],
    ) -> (r: Step13Output)
        requires
            self.delta.block != (Block { bits: 0 }),
            messages.m_1.len() >= self.config.num_and_gates,
            messages.m_2.len() >= self.config.num_and_gates,
            step12.v_hat.len() >= self.config.num_and_gates,
            step12.v_2.len() >= self.config.num_and_gates,
            step12.v_3.len() >= self.config.num_and_gates,
            step12.v_4.len() >= self.config.num_and_gates,
            step12.v_5.len() >= self.config.num_and_gates,
            gate_indices.len() >= self.config.num_and_gates,
            indices_below(gate_indices@, self.b_prime.len() as nat),
        ensures
            ({
                let n = self.config.num_and_gates as nat;
                let beta_inv = inverse_of(self.delta.block)->0;
                &&& r.b_hat@ == Seq::new(
                    n,
                    |k: int| self.b_hat_of(*messages, *step12, gate_indices@, beta_inv, k),
                )
                &&& r.d_hat@ == Seq::new(
                    n,
                    |k: int| self.d_hat_of(*messages, *step12, beta_inv, k),
                )
            }),
    {
        let n: usize = self.config.num_and_gates;

        // Compute β⁻¹ in F₂ᵨ
        let beta_inv = self.delta.as_block().gf_inverse().unwrap();

        let mut b_hat: Vec<Block> = Vec::with_capacity(n);
        let mut d_hat: Vec<Block> = Vec::with_capacity(n);
        for k in 0..n
            invariant
                n == self.config.num_and_gates,
                messages.m_1.len() >= n,
                messages.m_2.len() >= n,
                step12.v_hat.len() >= n,
                step12.v_2.len() >= n,
                step12.v_3.len() >= n,
                step12.v_4.len() >= n,
                step12.v_5.len() >= n,
                gate_indices.len() >= n,
                indices_below(gate_indices@, self.b_prime.len() as nat),
                b_hat@ =~= Seq::new(
                    k as nat,
                    |k: int| self.b_hat_of(*messages, *step12, gate_indices@, beta_inv, k),
                ),
                d_hat@ =~= Seq::new(
                    k as nat,
                    |k: int| self.d_hat_of(*messages, *step12, beta_inv, k),
                ),
        {
            let (i, j) = gate_indices[k];
            assert(gate_indices@[k as int].0 < self.b_prime.len());

            // b̂ᵢ := (v̂ᵢ + vᵢ,₄ + mᵢ,₁)β⁻¹ + bᵢbⱼ
            let sum = step12.v_hat[k] ^ step12.v_4[k] ^ messages.m_1[k];
            let b_and = self.b_prime[i] && self.b_prime[j];
            let one = Block { bits: 1 };
            let b_k = sum.gfmul(beta_inv) ^ one.mul_bool(b_and);

            // d̂ᵢ := (vᵢ,₂ + vᵢ,₃ + vᵢ,₅ + mᵢ,₂)β⁻¹ + dᵢ,ⱼ
            let sum = step12.v_2[k] ^ step12.v_3[k] ^ step12.v_5[k] ^ messages.m_2[k];
            let d_k = sum.gfmul(beta_inv) ^ get_block(&self.d_ij, k);

            b_hat.push(b_k);
            d_hat.push(d_k);
        }
        Step13Output { b_hat, d_hat }
    }

    /// B's share of the mask of a wire.
    pub open spec fn mask_share(&self, wire: int) -> AuthBitShare {
        mac_share(block_or_zero(self.d_prime@, wire), bit_or_false(self.b_prime@, wire))
    }

    /// B's share of the triple of gate `k`.
    pub open spec fn triple_share(
        &self,
        step13: Step13Output,
        gate_indices: Seq<(usize, usize)>,
        k: int,
    ) -> AuthTripleShare {
        AuthTripleShare {
            x: self.mask_share(gate_indices[k].0 as int),
            y: self.mask_share(gate_indices[k].1 as int),
            z: mac_share(
                block_or_zero(step13.d_hat@, k),
                block_or_zero(step13.b_hat@, k).low_bit(),
            ),
        }
    }

    /// Step 14: Compute final authenticated outputs.
    ///
    /// B computes:
    /// - AuthBitShare for each wire (using b', d' values)
    /// - AuthTripleShare for each AND gate (using b̂, d̂ from Step 13)
    ///
    /// # Arguments
    /// * `step13` - Output from Step 13 (b̂ and d̂ values)
    /// * `gate_indices` - (i, j) pairs for each AND gate's input wires
    ///
    /// # Returns
    /// Final authenticated shares for B (Evaluator)
    pub fn step14_compute_final_outputs(
        &self,
        step13: &Step13Output,
        gate_indices: &[(usize, usize)],
    ) -> (r: FcpOutput)
        requires
            self.b_prime.len() >= self.config.num_and_gates,
            self.d_prime.len() >= self.config.num_and_gates,
        ensures
            r.wire_shares@ == Seq::new(
                self.config.num_and_gates as nat,
                |k: int| self.mask_share(k),
            ),
            r.triple_shares@ == Seq::new(
                gate_indices@.len(),
                |k: int| self.triple_share(*step13, gate_indices@, k),
            ),
    {
        let n: usize = self.config.num_and_gates;
        proof {
            crate::block::lemma_low_bit(Block { bits: 0 }, Block { bits: 0 });
        }

        // Construct wire label shares (b', d' values)
        let mut wire_shares: Vec<AuthBitShare> = Vec::with_capacity(n);
        for k in 0..n
            invariant
                n == self.config.num_and_gates,
                self.b_prime.len() >= n,
                self.d_prime.len() >= n,
                wire_shares@ =~= Seq::new(k as nat, |k: int| self.mask_share(k)),
        {
            // B knows: b'[k] (wire mask bit), d'[k] (MAC)
            // From VOLE expansion: w[k] = b'[k] * β + d'[k]
            wire_shares.push(make_mac_share(self.d_prime[k], self.b_prime[k]));
        }

        // Construct AND triple shares
        let mut triple_shares: Vec<AuthTripleShare> = Vec::with_capacity(n);
        for k in 0..gate_indices.len()
            invariant
                triple_shares@ =~= Seq::new(
                    k as nat,
                    |k: int| self.triple_share(*step13, gate_indices@, k),
                ),
        {
            let (i, j) = gate_indices[k];
            // x component: input wire i
            let x = make_mac_share(get_block(&self.d_prime, i), get_bit(&self.b_prime, i));
            // y component: input wire j
            let y = make_mac_share(get_block(&self.d_prime, j), get_bit(&self.b_prime, j));
            // z component: AND gate output
            // B's bit share for the output is lsb(b̂_k) from Step 13, its MAC is d̂_k
            let z_value = get_block(&step13.b_hat, k).lsb();
            let z = make_mac_share(get_block(&step13.d_hat, k), z_value);
            triple_shares.push(AuthTripleShare { x, y, z });
        }
        FcpOutput { wire_shares, triple_shares }
    }
}

/// Subtracting the last VOLE from the others extracts the products: where B's input is b̄, A's
/// input `a` and the masks `c`, the difference of two outputs is the difference of the masks plus
/// `a * b̃[i] * β`.
pub proof fn lemma_subtraction_property(
    a: Block,
    b_tilde: Seq<bool>,
    beta: Block,
    gamma: Block,
    c: Seq<Block>,
    i: int,
)
    requires
        0 <= i < b_tilde.len(),
        c.len() == b_tilde.len() + 2,
    ensures
        ({
            let b_bar = b_bar_of(b_tilde, beta, gamma);
            let l = b_tilde.len() as int;
            let v_i = gf_product(a, b_bar[i]).xor(c[i]);
            let v_beta = gf_product(a, b_bar[l]).xor(c[l]);
            let v_gamma = gf_product(a, b_bar[l + 1]).xor(c[l + 1]);
            &&& v_i.xor(v_gamma) == c[i].xor(c[l + 1]).xor(gf_product(a, beta).times(b_tilde[i]))
            &&& v_beta.xor(v_gamma) == c[l].xor(c[l + 1]).xor(gf_product(a, beta))
        }),
{
    let l = b_tilde.len() as int;
    crate::gf2_128::lemma_product_distributes(a, beta, gamma);
    crate::gf2_128::lemma_product_distributes(a, beta.times(b_tilde[i]), gamma);
    crate::gf2_128::lemma_product_zero(a);
    let (p, q) = (gf_product(a, beta.times(b_tilde[i])).bits, gf_product(a, gamma).bits);
    let (r, x, y, z) = (gf_product(a, beta).bits, c[i].bits, c[l].bits, c[l + 1].bits);
    assert(((p ^ q) ^ x) ^ (q ^ z) == (x ^ z) ^ p && ((r ^ q) ^ y) ^ (q ^ z) == (y ^ z) ^ r)
        by (bit_vector);
}

} // verus!
