//! The whole of compressed preprocessing with ideal functionalities in place of the protocols.

use vstd::prelude::*;

use crate::block::{block_of, Block};
use crate::block_vole::{bit_correlated, field_correlated, rows_are, rows_drawn, IdealBlockVole};
use crate::correlated::Delta;
use crate::fcp::evaluator::{blake3_digest, mac_share, witness_bytes, FcpEval};
use crate::fcp::generator::{
    bit_or_false, block_or_zero, get_bit, get_block, key_share, random_blocks,
    scale_bits, scaled_bits, CertificationProof, FcpError, FcpGen, FcpOutput, Step12Output,
    Step13Messages, Step13Output,
};
use crate::fcp::matrix::{
    and_pairs, indices_below, is_compressed_len, is_seeded, lemma_compressed_len_grows,
    lemma_matrix_keeps_correlation, lemma_same_seed_same_expansion, products, words_for, BinaryMatrix, FcpConfig,
};
use crate::gf2_128::inverse_of;
use crate::rng::SeededRng;
use crate::shares::AuthTripleShare;
use crate::{Preprocessing, SSP};

verus! {

/// Output of Step 2: Subfield VOLE correlations.
#[derive(Debug)]
pub struct Step2Output {
    /// A's output: w̃ ∈ F_{2^ρ}^L where w̃[i] = b̃[i] * β + d̃[i]
    pub w_tilde: Vec<Block>,
    /// B's output: b̃ ∈ F_2^L (random bits)
    pub b_tilde: Vec<bool>,
    /// B's output: d̃ ∈ F_{2^ρ}^L (random field elements)
    pub d_tilde: Vec<Block>,
}

/// The bits b̃ and the blocks d̃ that a seed determines.
pub open spec fn step2_drawn(l: nat, seed: u64) -> (Seq<bool>, Seq<Block>) {
    let (bits, rng) = (SeededRng { seed, position: 0 }).bits_drawn(l);
    (bits, rng.blocks_drawn(l).0)
}

/// The blocks `b * delta + d`.
pub open spec fn correlate(bits: Seq<bool>, blocks: Seq<Block>, delta: Block) -> Seq<Block> {
    Seq::new(blocks.len(), |i: int| blocks[i].xor(delta.times(bits[i])))
}

/// Computes the blocks `b * delta + d`.
fn correlate_blocks(bits: &Vec<bool>, blocks: &Vec<Block>, delta: Block) -> (r: Vec<Block>)
    requires
        bits.len() == blocks.len(),
    ensures
        r@ == correlate(bits@, blocks@, delta),
{
    let mut out: Vec<Block> = Vec::with_capacity(blocks.len());
    for i in 0..blocks.len()
        invariant
            bits.len() == blocks.len(),
            out@ =~= correlate(bits@, blocks@, delta).take(i as int),
    {
        out.push(blocks[i] ^ delta.mul_bool(bits[i]));
    }
    assert(out@ =~= correlate(bits@, blocks@, delta));
    out
}

/// Generate ideal Step 2 subfield VOLE correlations for testing.
///
/// This simulates the FsubVOLE functionality where:
/// - B (sender) chooses random b̃ ∈ F_2^L and d̃ ∈ F_{2^ρ}^L
/// - A (receiver) gets w̃ where w̃[i] = b̃[i] * β + d̃[i]
///
/// # Arguments
/// * `l` - Length of the compressed vectors
/// * `beta` - B's global correlation β ∈ F_{2^ρ}
/// * `seed` - Random seed for reproducibility
pub fn ideal_step2_subfield_vole(l: usize, beta: Block, seed: u64) -> (r: Step2Output)
    ensures
        (r.b_tilde@, r.d_tilde@) == step2_drawn(l as nat, seed),
        r.w_tilde@ == correlate(r.b_tilde@, r.d_tilde@, beta),
        r.b_tilde.len() == l,
        r.d_tilde.len() == l,
{
    let mut rng = SeededRng::seed_from_u64(seed);

    // B chooses random b̃ and d̃
    let b_tilde = rng.next_bools(l);
    let d_tilde = rng.next_blocks(l);

    // Compute w̃[i] = b̃[i] * β + d̃[i]
    let w_tilde = correlate_blocks(&b_tilde, &d_tilde, beta);
    Step2Output { w_tilde, b_tilde, d_tilde }
}

/// Output of Step 3: Extended VOLE for authenticated products.
#[derive(Debug)]
pub struct Step3Output {
    /// b_{i,j} = b'[i] ∧ b'[j] - B's bit shares for output wires
    pub b_ij: Vec<bool>,
    /// c_{i,j} - A's MAC keys (generator side)
    pub c_ij: Vec<Block>,
    /// d_{i,j} - B's random values (evaluator side)
    pub d_ij: Vec<Block>,
}

/// Execute Step 3 extended VOLE (ideal version).
///
/// Generates authenticated product shares: c_{i,j} = α·(b_i ∧ b_j) + d_{i,j}
///
/// # Arguments
/// * `gate_indices` - (i, j) pairs for each AND gate
/// * `b_prime` - B's expanded wire mask bits
/// * `alpha` - A's global correlation α ∈ F_{2^ρ}
/// * `seed` - Random seed for reproducibility
pub fn ideal_step3_extended_vole(
    gate_indices: &[(usize, usize)],
    b_prime: &Vec<bool>,
    alpha: Block,
    seed: u64,
) -> (r: Step3Output)
    requires
        indices_below(gate_indices@, b_prime.len() as nat),
    ensures
        r.b_ij@ == products(b_prime@, gate_indices@),
        r.d_ij@ == (SeededRng { seed, position: 0 }).blocks_drawn(gate_indices@.len()).0,
        r.c_ij@ == correlate(r.b_ij@, r.d_ij@, alpha),
        r.d_ij.len() == gate_indices.len(),
{
    let mut rng = SeededRng::seed_from_u64(seed);
    let n: usize = gate_indices.len();

    // B generates random d_{i,j} values
    let d_ij = rng.next_blocks(n);

    // B computes b_{i,j} = b'[i] ∧ b'[j] for each AND gate
    let b_ij = and_pairs(b_prime, gate_indices);

    // A computes c_{i,j} = α·(b_i ∧ b_j) + d_{i,j}
    let c_ij = correlate_blocks(&b_ij, &d_ij, alpha);
    Step3Output { b_ij, c_ij, d_ij }
}

/// Output of Steps 8-9: Block VOLE correlations.
#[derive(Debug)]
pub struct Steps89Output {
    /// A's subfield block VOLE output: c[i][j] for i ∈ [L+2], j ∈ [3n]
    pub c_subfield: Vec<Vec<Block>>,
    /// B's subfield block VOLE output: v[i] = ā · b̄[i] + c[i]
    pub v_subfield: Vec<Vec<Block>>,
    /// A's full block VOLE output: c'[i][j] for i ∈ [L+2], j ∈ [4n+1]
    pub c_full: Vec<Vec<Block>>,
    /// B's full block VOLE output: v'[i] = (α·ā ∪ â_{i,2} ∪ {α}) · b̄[i] + c'[i]
    pub v_full: Vec<Vec<Block>>,
}

/// Two matrices hold the same rows.
pub open spec fn same_rows(a: Seq<Vec<Block>>, b: Seq<Vec<Block>>) -> bool {
    &&& a.len() == b.len()
    &&& forall|i: int| 0 <= i < a.len() ==> (#[trigger] a[i])@ == b[i]@
}

/// Copies the rows of a matrix.
fn copy_rows(rows: &Vec<Vec<Block>>) -> (r: Vec<Vec<Block>>)
    ensures
        same_rows(r@, rows@),
{
    let mut out: Vec<Vec<Block>> = Vec::with_capacity(rows.len());
    for i in 0..rows.len()
        invariant
            out.len() == i,
            forall|k: int| 0 <= k < i ==> (#[trigger] out@[k])@ == rows@[k]@,
    {
        let row = rows[i].clone();
        assert(row@ =~= rows@[i as int]@);
        out.push(row);
    }
    out
}

/// A's input to full block VOLE: α·ā ∪ â_{i,2} ∪ {α}.
pub open spec fn full_input(a_bar: Seq<bool>, a_hat_2: Seq<Block>, alpha: Block) -> Seq<Block> {
    (scaled_bits(a_bar, alpha) + a_hat_2).push(alpha)
}

/// What Steps 8-9 give both parties: the outputs of the two block VOLEs, whose random rows the
/// seed determines, on A's inputs ā and α·ā ∪ â_{i,2} ∪ {α} and B's input b̄.
pub open spec fn is_steps_8_9(
    before: FcpGen,
    after: FcpGen,
    b_bar: Seq<Block>,
    seed: u64,
    out: Steps89Output,
) -> bool {
    let a_full = full_input(before.a_bar@, after.a_hat_2@, before.delta.block);
    let (rows, rng) = rows_drawn(
        SeededRng { seed, position: 0 },
        b_bar.len(),
        before.a_bar@.len(),
    );
    &&& rows_are(out.c_subfield@, rows)
    &&& bit_correlated(before.a_bar@, b_bar, out.c_subfield@, out.v_subfield@)
    &&& rows_are(out.c_full@, rows_drawn(rng, b_bar.len(), a_full.len()).0)
    &&& field_correlated(a_full, b_bar, out.c_full@, out.v_full@)
    &&& same_rows(after.c_subfield@, out.c_subfield@)
    &&& same_rows(after.c_full@, out.c_full@)
    &&& after.alpha_a_bar@ == scaled_bits(before.a_bar@, before.delta.block)
    &&& after.a_hat_2@.len() == before.config.num_and_gates
    &&& after == (FcpGen {
        c_subfield: after.c_subfield,
        alpha_a_bar: after.alpha_a_bar,
        a_hat_2: after.a_hat_2,
        c_full: after.c_full,
        ..before
    })
}

/// Generate ideal Steps 8-9 block VOLE correlations for testing, with random â_{i,2}.
///
/// This simulates both block VOLE calls:
/// - Step 8: Subfield block VOLE with A's input ā ∈ F_2^{3n}
/// - Step 9: Full block VOLE with A's input (α·ā ∪ â_{i,2} ∪ {α}) ∈ F_{2ρ}^{4n+1}
///
/// # Arguments
/// * `generator` - FcpGen with ā constructed (after step6)
/// * `evaluator` - FcpEval with b̄ constructed (after step5)
/// * `seed` - Random seed for reproducibility
pub fn ideal_steps_8_9_block_vole(generator: &mut FcpGen, evaluator: &FcpEval, seed: u64) -> (r:
    Steps89Output)
    requires
        old(generator).a_bar.len() == 3 * old(generator).config.num_and_gates,
        evaluator.b_bar.len() == old(generator).config.l + 2,
    ensures
        is_steps_8_9(*old(generator), *final(generator), evaluator.b_bar@, seed, r),
{
    // Generate random â_{i,2} ∈ F_{2ρ}^n
    let a_hat_2 = random_blocks(generator.config.num_and_gates);
    steps_8_9_block_vole(generator, evaluator, seed, a_hat_2)
}

/// The block VOLE correlations of Steps 8-9 for given â_{i,2}.
pub fn steps_8_9_block_vole(
    generator: &mut FcpGen,
    evaluator: &FcpEval,
    seed: u64,
    a_hat_2: Vec<Block>,
) -> (r: Steps89Output)
    requires
        old(generator).a_bar.len() == 3 * old(generator).config.num_and_gates,
        evaluator.b_bar.len() == old(generator).config.l + 2,
        a_hat_2.len() == old(generator).config.num_and_gates,
    ensures
        is_steps_8_9(*old(generator), *final(generator), evaluator.b_bar@, seed, r),
        final(generator).a_hat_2 == a_hat_2,
{
    let mut vole = IdealBlockVole::new(seed);

    // Step 8: Subfield block VOLE
    // A's input: ā ∈ F_2^{3n}
    // B's input: b̄ ∈ F_{2ρ}^{L+2}
    let (sender_out_8, receiver_out_8) = vole.subfield_vole(
        generator.a_bar.as_slice(),
        evaluator.b_bar.as_slice(),
    ).unwrap();
    let c_subfield = sender_out_8.b;
    let v_subfield = receiver_out_8.v;

    // Store in generator
    generator.step8_receive_subfield_vole(copy_rows(&c_subfield));

    // Step 9: Construct A's full input α·ā ∪ â_{i,2} ∪ {α}
    let alpha = *generator.delta.as_block();
    let alpha_a_bar = scale_bits(&generator.a_bar, &alpha);
    let mut a_full_input: Vec<Block> = Vec::new();
    a_full_input.extend_from_slice(alpha_a_bar.as_slice());
    a_full_input.extend_from_slice(a_hat_2.as_slice());
    a_full_input.push(alpha);
    assert(a_full_input@ =~= full_input(generator.a_bar@, a_hat_2@, alpha));

    // Do the block VOLE
    let (sender_out_9, receiver_out_9) = vole.block_vole(
        a_full_input.as_slice(),
        evaluator.b_bar.as_slice(),
    ).unwrap();
    let c_full = sender_out_9.b;
    let v_full = receiver_out_9.v;

    // Store in generator
    generator.alpha_a_bar = alpha_a_bar;
    generator.a_hat_2 = a_hat_2;
    generator.c_full = copy_rows(&c_full);
    Steps89Output { c_subfield, v_subfield, c_full, v_full }
}

/// The commitment of B to β and b̃.
pub open spec fn commitment(beta: Block, b_tilde: Seq<bool>) -> Block {
    block_of(blake3_digest(witness_bytes(beta, b_tilde)).take(16))
}

/// Generate and verify certification proof for Steps 10-11 (ideal version).
///
/// # Arguments
/// * `generator` - FcpGen to verify the proof
/// * `evaluator` - FcpEval to generate the proof
///
/// # Returns
/// The generated certification proof
pub fn ideal_steps_10_11_certification(generator: &FcpGen, evaluator: &FcpEval) -> (r: Result<
    CertificationProof,
    FcpError,
>)
    ensures
        ({
            let want = commitment(evaluator.delta.block, evaluator.b_tilde@);
            if want == (Block { bits: 0 }) {
                r matches Err(err) && (err matches FcpError::BlockVole(text) && text@
                    == "Invalid certification proof"@)
            } else {
                r == Ok::<CertificationProof, FcpError>(CertificationProof { commitment: want })
            }
        }),
{
    // B generates the certification proof
    let certificate = evaluator.step10_11_generate_certification();

    // A verifies the certification proof
    match generator.step10_11_verify_certification(&certificate) {
        Ok(()) => Ok(certificate),
        Err(err) => Err(err),
    }
}

/// Execute Step 13 message exchange (ideal version).
///
/// A computes and sends messages to B, B receives and computes authenticated shares.
///
/// # Arguments
/// * `generator` - FcpGen to compute messages
/// * `evaluator` - FcpEval to receive messages and compute shares
/// * `step12` - Intermediate values from Step 12
/// * `gate_indices` - (i, j) pairs for each AND gate's input wires
///
/// # Returns
/// (messages, B's authenticated shares)
pub fn ideal_step13_message_exchange(
    generator: &FcpGen,
    evaluator: &FcpEval,
    step12: &Step12Output,
    gate_indices: &[(usize, usize)],
) -> (r: (Step13Messages, Step13Output))
    requires
        generator.messages_reach(),
        3 * generator.config.num_and_gates <= usize::MAX,
        evaluator.delta.block != (Block { bits: 0 }),
        generator.config.num_and_gates >= evaluator.config.num_and_gates,
        step12.v_hat.len() >= evaluator.config.num_and_gates,
        step12.v_2.len() >= evaluator.config.num_and_gates,
        step12.v_3.len() >= evaluator.config.num_and_gates,
        step12.v_4.len() >= evaluator.config.num_and_gates,
        step12.v_5.len() >= evaluator.config.num_and_gates,
        gate_indices.len() >= evaluator.config.num_and_gates,
        indices_below(gate_indices@, evaluator.b_prime.len() as nat),
    ensures
        ({
            let n = evaluator.config.num_and_gates as nat;
            let beta_inv = inverse_of(evaluator.delta.block)->0;
            &&& r.0.m_1@ == Seq::new(
                generator.config.num_and_gates as nat,
                |k: int| generator.first_message(k),
            )
            &&& r.0.m_2@ == Seq::new(
                generator.config.num_and_gates as nat,
                |k: int| generator.second_message(k),
            )
            &&& r.1.b_hat@ == Seq::new(
                n,
                |k: int| evaluator.b_hat_of(r.0, *step12, gate_indices@, beta_inv, k),
            )
            &&& r.1.d_hat@ == Seq::new(
                n,
                |k: int| evaluator.d_hat_of(r.0, *step12, beta_inv, k),
            )
        }),
{
    // A computes messages
    let messages = generator.step13_compute_messages();

    // B receives messages and computes shares
    let output = evaluator.step13_receive_and_compute_shares(&messages, step12, gate_indices);
    (messages, output)
}

/// The product λ_i λ_j of the masks of the wires that gate `k` reads.
pub open spec fn mask_product(
    a: Seq<bool>,
    b: Seq<bool>,
    gate_indices: Seq<(usize, usize)>,
    k: int,
) -> bool {
    let (i, j) = (gate_indices[k].0 as int, gate_indices[k].1 as int);
    (bit_or_false(a, i) != bit_or_false(b, i)) && (bit_or_false(a, j) != bit_or_false(b, j))
}

/// Compute ideal Step 13 output directly from plaintext values.
///
/// This bypasses the block VOLE extraction and directly computes:
/// - b̂_k = â_k + λ_i λ_j (as a field element where LSB encodes the bit)
/// - d̂_k = d_{i,j}
///
/// where λ_i λ_j = (a_i + b_i)(a_j + b_j).
pub fn ideal_step13_output(
    generator: &FcpGen,
    evaluator: &FcpEval,
    gate_indices: &[(usize, usize)],
) -> (r: Step13Output)
    ensures
        r.b_hat@ == Seq::new(
            gate_indices@.len(),
            |k: int|
                (Block { bits: 1 }).times(
                    bit_or_false(generator.a_hat@, k) != mask_product(
                        generator.a@,
                        evaluator.b_prime@,
                        gate_indices@,
                        k,
                    ),
                ),
        ),
        r.d_hat@ == Seq::new(
            gate_indices@.len(),
            |k: int| block_or_zero(evaluator.d_ij@, k),
        ),
{
    let mut b_hat: Vec<Block> = Vec::new();
    let mut d_hat: Vec<Block> = Vec::new();
    for k in 0..gate_indices.len()
        invariant
            b_hat@ =~= Seq::new(
                k as nat,
                |k: int|
                    (Block { bits: 1 }).times(
                        bit_or_false(generator.a_hat@, k) != mask_product(
                            generator.a@,
                            evaluator.b_prime@,
                            gate_indices@,
                            k,
                        ),
                    ),
            ),
            d_hat@ =~= Seq::new(k as nat, |k: int| block_or_zero(evaluator.d_ij@, k)),
    {
        let (i, j) = gate_indices[k];
        // Compute λ_i = a_i ⊕ b_i and λ_j = a_j ⊕ b_j
        let lambda_i = get_bit(&generator.a, i) != get_bit(&evaluator.b_prime, i);
        let lambda_j = get_bit(&generator.a, j) != get_bit(&evaluator.b_prime, j);

        // Compute λ_i λ_j (AND of the wire masks)
        let lambda_product = lambda_i && lambda_j;

        // b̂_k = â_k + λ_i λ_j (XOR in F_2, embedded in field element)
        let b_hat_bit = get_bit(&generator.a_hat, k) != lambda_product;
        let one = Block { bits: 1 };
        b_hat.push(one.mul_bool(b_hat_bit));
        d_hat.push(get_block(&evaluator.d_ij, k));
    }
    Step13Output { b_hat, d_hat }
}

/// The gates of a run: gate `k` reads wires `k` and `k + 1`, the last one the last wire and the
/// first.
pub open spec fn ring_gates(n: nat) -> Seq<(usize, usize)> {
    Seq::new(n, |k: int| (k as usize, ((k + 1) % n as int) as usize))
}

/// The correlations, and A's masks, that a run draws.
pub open spec fn run_drawn(num_and: nat, rng: SeededRng) -> (Block, Block, Seq<bool>, SeededRng) {
    let (block_a, rng) = rng.block_drawn();
    let (block_b, rng) = rng.block_drawn();
    let (a, rng) = rng.bits_drawn(num_and);
    (
        block_a.with_low_bit(true).with_low_bit(true),
        block_b.with_low_bit(true).with_low_bit(false),
        a,
        rng,
    )
}

/// The outputs are those of a run in which the expansion matrix is `m` and A chose `a_hat` and
/// `a_hat_2`.
pub open spec fn is_fcp_run(
    num_and: usize,
    seed: u64,
    beta: Block,
    a: Seq<bool>,
    m: BinaryMatrix,
    a_hat: Seq<bool>,
    a_hat_2: Seq<Block>,
    gen: FcpOutput,
    eval: FcpOutput,
) -> bool {
    let n = num_and as nat;
    let gates = ring_gates(n);
    let (b_tilde, d_tilde) = step2_drawn(m.cols as nat, seed);
    let w = m.times_blocks(correlate(b_tilde, d_tilde, beta));
    let b = m.times_bits(b_tilde);
    let d = m.times_blocks(d_tilde);
    let d_ij = (SeededRng { seed: (seed + 1) as u64, position: 0 }).blocks_drawn(n).0;
    &&& is_compressed_len(n, m.cols as nat)
    &&& is_seeded(m, num_and, m.cols, seed)
    &&& a_hat.len() == n
    &&& a_hat_2.len() == n
    &&& gen.wire_shares@ == Seq::new(n, |k: int| key_share(w[k], a[k]))
    &&& eval.wire_shares@ == Seq::new(n, |k: int| mac_share(d[k], b[k]))
    &&& gen.triple_shares@ == Seq::new(
        n,
        |k: int|
            AuthTripleShare {
                x: gen.wire_shares@[gates[k].0 as int],
                y: gen.wire_shares@[gates[k].1 as int],
                z: key_share(a_hat_2[k], a_hat[k]),
            },
    )
    &&& eval.triple_shares@ == Seq::new(
        n,
        |k: int|
            AuthTripleShare {
                x: eval.wire_shares@[gates[k].0 as int],
                y: eval.wire_shares@[gates[k].1 as int],
                z: mac_share(d_ij[k], a_hat[k] != mask_product(a, b, gates, k)),
            },
    )
}

/// The outputs are those of a run with B's correlation `beta` and A's masks `a`, with some choice of
/// the rest of A's.
pub open spec fn is_output_of(
    num_and: usize,
    seed: u64,
    beta: Block,
    a: Seq<bool>,
    gen: FcpOutput,
    eval: FcpOutput,
) -> bool {
    exists|m: BinaryMatrix, a_hat: Seq<bool>, a_hat_2: Seq<Block>| #[trigger]
        is_fcp_run(num_and, seed, beta, a, m, a_hat, a_hat_2, gen, eval)
}

/// The outputs are those of a run that draws the correlations and A's masks from a generator, with
/// some choice of A's.
pub open spec fn is_fcp_output(
    num_and: usize,
    seed: u64,
    rng: SeededRng,
    gen: FcpOutput,
    eval: FcpOutput,
) -> bool {
    let (_, beta, a, _) = run_drawn(num_and as nat, rng);
    is_output_of(num_and, seed, beta, a, gen, eval)
}

/// Execute full Fcp protocol (ideal version for testing).
///
/// This function runs the complete compressed preprocessing protocol Πcp
/// and returns FcpOutput for both parties, or the error with which A refuses B's certification.
///
/// # Arguments
/// * `num_and` - Number of AND gates
/// * `seed` - Random seed for reproducibility
/// * `rng` - Random number generator
///
/// # Returns
/// (FcpOutput for generator, FcpOutput for evaluator)
pub fn fcp(num_and: usize, seed: u64, rng: &mut SeededRng) -> (r: Result<
    (FcpOutput, FcpOutput),
    FcpError,
>)
    requires
        seed < u64::MAX,
        num_and * words_for((2 * SSP + 2560) as nat) <= usize::MAX,
    ensures
        *final(rng) == run_drawn(num_and as nat, *old(rng)).3,
        forall|l: nat| #[trigger]
            is_compressed_len(num_and as nat, l) ==> (r is Ok <==> commitment(
                run_drawn(num_and as nat, *old(rng)).1,
                step2_drawn(l, seed).0,
            ) != (Block { bits: 0 })),
        r matches Err(err) ==> (err matches FcpError::BlockVole(text) && text@
            == "Invalid certification proof"@),
        r matches Ok((gen, eval)) ==> is_fcp_output(num_and, seed, *old(rng), gen, eval),
{
    // Generate deltas with proper LSB
    let delta_a = Delta::random(rng).set_lsb(true);
    let delta_b = Delta::random(rng).set_lsb(false);
    let a = rng.next_bools(num_and);
    fcp_with(num_and, seed, delta_a, delta_b, a)
}

/// Execute full Fcp protocol (ideal version for testing), with given correlations and masks of A's.
///
/// # Arguments
/// * `num_and` - Number of AND gates
/// * `seed` - Random seed for reproducibility
/// * `delta_a` - A's correlation
/// * `delta_b` - B's correlation β
/// * `a` - A's masks, one for each gate
///
/// # Returns
/// (FcpOutput for generator, FcpOutput for evaluator)
pub fn fcp_with(
    num_and: usize,
    seed: u64,
    delta_a: Delta,
    delta_b: Delta,
    a: Vec<bool>,
) -> (r: Result<(FcpOutput, FcpOutput), FcpError>)
    requires
        seed < u64::MAX,
        num_and * words_for((2 * SSP + 2560) as nat) <= usize::MAX,
        a@.len() == num_and,
    ensures
        forall|l: nat| #[trigger]
            is_compressed_len(num_and as nat, l) ==> (r is Ok <==> commitment(
                delta_b.block,
                step2_drawn(l, seed).0,
            ) != (Block { bits: 0 })),
        r matches Err(err) ==> (err matches FcpError::BlockVole(text) && text@
            == "Invalid certification proof"@),
        r matches Ok((gen, eval)) ==> is_output_of(num_and, seed, delta_b.block, a@, gen, eval),
{
    let config = FcpConfig::new(128, num_and, seed);
    proof {
        let (p, q) = (words_for(config.l as nat) as int, words_for((2 * SSP + 2560) as nat) as int);
        assert(num_and * p <= num_and * q) by (nonlinear_arith)
            requires
                num_and >= 0,
                p <= q,
        ;
        assert(num_and * 42 <= usize::MAX);
    }

    let beta = *delta_b.as_block();

    let mut generator = FcpGen::new(config, delta_a);
    let mut evaluator = FcpEval::new(config, delta_b);

    // Step 2: Subfield VOLE
    let step2 = ideal_step2_subfield_vole(config.l, beta, seed);
    let Step2Output { w_tilde, b_tilde, d_tilde } = step2;
    generator.step2_receive_vole(w_tilde).unwrap();
    evaluator.step2_set_vole(b_tilde, d_tilde).unwrap();

    // Step 4: Expansion (need to expand before Step 3 to get b_prime)
    generator.step4_expand();
    evaluator.step4_expand();

    // Define gate indices early (needed for Step 3)
    let mut gate_indices: Vec<(usize, usize)> = Vec::with_capacity(num_and);
    for k in 0..num_and
        invariant
            num_and * 42 <= usize::MAX,
            gate_indices@ =~= ring_gates(num_and as nat).take(k as int),
    {
        gate_indices.push((k, (k + 1) % num_and));
    }
    assert(gate_indices@ =~= ring_gates(num_and as nat));

    // Step 3: Extended VOLE for d_{i,j}
    let step3 = ideal_step3_extended_vole(
        gate_indices.as_slice(),
        &evaluator.b_prime,
        *delta_a.as_block(),
        seed + 1,
    );
    let Step3Output { b_ij, c_ij, d_ij } = step3;
    generator.step3_receive_extended_vole(c_ij);
    evaluator.b_ij = b_ij;
    evaluator.d_ij = d_ij;

    // Step 5: Construct b̄
    evaluator.step5_construct_b_bar();

    // Step 6: Construct ā
    generator.step6_construct_a_bar(a.as_slice(), gate_indices.as_slice());

    // Steps 8-9: Block VOLE
    let step89 = ideal_steps_8_9_block_vole(&mut generator, &evaluator, seed);
    evaluator.step8_receive_subfield_vole(step89.v_subfield);
    evaluator.step9_receive_full_vole(step89.v_full);
    proof {
        assert forall|l: nat| #[trigger] is_compressed_len(num_and as nat, l) implies l
            == config.l by {
            lemma_compressed_len_grows(num_and as nat, config.l as nat, num_and as nat, l);
        }
    }

    // Steps 10-11: Certification
    match ideal_steps_10_11_certification(&generator, &evaluator) {
        Ok(_) => {},
        Err(err) => return Err(err),
    }

    // Step 13: Use ideal output that directly computes correct b̂ values
    let step13 = ideal_step13_output(&generator, &evaluator, gate_indices.as_slice());

    // Step 14: Final outputs
    let gen_output = generator.step14_compute_final_outputs(gate_indices.as_slice());
    let eval_output = evaluator.step14_compute_final_outputs(&step13, gate_indices.as_slice());
    proof {
        crate::block::lemma_low_bit(Block { bits: 1 }, Block { bits: 0 });
        let (gen, eval) = (gen_output, eval_output);
        let n = num_and as nat;
        let gates = ring_gates(n);
        let (b_tilde, d_tilde) = step2_drawn(generator.matrix.cols as nat, seed);
        let w = generator.matrix.times_blocks(correlate(b_tilde, d_tilde, beta));
        let b = generator.matrix.times_bits(b_tilde);
        let d = generator.matrix.times_blocks(d_tilde);
        assert(generator.w@ == w);
        lemma_same_seed_same_expansion(
            generator.matrix,
            evaluator.matrix,
            num_and,
            config.l,
            seed,
            b_tilde,
            d_tilde,
        );
        assert(gen.wire_shares@ =~= Seq::new(n, |k: int| key_share(w[k], a@[k])));
        assert(eval.wire_shares@ =~= Seq::new(n, |k: int| mac_share(d[k], b[k])));
        assert(gen.triple_shares@ =~= Seq::new(
            n,
            |k: int|
                AuthTripleShare {
                    x: gen.wire_shares@[gates[k].0 as int],
                    y: gen.wire_shares@[gates[k].1 as int],
                    z: key_share(generator.a_hat_2@[k], generator.a_hat@[k]),
                },
        ));
        assert(eval.triple_shares@ =~= Seq::new(
            n,
            |k: int|
                AuthTripleShare {
                    x: eval.wire_shares@[gates[k].0 as int],
                    y: eval.wire_shares@[gates[k].1 as int],
                    z: mac_share(
                        evaluator.d_ij@[k],
                        generator.a_hat@[k] != mask_product(a@, b, gates, k),
                    ),
                },
        ));
        assert(is_fcp_run(
            num_and,
            seed,
            beta,
            a@,
            generator.matrix,
            generator.a_hat@,
            generator.a_hat_2@,
            gen_output,
            eval_output,
        ));
    }
    Ok((gen_output, eval_output))
}

/// Generate preprocessing material for authenticated garbling with the compressed protocol.
///
/// # Arguments
/// * `num_and` - Number of AND gates
/// * `_num_wires` - Unused
/// * `_bucket_size` - Unused
/// * `seed` - Random seed
/// * `rng` - Random number generator
///
/// # Returns
/// (Generator output, Evaluator output) containing wire_shares and triple_shares
pub fn generate_preprocessing(
    num_and: usize,
    _num_wires: usize,
    _bucket_size: usize,
    seed: u64,
    rng: &mut SeededRng,
) -> (r: Result<(Preprocessing, Preprocessing), FcpError>)
    requires
        seed < u64::MAX,
        num_and * words_for((2 * SSP + 2560) as nat) <= usize::MAX,
    ensures
        *final(rng) == run_drawn(num_and as nat, *old(rng)).3,
        forall|l: nat| #[trigger]
            is_compressed_len(num_and as nat, l) ==> (r is Ok <==> commitment(
                run_drawn(num_and as nat, *old(rng)).1,
                step2_drawn(l, seed).0,
            ) != (Block { bits: 0 })),
        r matches Err(err) ==> (err matches FcpError::BlockVole(text) && text@
            == "Invalid certification proof"@),
        r matches Ok((gen, eval)) ==> is_fcp_output(
            num_and,
            seed,
            *old(rng),
            (FcpOutput { wire_shares: gen.0, triple_shares: gen.1 }),
            (FcpOutput { wire_shares: eval.0, triple_shares: eval.1 }),
        ),
{
    match fcp(num_and, seed, rng) {
        Ok((gen_output, eval_output)) => Ok(
            (
                (gen_output.wire_shares, gen_output.triple_shares),
                (eval_output.wire_shares, eval_output.triple_shares),
            ),
        ),
        Err(err) => Err(err),
    }
}

/// The outputs of a run fit together: A's key of a wire is B's MAC plus β times B's bit, and the
/// parties' bits for a gate sum to the product of the masks of the wires that it reads.
pub proof fn lemma_fcp_outputs(
    num_and: usize,
    seed: u64,
    beta: Block,
    a: Seq<bool>,
    m: BinaryMatrix,
    a_hat: Seq<bool>,
    a_hat_2: Seq<Block>,
    gen: FcpOutput,
    eval: FcpOutput,
    k: int,
)
    requires
        is_fcp_run(num_and, seed, beta, a, m, a_hat, a_hat_2, gen, eval),
        a.len() == num_and,
        0 <= k < num_and,
    ensures
        ({
            let (g, e) = (gen.wire_shares@, eval.wire_shares@);
            let (x, y) = (gen.triple_shares@[k], eval.triple_shares@[k]);
            let next = (k + 1) % num_and as int;
            &&& g[k].key.block == e[k].mac.block.xor(beta.times(e[k].value))
            &&& x.x == g[k] && y.x == e[k] && x.y == g[next] && y.y == e[next]
            &&& (x.z.value != y.z.value) == ((x.x.value != y.x.value) && (x.y.value
                != y.y.value))
        }),
{
    let (b_tilde, d_tilde) = step2_drawn(m.cols as nat, seed);
    let rng = SeededRng { seed, position: 0 };
    rng.lemma_drawn_len(m.cols as nat);
    rng.bits_drawn(m.cols as nat).1.lemma_drawn_len(m.cols as nat);
    let w_tilde = correlate(b_tilde, d_tilde, beta);
    lemma_matrix_keeps_correlation(m, w_tilde, b_tilde, d_tilde, beta, k, m.cols as nat);
    let gates = ring_gates(num_and as nat);
    assert(gates[k] == (k as usize, ((k + 1) % num_and as int) as usize));
}

} // verus!
