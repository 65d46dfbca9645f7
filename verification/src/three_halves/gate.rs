//! Garbling and evaluating a single AND gate.

use vstd::prelude::*;

use crate::block::{tweak_of, Block};
use crate::correlated::Delta;
use crate::fields::words::{from_le_bytes, to_le_bytes};
use crate::hash::{is_tweak_hash, tweak_fn, tweak_hash, TweakFn};
use crate::three_halves::circuit::{
    coefficient, packed, ControlBits, EncryptedGate, GateWords, ThreeHalvesGate,
};
use crate::three_halves::control::{
    bit, expand_marginal, extract_r_p_marginal, r_bar, sample_r_odd, R_A, R_B, R_DOLLAR_BASIS_0,
    R_DOLLAR_BASIS_1, R_P, S1, S2,
};
use crate::three_halves::lanes::ALL;
use crate::three_halves::matrices::{M, V};
use crate::three_halves::slicing::{joined, left_of, right_of, SlicedLabel};

verus! {

/// The mask of a bit: all ones if it is set, else zero.
pub open spec fn mask(b: bool) -> u64 {
    if b {
        ALL
    } else {
        0
    }
}

/// The mask of an entry of a matrix.
pub open spec fn entry(c: u8) -> u64 {
    mask(c == 1)
}

/// Computes the mask of a bit.
fn make_mask(b: bool) -> (r: u64)
    ensures
        r == mask(b),
{
    if b {
        ALL
    } else {
        0
    }
}

/// The sum of six words, each under a mask.
pub open spec fn masked_sum(x: Seq<u64>, m: Seq<u64>) -> u64 {
    (((((x[0] & m[0]) ^ (x[1] & m[1])) ^ (x[2] & m[2])) ^ (x[3] & m[3])) ^ (x[4] & m[4])) ^ (x[5]
        & m[5])
}

/// Computes the sum of six words, each under a mask.
fn sum_masked(x: &[u64; 6], m: &[u64; 6]) -> (r: u64)
    ensures
        r == masked_sum(x@, m@),
{
    (x[0] & m[0]) ^ (x[1] & m[1]) ^ (x[2] & m[2]) ^ (x[3] & m[3]) ^ (x[4] & m[4]) ^ (x[5] & m[5])
}

/// The choices behind a control matrix: the permute bits of the inputs and two random bits.
#[derive(Clone, Copy, Debug, PartialEq, Eq, Structural)]
pub struct Choices {
    /// Permute bit of input A.
    pub pi_a: bool,
    /// Permute bit of input B.
    pub pi_b: bool,
    /// First random bit.
    pub r0: bool,
    /// Second random bit.
    pub r1: bool,
}

/// The mask of an entry of the control matrix
/// R = r0·R$_BASIS_0 ⊕ r1·R$_BASIS_1 ⊕ a·R_A ⊕ b·R_B ⊕ R_P, where a = !pi_a and b = !pi_b.
pub open spec fn r_mask(p: Choices, row: int, c: int) -> u64 {
    ((((mask(p.r0) & entry(R_DOLLAR_BASIS_0@[row]@[c])) ^ (mask(p.r1) & entry(
        R_DOLLAR_BASIS_1@[row]@[c],
    ))) ^ (mask(!p.pi_a) & entry(R_A@[row]@[c]))) ^ (mask(!p.pi_b) & entry(R_B@[row]@[c])))
        ^ entry(R_P@[row]@[c])
}

/// The masks of a row of M.
pub open spec fn m_row(row: int) -> Seq<u64> {
    Seq::new(6, |c: int| entry(M@[row]@[c]))
}

/// The masks of a row of the control matrix.
pub open spec fn r_row(p: Choices, row: int) -> Seq<u64> {
    Seq::new(6, |c: int| r_mask(p, row, c))
}

/// A row of M · H ⊕ R · [A₀; B₀; Δ].
pub open spec fn right_side(h: Seq<u64>, x: Seq<u64>, p: Choices, row: int) -> u64 {
    masked_sum(h, m_row(row)) ^ masked_sum(x, r_row(p, row))
}

/// Whether the AND gate is true at an input combination.
///
/// For AND gates, the true output is at position (!pi_a, !pi_b).
pub open spec fn is_true_at(p: Choices, ij: int) -> bool {
    (ij >= 2) == !p.pi_a && (ij % 2 == 1) == !p.pi_b
}

/// A row of the right-hand side, with Δ added where the AND gate is true.
pub open spec fn adjusted(h: Seq<u64>, x: Seq<u64>, p: Choices, row: int) -> u64 {
    let side = right_side(h, x, p, row);
    if is_true_at(p, row / 2) {
        side ^ x[4 + row % 2]
    } else {
        side
    }
}

/// The halves of the output label and the ciphertexts: V⁻¹ times the right-hand side.
pub open spec fn solution(q: Seq<u64>) -> Seq<u64> {
    seq![
        q[0],
        q[1],
        ((q[0] ^ q[1]) ^ q[4]) ^ q[5],
        ((q[0] ^ q[1]) ^ q[2]) ^ q[3],
        q[4] ^ q[6],
    ]
}

/// The rows of the right-hand side, with Δ added where the AND gate is true.
pub open spec fn adjusted_rows(h: Seq<u64>, x: Seq<u64>, p: Choices) -> Seq<u64> {
    Seq::new(8, |row: int| adjusted(h, x, p, row))
}

/// The left halves of the hashes of both labels of A, both labels of B, and their two sums.
pub open spec fn hash_words(h: TweakFn, a0: Block, b0: Block, delta: Block, gid: u128) -> Seq<
    u64,
> {
    let t = tweak_of(gid);
    seq![
        left_of(h(t, a0)),
        left_of(h(t, a0.xor(delta))),
        left_of(h(t, b0)),
        left_of(h(t, b0.xor(delta))),
        left_of(h(t, a0.xor(b0))),
        left_of(h(t, a0.xor(b0.xor(delta)))),
    ]
}

/// The halves of the labels of A and B, and of Δ.
pub open spec fn input_words(a0: Block, b0: Block, delta: Block) -> Seq<u64> {
    seq![
        left_of(a0),
        right_of(a0),
        left_of(b0),
        right_of(b0),
        left_of(delta),
        right_of(delta),
    ]
}

/// The packed control bits.
pub open spec fn control_of(p: Choices) -> u8 {
    packed(
        |ij: int, k: int| bit(r_bar(p.pi_a, p.pi_b, p.r0, p.r1, ij, k)),
    )
}

/// The label C that solves the equations, and the encrypted gate.
pub open spec fn solved_and(
    h: TweakFn,
    w_a: Block,
    w_b: Block,
    p: Choices,
    delta: Block,
    gid: u128,
) -> (Block, GateWords) {
    let s = solution(
        adjusted_rows(hash_words(h, w_a, w_b, delta, gid), input_words(w_a, w_b, delta), p),
    );
    (joined(s[0], s[1]), GateWords { g0: s[2], g1: s[3], g2: s[4], control: control_of(p) })
}

/// The label W_c of the result with color bit 0, its permute bit, and the encrypted gate.
///
/// π_c is the least significant bit of C, and W_c = C ⊕ π_c·Δ.
pub open spec fn garbled_and(
    h: TweakFn,
    w_a: Block,
    w_b: Block,
    p: Choices,
    delta: Block,
    gid: u128,
) -> (Block, bool, GateWords) {
    let (c, gate) = solved_and(h, w_a, w_b, p, delta, gid);
    let pi_c = c.low_bit();
    (c.xor(delta.times(pi_c)), pi_c, gate)
}

/// Compute the left halves of the 6 hash values needed for garbling.
pub fn compute_hashes<H: Fn(Block, Block) -> Block>(
    cipher: &H,
    a0: Block,
    b0: Block,
    delta: Block,
    gid: u128,
) -> (r: [u64; 6])
    requires
        is_tweak_hash(*cipher),
    ensures
        r@ == hash_words(tweak_fn(*cipher), a0, b0, delta, gid),
{
    let a1 = a0 ^ delta;
    let b1 = b0 ^ delta;
    let tweak = Block::tweak(gid);
    let r: [u64; 6] = [
        left_half(tweak_hash(cipher, tweak, a0)),
        left_half(tweak_hash(cipher, tweak, a1)),
        left_half(tweak_hash(cipher, tweak, b0)),
        left_half(tweak_hash(cipher, tweak, b1)),
        left_half(tweak_hash(cipher, tweak, a0 ^ b0)),
        left_half(tweak_hash(cipher, tweak, a0 ^ b1)),
    ];
    assert(r@ =~= hash_words(tweak_fn(*cipher), a0, b0, delta, gid));
    r
}

/// The left half of a block, as a number.
fn left_half(block: Block) -> (r: u64)
    ensures
        r == left_of(block),
{
    from_le_bytes(SlicedLabel::from_block(block).left)
}

/// The right half of a block, as a number.
fn right_half(block: Block) -> (r: u64)
    ensures
        r == right_of(block),
{
    from_le_bytes(SlicedLabel::from_block(block).right)
}

/// Apply matrix M to hash vector.
pub fn apply_m_to_hashes(hashes: &[u64; 6]) -> (r: [u64; 8])
    ensures
        forall|row: int|
            0 <= row < 8 ==> #[trigger] r@[row] == masked_sum(hashes@, m_row(row)),
{
    let mut result: [u64; 8] = [0u64; 8];
    for row in 0..8usize
        invariant
            forall|t: int|
                0 <= t < row ==> #[trigger] result@[t] == masked_sum(hashes@, m_row(t)),
    {
        let m: [u64; 6] = [
            make_mask(M[row][0] == 1),
            make_mask(M[row][1] == 1),
            make_mask(M[row][2] == 1),
            make_mask(M[row][3] == 1),
            make_mask(M[row][4] == 1),
            make_mask(M[row][5] == 1),
        ];
        assert(m@ =~= m_row(row as int));
        result[row] = sum_masked(hashes, &m);
    }
    result
}

/// The mask of an entry of the control matrix.
fn control_mask(p: Choices, row: usize, c: usize) -> (r: u64)
    requires
        row < 8,
        c < 6,
    ensures
        r == r_mask(p, row as int, c as int),
{
    (make_mask(p.r0) & make_mask(R_DOLLAR_BASIS_0[row][c] == 1)) ^ (make_mask(p.r1) & make_mask(
        R_DOLLAR_BASIS_1[row][c] == 1,
    )) ^ (make_mask(!p.pi_a) & make_mask(R_A[row][c] == 1)) ^ (make_mask(!p.pi_b) & make_mask(
        R_B[row][c] == 1,
    )) ^ make_mask(R_P[row][c] == 1)
}

/// Apply control matrix R to input labels.
pub fn apply_r_to_inputs(p: Choices, inputs: &[u64; 6]) -> (r: [u64; 8])
    ensures
        forall|row: int|
            0 <= row < 8 ==> #[trigger] r@[row] == masked_sum(inputs@, r_row(p, row)),
{
    let mut result: [u64; 8] = [0u64; 8];
    for row in 0..8usize
        invariant
            forall|t: int|
                0 <= t < row ==> #[trigger] result@[t] == masked_sum(inputs@, r_row(p, t)),
    {
        let m: [u64; 6] = [
            control_mask(p, row, 0),
            control_mask(p, row, 1),
            control_mask(p, row, 2),
            control_mask(p, row, 3),
            control_mask(p, row, 4),
            control_mask(p, row, 5),
        ];
        assert(m@ =~= r_row(p, row as int));
        result[row] = sum_masked(inputs, &m);
    }
    result
}

/// Solve for [C_L, C_R, G₀, G₁, G₂] from the rows of the right-hand side.
fn solve_for_output(rhs: &[u64; 8], delta_left: u64, delta_right: u64, p: Choices) -> (r: [u64; 5])
    ensures
        r@ == solution(
            Seq::new(
                8,
                |row: int|
                    if is_true_at(p, row / 2) {
                        rhs@[row] ^ (if row % 2 == 0 {
                            delta_left
                        } else {
                            delta_right
                        })
                    } else {
                        rhs@[row]
                    },
            ),
        ),
{
    let ghost want = Seq::new(
        8,
        |row: int|
            if is_true_at(p, row / 2) {
                rhs@[row] ^ (if row % 2 == 0 {
                    delta_left
                } else {
                    delta_right
                })
            } else {
                rhs@[row]
            },
    );
    // For AND gates, the identity block (true output) is at position (!pi_a, !pi_b)
    let true_ij: usize = (if p.pi_a {
        0usize
    } else {
        2
    }) + (if p.pi_b {
        0usize
    } else {
        1
    });
    let mut q: [u64; 8] = *rhs;
    q[2 * true_ij] = q[2 * true_ij] ^ delta_left;
    q[2 * true_ij + 1] = q[2 * true_ij + 1] ^ delta_right;
    assert(q@ =~= want) by {
        assert forall|row: int| 0 <= row < 8 implies q@[row] == want[row] by {
            assert(row == 0 || row == 1 || row == 2 || row == 3 || row == 4 || row == 5 || row == 6
                || row == 7);
        }
    }
    let r: [u64; 5] = [
        // C_L = RHS[0]
        q[0],
        // C_R = RHS[1]
        q[1],
        // G₀ = RHS[0] ⊕ RHS[1] ⊕ RHS[4] ⊕ RHS[5]
        q[0] ^ q[1] ^ q[4] ^ q[5],
        // G₁ = RHS[0] ⊕ RHS[1] ⊕ RHS[2] ⊕ RHS[3]
        q[0] ^ q[1] ^ q[2] ^ q[3],
        // G₂ = RHS[4] ⊕ RHS[6]
        q[4] ^ q[6],
    ];
    assert(r@ =~= solution(want));
    r
}

/// Solves the equations of an AND gate.
///
/// # Returns
/// * `(C, gate)` where C is the label of the result for the bit 0
pub fn solve_and<H: Fn(Block, Block) -> Block>(
    cipher: &H,
    w_a: &Block,
    w_b: &Block,
    p: Choices,
    delta: Block,
    gid: u128,
) -> (r: (Block, EncryptedGate))
    requires
        is_tweak_hash(*cipher),
    ensures
        (r.0, r.1@) == solved_and(tweak_fn(*cipher), *w_a, *w_b, p, delta, gid),
{
    let ghost h = hash_words(tweak_fn(*cipher), *w_a, *w_b, delta, gid);
    let ghost x = input_words(*w_a, *w_b, delta);

    // Compute the 6 hash values from W_a, W_b, and Δ
    let hashes = compute_hashes(cipher, *w_a, *w_b, delta, gid);

    // Slice the input labels
    let inputs: [u64; 6] = [
        left_half(*w_a),
        right_half(*w_a),
        left_half(*w_b),
        right_half(*w_b),
        left_half(delta),
        right_half(delta),
    ];
    assert(inputs@ =~= x);

    // Sample the randomized control matrix R for AND gate (ODD mode)
    let r_bar_bits = sample_r_odd(p.pi_a, p.pi_b, [p.r0, p.r1]);

    // Compute M · H⃗ (hash contribution)
    let m_times_h = apply_m_to_hashes(&hashes);

    // Compute R · [A₀; B₀; Δ] (input contribution)
    let r_times_input = apply_r_to_inputs(p, &inputs);

    // Compute RHS = M·H ⊕ R·input
    let mut rhs: [u64; 8] = [0u64; 8];
    for i in 0..8usize
        invariant
            forall|row: int|
                0 <= row < 8 ==> #[trigger] m_times_h@[row] == masked_sum(h, m_row(row)),
            forall|row: int|
                0 <= row < 8 ==> #[trigger] r_times_input@[row] == masked_sum(x, r_row(p, row)),
            forall|row: int| 0 <= row < i ==> #[trigger] rhs@[row] == right_side(h, x, p, row),
    {
        assert(m_times_h@[i as int] == masked_sum(h, m_row(i as int)));
        assert(r_times_input@[i as int] == masked_sum(x, r_row(p, i as int)));
        rhs[i] = m_times_h[i] ^ r_times_input[i];
    }

    // Solve for [C; G⃗]
    let output = solve_for_output(&rhs, inputs[4], inputs[5], p);
    proof {
        let rows = Seq::new(
            8,
            |row: int|
                if is_true_at(p, row / 2) {
                    rhs@[row] ^ (if row % 2 == 0 {
                        inputs@[4]
                    } else {
                        inputs@[5]
                    })
                } else {
                    rhs@[row]
                },
        );
        assert forall|row: int| 0 <= row < 8 implies rows[row] == adjusted_rows(h, x, p)[row] by {
            assert(rhs@[row] == right_side(h, x, p, row));
        }
        assert(rows =~= adjusted_rows(h, x, p));
    }

    // Extract output label C from the linear algebra
    let c = SlicedLabel::new(to_le_bytes(output[0]), to_le_bytes(output[1])).to_block();

    let gate = ThreeHalvesGate::new(
        to_le_bytes(output[2]),
        to_le_bytes(output[3]),
        to_le_bytes(output[4]),
    );
    let control_bits = ControlBits::new(r_bar_bits);
    proof {
        let f = |ij: int, k: int| bit(r_bar(p.pi_a, p.pi_b, p.r0, p.r1, ij, k));
        let g = |ij: int, k: int| (r_bar_bits@[ij]@[k] % 2) as u8;
        assert forall|ij: int, k: int| 0 <= ij < 4 && 0 <= k < 2 implies #[trigger] g(ij, k)
            == f(ij, k) by {
            assert(r_bar_bits@[ij]@[k] == bit(r_bar(p.pi_a, p.pi_b, p.r0, p.r1, ij, k)));
        }
        assert(packed(f) == packed(g)) by {
            assert(g(0, 0) == f(0, 0) && g(0, 1) == f(0, 1) && g(1, 0) == f(1, 0) && g(1, 1) == f(
                1,
                1,
            ) && g(2, 0) == f(2, 0) && g(2, 1) == f(2, 1) && g(3, 0) == f(3, 0) && g(3, 1) == f(
                3,
                1,
            ));
        }
    }
    (c, EncryptedGate::new(gate, control_bits))
}

/// Garble a single AND gate using the Three Halves scheme.
///
/// # Arguments
/// * `cipher` - The hash
/// * `w_a` - Wire label W_a (color bit 0)
/// * `w_b` - Wire label W_b (color bit 0)
/// * `pi_a` - The permute bit for input A
/// * `pi_b` - The permute bit for input B
/// * `delta` - The global offset
/// * `gid` - Gate ID
/// * `rand_bits` - Pre-generated random bits for control matrix
///
/// # Returns
/// * `(W_c, pi_c, gate)` where W_c has LSB = 0 and pi_c is the output permute
///   bit
pub fn garble_and<H: Fn(Block, Block) -> Block>(
    cipher: &H,
    w_a: &Block,
    w_b: &Block,
    pi_a: bool,
    pi_b: bool,
    delta: &Delta,
    gid: u128,
    rand_bits: [bool; 2],
) -> (r: (Block, bool, EncryptedGate))
    requires
        is_tweak_hash(*cipher),
    ensures
        ({
            let p = Choices { pi_a, pi_b, r0: rand_bits@[0], r1: rand_bits@[1] };
            (r.0, r.1, r.2@) == garbled_and(tweak_fn(*cipher), *w_a, *w_b, p, delta.block, gid)
        }),
{
    let delta_block = *delta.as_block();
    let p = Choices { pi_a, pi_b, r0: rand_bits[0], r1: rand_bits[1] };
    let (c, gate) = solve_and(cipher, w_a, w_b, p, delta_block, gid);

    // π_c := lsb(C)
    // W_c := C ⊕ π_c·Δ
    // This ensures W_c has LSB = 0
    let pi_c = c.lsb();
    let w_c = c ^ delta_block.mul_bool(pi_c);
    (w_c, pi_c, gate)
}

/// The masks of the marginal view of an input combination, for a half: c₁·S₁ ⊕ c₂·S₂ ⊕ R_P.
pub open spec fn view_mask(c1: bool, c2: bool, ij: int, half: int, c: int) -> u64 {
    ((mask(c1) & entry(S1@[half]@[c])) ^ (mask(c2) & entry(S2@[half]@[c]))) ^ entry(
        R_P@[2 * ij + half]@[c],
    )
}

/// What the labels contribute to a half of the result.
pub open spec fn input_part(a: Block, b: Block, c1: bool, c2: bool, ij: int, half: int) -> u64 {
    (((left_of(a) & view_mask(c1, c2, ij, half, 0)) ^ (right_of(a) & view_mask(
        c1,
        c2,
        ij,
        half,
        1,
    ))) ^ (left_of(b) & view_mask(c1, c2, ij, half, 2))) ^ (right_of(b) & view_mask(
        c1,
        c2,
        ij,
        half,
        3,
    ))
}

/// What the ciphertexts contribute to a row: those that the row of V has.
pub open spec fn gate_part(gate: GateWords, row: int) -> u64 {
    ((gate.g0 & entry(V@[row]@[2])) ^ (gate.g1 & entry(V@[row]@[3]))) ^ (gate.g2 & entry(
        V@[row]@[4],
    ))
}

/// The input combination that the color bits of the labels stand for.
pub open spec fn combination(a: Block, b: Block) -> int {
    (if a.low_bit() {
        2int
    } else {
        0
    }) + (if b.low_bit() {
        1int
    } else {
        0
    })
}

/// A half of the result: hash contribution, input contribution and gate contribution.
pub open spec fn evaluated_half(
    h: TweakFn,
    a: Block,
    b: Block,
    gate: GateWords,
    gid: u128,
    half: int,
) -> u64 {
    let t = tweak_of(gid);
    let ij = combination(a, b);
    let (c1, c2) = (coefficient(gate.control, ij, 0), coefficient(gate.control, ij, 1));
    let hashed = left_of(
        h(
            t,
            if half == 0 {
                a
            } else {
                b
            },
        ),
    ) ^ left_of(h(t, a.xor(b)));
    (hashed ^ input_part(a, b, c1, c2, ij, half)) ^ gate_part(gate, 2 * ij + half)
}

/// The label of the result of a gate.
pub open spec fn evaluated_and(h: TweakFn, a: Block, b: Block, gate: GateWords, gid: u128) -> Block {
    joined(evaluated_half(h, a, b, gate, gid, 0), evaluated_half(h, a, b, gate, gid, 1))
}

/// Expand evaluator's marginal from compressed control bits.
pub fn expand_evaluator_marginal(control_bits: &ControlBits, i: usize, j: usize) -> (r: [[u64; 4]; 2])
    requires
        i <= 1,
        j <= 1,
    ensures
        forall|half: int, c: int|
            0 <= half < 2 && 0 <= c < 4 ==> #[trigger] r@[half]@[c] == view_mask(
                coefficient(control_bits.bits, 2 * i + j, 0),
                coefficient(control_bits.bits, 2 * i + j, 1),
                2 * i + j,
                half,
                c,
            ),
{
    let r_bar_ij = control_bits.get(2 * i + j);
    let marginal = expand_marginal(&r_bar_ij);

    // Add R_P's marginal (ODD mode)
    let r_p_marginal = extract_r_p_marginal(i, j);
    let ghost (c1, c2) = (
        coefficient(control_bits.bits, 2 * i + j, 0),
        coefficient(control_bits.bits, 2 * i + j, 1),
    );
    let mut r: [[u64; 4]; 2] = [[0u64; 4]; 2];
    for half in 0..2usize
        invariant
            i <= 1,
            j <= 1,
            r_bar_ij@[0] == bit(c1),
            r_bar_ij@[1] == bit(c2),
            forall|u: int, c: int|
                0 <= u < 2 && 0 <= c < 4 ==> #[trigger] marginal@[u]@[c] == bit(
                    (r_bar_ij@[0] == 1 && S1@[u]@[c] == 1) != (r_bar_ij@[1] == 1 && S2@[u]@[c]
                        == 1),
                ),
            forall|u: int, c: int|
                0 <= u < 2 && 0 <= c < 4 ==> #[trigger] r_p_marginal@[u]@[c] == R_P@[4 * i + 2 * j
                    + u]@[c],
            forall|u: int, c: int|
                0 <= u < half && 0 <= c < 4 ==> #[trigger] r@[u]@[c] == view_mask(
                    c1,
                    c2,
                    2 * i + j,
                    u,
                    c,
                ),
    {
        let mut row: [u64; 4] = [0u64; 4];
        for c in 0..4usize
            invariant
                i <= 1,
                j <= 1,
                half < 2,
                r_bar_ij@[0] == bit(c1),
                r_bar_ij@[1] == bit(c2),
                forall|u: int, c: int|
                    0 <= u < 2 && 0 <= c < 4 ==> #[trigger] marginal@[u]@[c] == bit(
                        (r_bar_ij@[0] == 1 && S1@[u]@[c] == 1) != (r_bar_ij@[1] == 1 && S2@[u]@[c]
                            == 1),
                    ),
                forall|u: int, c: int|
                    0 <= u < 2 && 0 <= c < 4 ==> #[trigger] r_p_marginal@[u]@[c] == R_P@[4 * i + 2
                        * j + u]@[c],
                forall|t: int|
                    0 <= t < c ==> #[trigger] row@[t] == view_mask(
                        c1,
                        c2,
                        2 * i + j,
                        half as int,
                        t,
                    ),
        {
            proof {
                let s1 = S1@[half as int]@[c as int] == 1;
                let s2 = S2@[half as int]@[c as int] == 1;
                assert(marginal@[half as int]@[c as int] == bit((c1 && s1) != (c2 && s2)));
                assert(r_p_marginal@[half as int]@[c as int] == R_P@[4 * i + 2 * j
                    + half]@[c as int]);
                assert(2 * (2 * i + j) + half == 4 * i + 2 * j + half);
                lemma_mask_of_sum(c1, s1, c2, s2);
            }
            row[c] = make_mask(marginal[half][c] == 1) ^ make_mask(r_p_marginal[half][c] == 1);
        }
        r[half] = row;
    }
    r
}

/// The mask of a sum of products is the sum of the products of masks.
proof fn lemma_mask_of_sum(c1: bool, s1: bool, c2: bool, s2: bool)
    ensures
        mask((c1 && s1) != (c2 && s2)) == (mask(c1) & mask(s1)) ^ (mask(c2) & mask(s2)),
{
    crate::three_halves::lanes::lemma_masks(ALL, 0);
    crate::three_halves::lanes::lemma_masks(0, ALL);
}

/// Compute hash contribution: even rows XOR h_a ⊕ h_ab, odd rows XOR h_b ⊕ h_ab.
fn compute_hash_contribution(half: usize, h_a: u64, h_b: u64, h_ab: u64) -> (r: u64)
    requires
        half < 2,
    ensures
        r == (if half == 0 {
            h_a
        } else {
            h_b
        }) ^ h_ab,
{
    if half == 0 {
        h_a ^ h_ab
    } else {
        h_b ^ h_ab
    }
}

/// Compute input contribution from expanded marginal.
pub fn compute_input_contribution(marginal: &[[u64; 4]; 2], half: usize, a: &Block, b: &Block) -> (r:
    u64)
    requires
        half < 2,
    ensures
        r == (((left_of(*a) & marginal@[half as int]@[0]) ^ (right_of(*a)
            & marginal@[half as int]@[1])) ^ (left_of(*b) & marginal@[half as int]@[2])) ^ (
        right_of(*b) & marginal@[half as int]@[3]),
{
    (left_half(*a) & marginal[half][0]) ^ (right_half(*a) & marginal[half][1]) ^ (left_half(*b)
        & marginal[half][2]) ^ (right_half(*b) & marginal[half][3])
}

/// Compute gate ciphertext contribution for a row's evaluation equation.
fn compute_gate_contribution(row: usize, gate: &EncryptedGate) -> (r: u64)
    requires
        row < 8,
    ensures
        r == gate_part(gate@, row as int),
{
    let (g0, g1, g2) = gate.words();
    (g0 & make_mask(V[row][2] == 1)) ^ (g1 & make_mask(V[row][3] == 1)) ^ (g2 & make_mask(
        V[row][4] == 1,
    ))
}

/// Evaluate a single AND gate using the Three Halves scheme.
///
/// # Arguments
/// * `cipher` - The hash
/// * `a` - The active label for input A
/// * `b` - The active label for input B
/// * `gate` - The ciphertexts (G₀, G₁, G₂) and the compressed control bits
/// * `gid` - Gate ID
///
/// # Returns
/// The output label C
pub fn evaluate_and<H: Fn(Block, Block) -> Block>(
    cipher: &H,
    a: &Block,
    b: &Block,
    gate: &EncryptedGate,
    gid: u128,
) -> (r: Block)
    requires
        is_tweak_hash(*cipher),
    ensures
        r == evaluated_and(tweak_fn(*cipher), *a, *b, gate@, gid),
{
    // Determine input combination (i, j) from color bits
    let i: usize = if a.lsb() {
        1
    } else {
        0
    };
    let j: usize = if b.lsb() {
        1
    } else {
        0
    };
    let ij: usize = 2 * i + j;

    // Compute the three hashes the evaluator has access to
    let tweak = Block::tweak(gid);
    let h_a: u64 = left_half(tweak_hash(cipher, tweak, *a));
    let h_b: u64 = left_half(tweak_hash(cipher, tweak, *b));
    let h_ab: u64 = left_half(tweak_hash(cipher, tweak, *a ^ *b));

    // Expand compressed r_bar to full marginal (includes R_P for ODD mode)
    let marginal = expand_evaluator_marginal(&gate.control_bits, i, j);
    assert(marginal@[0]@[0] == marginal@[0]@[0] && marginal@[1]@[0] == marginal@[1]@[0]);

    // Combine all contributions
    let c_l: u64 = compute_hash_contribution(0, h_a, h_b, h_ab) ^ compute_input_contribution(
        &marginal,
        0,
        a,
        b,
    ) ^ compute_gate_contribution(2 * ij, gate);
    let c_r: u64 = compute_hash_contribution(1, h_a, h_b, h_ab) ^ compute_input_contribution(
        &marginal,
        1,
        a,
        b,
    ) ^ compute_gate_contribution(2 * ij + 1, gate);
    SlicedLabel::new(to_le_bytes(c_l), to_le_bytes(c_r)).to_block()
}

} // verus!
