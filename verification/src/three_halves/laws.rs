//! What holds between the garbler and the evaluator of the three-halves scheme.

use vstd::prelude::*;

use crate::block::{lemma_low_bit, lemma_xor, lemma_xor_offset, lemma_xor_times, tweak_of, Block};
use crate::circuit::{ands, gate_ok, lemma_ands_bound, wire_values, with_inputs, Circuit, Gate};
use crate::correlated::{key_blocks, mac_blocks, macs_of, Delta, Key};
use crate::hash::TweakFn;
use crate::three_halves::circuit::{coefficient, gate_words, packed, GateWords};
use crate::three_halves::control::{bit, r_bar};
use crate::three_halves::evaluator::{
    evaluated_circuit, evaluated_labels, wanted, Evaluation, EvaluatorError,
};
use crate::three_halves::garbler::{
    batch_of, choices_at, garbled_table, garbled_wires, lemma_table, output_keys, start_wires, Wires,
};
use crate::three_halves::gate::{
    adjusted, adjusted_rows, combination, control_of, entry, evaluated_and, garbled_and,
    gate_part, hash_words, input_part, input_words, is_true_at, m_row, mask, masked_sum, r_row,
    right_side, solution, solved_and, Choices,
};
use crate::three_halves::lanes::{
    lemma_equations, lemma_gate_space, lemma_masks, lemma_rows, lemma_views, ALL,
};
use crate::three_halves::matrices::V_INV;
use crate::three_halves::slicing::{
    left_of, lemma_halves_of_xor, lemma_join_halves, lemma_split_joined, right_of,
};

verus! {

/// The mask of the input combination at which the AND gate is true.
spec fn true_mask(p: Choices, ij: int) -> u64 {
    (if ij >= 2 {
        mask(!p.pi_a)
    } else {
        !mask(!p.pi_a)
    }) & (if ij % 2 == 1 {
        mask(!p.pi_b)
    } else {
        !mask(!p.pi_b)
    })
}

/// Adding Δ where the AND gate is true is adding Δ under a mask.
proof fn lemma_true_mask(p: Choices, ij: int, q: u64, d: u64)
    requires
        0 <= ij < 4,
    ensures
        true_mask(p, ij) == mask(is_true_at(p, ij)),
        (if is_true_at(p, ij) {
            q ^ d
        } else {
            q
        }) == q ^ (d & true_mask(p, ij)),
{
    lemma_masks(ALL, 0);
    lemma_masks(0, ALL);
    lemma_masks(d, 0);
    lemma_masks(q, 0);
}

/// The bits that the evaluator unpacks are those of the compressed control matrix.
pub proof fn lemma_control(p: Choices, ij: int, k: int)
    requires
        0 <= ij < 4,
        0 <= k < 2,
    ensures
        coefficient(control_of(p), ij, k) == r_bar(p.pi_a, p.pi_b, p.r0, p.r1, ij, k),
{
    let f = |ij: int, k: int| bit(r_bar(p.pi_a, p.pi_b, p.r0, p.r1, ij, k));
    assert(f(0, 0) <= 1 && f(0, 1) <= 1 && f(1, 0) <= 1 && f(1, 1) <= 1 && f(2, 0) <= 1 && f(2, 1)
        <= 1 && f(3, 0) <= 1 && f(3, 1) <= 1);
    assert(control_of(p) == packed(f));
    assert(ij == 0 || ij == 1 || ij == 2 || ij == 3);
    assert(k == 0 || k == 1);
}

/// The mask of a sum of four bits, each with a coefficient.
proof fn lemma_mask_of_four(r0: bool, c0: bool, r1: bool, c1: bool, a: bool, ca: bool, b: bool, cb: bool)
    ensures
        mask((((r0 && c0) != (r1 && c1)) != (a && ca)) != (b && cb)) == (((mask(r0) & mask(c0)) ^ (
        mask(r1) & mask(c1))) ^ (mask(a) & mask(ca))) ^ (mask(b) & mask(cb)),
{
    lemma_masks(ALL, 0);
    lemma_masks(0, ALL);
}

/// The masks of the coefficients of the compressed control matrix.
proof fn lemma_r_bar_masks(p: Choices)
    ensures
        ({
            let (r0, r1, a, b) = (mask(p.r0), mask(p.r1), mask(!p.pi_a), mask(!p.pi_b));
            let c = |ij: int, k: int| mask(r_bar(p.pi_a, p.pi_b, p.r0, p.r1, ij, k));
            &&& c(0, 0) == (((r0 & ALL) ^ (r1 & 0)) ^ (a & 0)) ^ (b & 0)
            &&& c(0, 1) == (((r0 & 0) ^ (r1 & ALL)) ^ (a & 0)) ^ (b & 0)
            &&& c(1, 0) == (((r0 & ALL) ^ (r1 & 0)) ^ (a & ALL)) ^ (b & ALL)
            &&& c(1, 1) == (((r0 & 0) ^ (r1 & ALL)) ^ (a & ALL)) ^ (b & 0)
            &&& c(2, 0) == (((r0 & ALL) ^ (r1 & 0)) ^ (a & 0)) ^ (b & ALL)
            &&& c(2, 1) == (((r0 & 0) ^ (r1 & ALL)) ^ (a & ALL)) ^ (b & ALL)
            &&& c(3, 0) == (((r0 & ALL) ^ (r1 & 0)) ^ (a & ALL)) ^ (b & 0)
            &&& c(3, 1) == (((r0 & 0) ^ (r1 & ALL)) ^ (a & 0)) ^ (b & ALL)
        }),
{
    let (a, b) = (!p.pi_a, !p.pi_b);
    lemma_mask_of_four(p.r0, true, p.r1, false, a, false, b, false);
    lemma_mask_of_four(p.r0, false, p.r1, true, a, false, b, false);
    lemma_mask_of_four(p.r0, true, p.r1, false, a, true, b, true);
    lemma_mask_of_four(p.r0, false, p.r1, true, a, true, b, false);
    lemma_mask_of_four(p.r0, true, p.r1, false, a, false, b, true);
    lemma_mask_of_four(p.r0, false, p.r1, true, a, true, b, true);
    lemma_mask_of_four(p.r0, true, p.r1, false, a, true, b, false);
    lemma_mask_of_four(p.r0, false, p.r1, true, a, false, b, true);
}

/// A row of the right-hand side, written out.
spec fn plain_row(h: Seq<u64>, x: Seq<u64>, p: Choices, row: int) -> u64 {
    let (a, b, r0, r1) = (mask(!p.pi_a), mask(!p.pi_b), mask(p.r0), mask(p.r1));
    if row == 0 {
        h[0] ^ h[4] ^ (x[0] & (r0 ^ r1)) ^ (x[1] & r0) ^ (x[2] & !r0) ^ (x[3] & r1)
    } else if row == 1 {
        h[2] ^ h[4] ^ (x[0] & r0) ^ (x[1] & !r1) ^ (x[2] & r1) ^ (x[3] & (r0 ^ r1))
    } else if row == 2 {
        h[0] ^ h[5] ^ (x[0] & (r0 ^ r1 ^ b)) ^ (x[1] & (r0 ^ a ^ b)) ^ (x[2] & !(r0 ^ a ^ b)) ^ (x[3] & (r1 ^ a)) ^ (x[4] & !(r0 ^ a ^ b)) ^ (x[5] & (r1 ^ a))
    } else if row == 3 {
        h[3] ^ h[5] ^ (x[0] & (r0 ^ a ^ b)) ^ (x[1] & (r1 ^ a)) ^ (x[2] & (r1 ^ a)) ^ (x[3] & (r0 ^ r1 ^ b)) ^ (x[4] & (r1 ^ a)) ^ (x[5] & (r0 ^ r1 ^ b))
    } else if row == 4 {
        h[1] ^ h[5] ^ (x[0] & (r0 ^ r1 ^ a)) ^ (x[1] & (r0 ^ b)) ^ (x[2] & (r0 ^ b)) ^ (x[3] & (r1 ^ a ^ b)) ^ (x[4] & (r0 ^ r1 ^ a)) ^ (x[5] & (r0 ^ b))
    } else if row == 5 {
        h[2] ^ h[5] ^ (x[0] & (r0 ^ b)) ^ (x[1] & !(r1 ^ a ^ b)) ^ (x[2] & (r1 ^ a ^ b)) ^ (x[3] & (r0 ^ r1 ^ a)) ^ (x[4] & (r0 ^ b)) ^ (x[5] & !(r1 ^ a ^ b))
    } else if row == 6 {
        h[1] ^ h[4] ^ (x[0] & (r0 ^ r1 ^ a ^ b)) ^ (x[1] & (r0 ^ a)) ^ (x[2] & (r0 ^ a)) ^ (x[3] & (r1 ^ b)) ^ (x[4] & (r1 ^ b)) ^ (x[5] & (r0 ^ r1 ^ a ^ b))
    } else {
        h[3] ^ h[4] ^ (x[0] & (r0 ^ a)) ^ (x[1] & (r1 ^ b)) ^ (x[2] & (r1 ^ b)) ^ (x[3] & (r0 ^ r1 ^ a ^ b)) ^ (x[4] & (r0 ^ r1 ^ a ^ b)) ^ (x[5] & (r0 ^ a))
    }
}

/// The rows of the right-hand side, written out.
proof fn lemma_plain_rows(h: Seq<u64>, x: Seq<u64>, p: Choices)
    ensures
        right_side(h, x, p, 0) == plain_row(h, x, p, 0),
        right_side(h, x, p, 1) == plain_row(h, x, p, 1),
        right_side(h, x, p, 2) == plain_row(h, x, p, 2),
        right_side(h, x, p, 3) == plain_row(h, x, p, 3),
        right_side(h, x, p, 4) == plain_row(h, x, p, 4),
        right_side(h, x, p, 5) == plain_row(h, x, p, 5),
        right_side(h, x, p, 6) == plain_row(h, x, p, 6),
        right_side(h, x, p, 7) == plain_row(h, x, p, 7),
{
    lemma_rows(
        mask(!p.pi_a),
        mask(!p.pi_b),
        mask(p.r0),
        mask(p.r1),
        h[0],
        h[1],
        h[2],
        h[3],
        h[4],
        h[5],
        x[0],
        x[1],
        x[2],
        x[3],
        x[4],
        x[5],
    );
}

/// The adjusted rows satisfy the equations of V: each is a half of C plus the ciphertexts of
/// its row.
pub proof fn lemma_solution(h: Seq<u64>, x: Seq<u64>, p: Choices, control: u8, row: int)
    requires
        0 <= row < 8,
    ensures
        ({
            let s = solution(adjusted_rows(h, x, p));
            let gate = GateWords { g0: s[2], g1: s[3], g2: s[4], control };
            adjusted(h, x, p, row) == s[row % 2] ^ gate_part(gate, row)
        }),
{
    let q = adjusted_rows(h, x, p);
    let s = solution(q);
    lemma_plain_rows(h, x, p);
    let (a, b, r0, r1) = (mask(!p.pi_a), mask(!p.pi_b), mask(p.r0), mask(p.r1));
    lemma_true_mask(p, 0, plain_row(h, x, p, 0), x[4]);
    lemma_true_mask(p, 0, plain_row(h, x, p, 1), x[5]);
    lemma_true_mask(p, 1, plain_row(h, x, p, 2), x[4]);
    lemma_true_mask(p, 1, plain_row(h, x, p, 3), x[5]);
    lemma_true_mask(p, 2, plain_row(h, x, p, 4), x[4]);
    lemma_true_mask(p, 2, plain_row(h, x, p, 5), x[5]);
    lemma_true_mask(p, 3, plain_row(h, x, p, 6), x[4]);
    lemma_true_mask(p, 3, plain_row(h, x, p, 7), x[5]);
    lemma_gate_space(
        a,
        b,
        r0,
        r1,
        h[0],
        h[1],
        h[2],
        h[3],
        h[4],
        h[5],
        x[0],
        x[1],
        x[2],
        x[3],
        x[4],
        x[5],
        q[0],
        q[1],
        q[2],
        q[3],
        q[4],
        q[5],
        q[6],
        q[7],
    );
    lemma_equations(q[0], q[1], q[2], q[3], q[4], q[5], q[6], q[7]);
    lemma_masks(s[2], 0);
    lemma_masks(s[3], 0);
    lemma_masks(s[4], 0);
    lemma_masks(s[0], 0);
    lemma_masks(s[1], 0);
    lemma_masks(0, ALL);
    assert(row == 0 || row == 1 || row == 2 || row == 3 || row == 4 || row == 5 || row == 6 || row
        == 7);
}

/// What the evaluator computes of its labels and hashes is the row of its input combination.
proof fn lemma_view(
    h: TweakFn,
    w_a: Block,
    w_b: Block,
    p: Choices,
    delta: Block,
    gid: u128,
    i: bool,
    j: bool,
    half: int,
)
    requires
        half == 0 || half == 1,
        delta.low_bit(),
        !w_a.low_bit(),
        !w_b.low_bit(),
    ensures
        ({
            let (a, b) = (w_a.xor(delta.times(i)), w_b.xor(delta.times(j)));
            let ij = combination(a, b);
            let t = tweak_of(gid);
            let hashed = left_of(
                h(
                    t,
                    if half == 0 {
                        a
                    } else {
                        b
                    },
                ),
            ) ^ left_of(h(t, a.xor(b)));
            let (c1, c2) = (
                coefficient(control_of(p), ij, 0),
                coefficient(control_of(p), ij, 1),
            );
            &&& ij == (if i {
                2int
            } else {
                0
            }) + (if j {
                1int
            } else {
                0
            })
            &&& hashed ^ input_part(a, b, c1, c2, ij, half) == right_side(
                hash_words(h, w_a, w_b, delta, gid),
                input_words(w_a, w_b, delta),
                p,
                2 * ij + half,
            )
        }),
{
    let hw = hash_words(h, w_a, w_b, delta, gid);
    let x = input_words(w_a, w_b, delta);
    let (a, b) = (w_a.xor(delta.times(i)), w_b.xor(delta.times(j)));
    let zero = Block { bits: 0 };
    let ij = combination(a, b);
    lemma_low_bit(w_a, delta);
    lemma_low_bit(w_b, delta);
    lemma_xor(w_a, w_b, delta);
    lemma_xor(w_b, w_a, delta);
    lemma_halves_of_xor(w_a, delta);
    lemma_halves_of_xor(w_b, delta);
    lemma_plain_rows(hw, x, p);
    lemma_control(p, ij, 0);
    lemma_control(p, ij, 1);
    lemma_r_bar_masks(p);
    lemma_views(
        mask(!p.pi_a),
        mask(!p.pi_b),
        mask(p.r0),
        mask(p.r1),
        hw[0],
        hw[1],
        hw[2],
        hw[3],
        hw[4],
        hw[5],
        x[0],
        x[1],
        x[2],
        x[3],
        x[4],
        x[5],
    );
    lemma_sums(w_a, w_b, delta);
}

/// The evaluator's view reproduces the garbler's row without Δ: what the labels with color bits
/// `i` and `j` contribute under the marginal view of the control bits is the row `2·(2i + j) + half`
/// of R · [A₀; B₀; Δ].
pub proof fn lemma_input_view(
    a0: Block,
    b0: Block,
    p: Choices,
    delta: Block,
    i: bool,
    j: bool,
    half: int,
)
    requires
        half == 0 || half == 1,
    ensures
        ({
            let ij = (if i {
                2int
            } else {
                0
            }) + (if j {
                1int
            } else {
                0
            });
            let (c1, c2) = (
                coefficient(control_of(p), ij, 0),
                coefficient(control_of(p), ij, 1),
            );
            input_part(a0.xor(delta.times(i)), b0.xor(delta.times(j)), c1, c2, ij, half)
                == masked_sum(input_words(a0, b0, delta), r_row(p, 2 * ij + half))
        }),
{
    let no_hashes = seq![0u64, 0u64, 0u64, 0u64, 0u64, 0u64];
    let x = input_words(a0, b0, delta);
    let ij = (if i {
        2int
    } else {
        0
    }) + (if j {
        1int
    } else {
        0
    });
    let (a, b) = (a0.xor(delta.times(i)), b0.xor(delta.times(j)));
    let (c1, c2) = (coefficient(control_of(p), ij, 0), coefficient(control_of(p), ij, 1));
    lemma_xor(a0, b0, delta);
    lemma_xor(b0, a0, delta);
    lemma_halves_of_xor(a0, delta);
    lemma_halves_of_xor(b0, delta);
    lemma_plain_rows(no_hashes, x, p);
    lemma_control(p, ij, 0);
    lemma_control(p, ij, 1);
    lemma_r_bar_masks(p);
    lemma_views(
        mask(!p.pi_a),
        mask(!p.pi_b),
        mask(p.r0),
        mask(p.r1),
        0,
        0,
        0,
        0,
        0,
        0,
        x[0],
        x[1],
        x[2],
        x[3],
        x[4],
        x[5],
    );
    let row = 2 * ij + half;
    assert((0u64 ^ 0u64) ^ input_part(a, b, c1, c2, ij, half) == right_side(no_hashes, x, p, row));
    lemma_masks(0, ALL);
    lemma_masks(input_part(a, b, c1, c2, ij, half), 0);
    lemma_masks(masked_sum(x, r_row(p, row)), 0);
    assert(masked_sum(no_hashes, m_row(row)) == 0);
}

/// The sums of the labels of two wires: two of the four are the same.
proof fn lemma_sums(a: Block, b: Block, d: Block)
    ensures
        a.xor(d).xor(b) == a.xor(b.xor(d)),
        a.xor(d).xor(b.xor(d)) == a.xor(b),
{
    let (x, y, z) = (a.bits, b.bits, d.bits);
    assert((x ^ z) ^ y == x ^ (y ^ z) && (x ^ z) ^ (y ^ z) == x ^ y) by (bit_vector);
}

/// An encrypted AND gate, evaluated on the labels with color bits `i` and `j`, gives the label C,
/// plus Δ if both values are true; the values are the color bits plus the permute bits.
pub proof fn lemma_and_gate(
    h: TweakFn,
    w_a: Block,
    w_b: Block,
    p: Choices,
    delta: Block,
    gid: u128,
    i: bool,
    j: bool,
)
    requires
        delta.low_bit(),
        !w_a.low_bit(),
        !w_b.low_bit(),
    ensures
        ({
            let (c, gate) = solved_and(h, w_a, w_b, p, delta, gid);
            evaluated_and(h, w_a.xor(delta.times(i)), w_b.xor(delta.times(j)), gate, gid)
                == c.xor(delta.times(i != p.pi_a && j != p.pi_b))
        }),
{
    let hw = hash_words(h, w_a, w_b, delta, gid);
    let x = input_words(w_a, w_b, delta);
    let (a, b) = (w_a.xor(delta.times(i)), w_b.xor(delta.times(j)));
    let ij = combination(a, b);
    let s = solution(adjusted_rows(hw, x, p));
    let (c, gate) = solved_and(h, w_a, w_b, p, delta, gid);
    let v = i != p.pi_a && j != p.pi_b;
    lemma_view(h, w_a, w_b, p, delta, gid, i, j, 0);
    lemma_view(h, w_a, w_b, p, delta, gid, i, j, 1);
    assert(is_true_at(p, ij) == v);
    lemma_half(hw, x, p, gate.control, ij, 0);
    lemma_half(hw, x, p, gate.control, ij, 1);
    lemma_split_joined(s[0], s[1]);
    let want = c.xor(delta.times(v));
    lemma_halves_of_xor(c, delta.times(v));
    lemma_masks(s[0], 0);
    lemma_masks(s[1], 0);
    assert(left_of(delta.times(v)) == if v {
        x[4]
    } else {
        0
    });
    assert(right_of(delta.times(v)) == if v {
        x[5]
    } else {
        0
    });
    lemma_join_halves(want);
}

/// A row without the ciphertexts is a half of C, plus Δ where the AND gate is true.
proof fn lemma_half(h: Seq<u64>, x: Seq<u64>, p: Choices, control: u8, ij: int, half: int)
    requires
        0 <= ij < 4,
        half == 0 || half == 1,
    ensures
        ({
            let s = solution(adjusted_rows(h, x, p));
            let gate = GateWords { g0: s[2], g1: s[3], g2: s[4], control };
            right_side(h, x, p, 2 * ij + half) ^ gate_part(gate, 2 * ij + half) == if is_true_at(
                p,
                ij,
            ) {
                s[half] ^ x[4 + half]
            } else {
                s[half]
            }
        }),
{
    let row = 2 * ij + half;
    let s = solution(adjusted_rows(h, x, p));
    let gate = GateWords { g0: s[2], g1: s[3], g2: s[4], control };
    lemma_solution(h, x, p, control, row);
    let (q, g, d) = (right_side(h, x, p, row), gate_part(gate, row), x[4 + half]);
    lemma_masks(s[half], g);
    lemma_masks(q, d);
    lemma_masks(s[half] ^ g, d);
    lemma_masks(s[half] ^ d, g);
    assert(row / 2 == ij && row % 2 == half);
    if is_true_at(p, ij) {
        // q ^ d = s ^ g, so q ^ g = s ^ d
        let t = s[half];
        assert(q ^ d == t ^ g);
        lemma_exchange(q, d, t, g);
    }
}

/// Terms of an equation between sums can change sides.
proof fn lemma_exchange(q: u64, d: u64, t: u64, g: u64)
    requires
        q ^ d == t ^ g,
    ensures
        q ^ g == t ^ d,
{
    assert(q ^ g == t ^ d) by (bit_vector)
        requires
            q ^ d == t ^ g,
    ;
}

/// A row of V⁻¹ times eight words.
pub open spec fn inverse_row(q: Seq<u64>, i: int) -> u64 {
    (((((((q[0] & entry(V_INV@[i]@[0])) ^ (q[1] & entry(V_INV@[i]@[1]))) ^ (q[2] & entry(
        V_INV@[i]@[2],
    ))) ^ (q[3] & entry(V_INV@[i]@[3]))) ^ (q[4] & entry(V_INV@[i]@[4]))) ^ (q[5] & entry(
        V_INV@[i]@[5],
    ))) ^ (q[6] & entry(V_INV@[i]@[6]))) ^ (q[7] & entry(V_INV@[i]@[7]))
}

/// The words that the rows of V⁻¹ take up.
proof fn lemma_inverse_terms(
    q0: u64,
    q1: u64,
    q2: u64,
    q3: u64,
    q4: u64,
    q5: u64,
    q6: u64,
    q7: u64,
)
    by (bit_vector)
    ensures
        q0 == (((((((q0 & 0xffff_ffff_ffff_ffffu64) ^ (q1 & 0u64)) ^ (q2 & 0u64)) ^ (q3 & 0u64)) ^ (q4 & 0u64)) ^ (q5 & 0u64)) ^ (q6 & 0u64)) ^ (q7 & 0u64),
        q1 == (((((((q0 & 0u64) ^ (q1 & 0xffff_ffff_ffff_ffffu64)) ^ (q2 & 0u64)) ^ (q3 & 0u64)) ^ (q4 & 0u64)) ^ (q5 & 0u64)) ^ (q6 & 0u64)) ^ (q7 & 0u64),
        ((q0 ^ q1) ^ q4) ^ q5 == (((((((q0 & 0xffff_ffff_ffff_ffffu64) ^ (q1 & 0xffff_ffff_ffff_ffffu64)) ^ (q2 & 0u64)) ^ (q3 & 0u64)) ^ (q4 & 0xffff_ffff_ffff_ffffu64)) ^ (q5 & 0xffff_ffff_ffff_ffffu64)) ^ (q6 & 0u64)) ^ (q7 & 0u64),
        ((q0 ^ q1) ^ q2) ^ q3 == (((((((q0 & 0xffff_ffff_ffff_ffffu64) ^ (q1 & 0xffff_ffff_ffff_ffffu64)) ^ (q2 & 0xffff_ffff_ffff_ffffu64)) ^ (q3 & 0xffff_ffff_ffff_ffffu64)) ^ (q4 & 0u64)) ^ (q5 & 0u64)) ^ (q6 & 0u64)) ^ (q7 & 0u64),
        q4 ^ q6 == (((((((q0 & 0u64) ^ (q1 & 0u64)) ^ (q2 & 0u64)) ^ (q3 & 0u64)) ^ (q4 & 0xffff_ffff_ffff_ffffu64)) ^ (q5 & 0u64)) ^ (q6 & 0xffff_ffff_ffff_ffffu64)) ^ (q7 & 0u64),
{
}

/// The solution of a gate's equations is V⁻¹ times their right-hand side.
pub proof fn lemma_solution_is_v_inv(q: Seq<u64>)
    requires
        q.len() == 8,
    ensures
        solution(q).len() == 5,
        forall|i: int| 0 <= i < 5 ==> #[trigger] solution(q)[i] == inverse_row(q, i),
{
    lemma_inverse_terms(q[0], q[1], q[2], q[3], q[4], q[5], q[6], q[7]);
    assert forall|i: int| 0 <= i < 5 implies #[trigger] solution(q)[i] == inverse_row(q, i) by {
        assert(i == 0 || i == 1 || i == 2 || i == 3 || i == 4);
    }
}

/// The label of each wire is that of its value, and its label W_k has color bit 0.
pub open spec fn wire_ok(w: Wires, active: Seq<Block>, values: Seq<bool>, delta: Block, i: int) -> bool {
    &&& !w.labels[i].low_bit()
    &&& active[i] == w.labels[i].xor(delta.times(values[i] != w.permute[i]))
}

/// Two multiples of the offset add up.
proof fn lemma_offset_twice(x: Block, d: Block, a: bool, b: bool)
    ensures
        x.xor(d.times(a)).xor(d.times(b)) == x.xor(d.times(a != b)),
{
    lemma_xor_times(d, a, b);
    lemma_xor(x, d.times(a), d.times(b));
}

/// An AND gate keeps what holds of the wires.
proof fn lemma_and_wire(
    h: TweakFn,
    w_a: Block,
    w_b: Block,
    p: Choices,
    delta: Block,
    gid: u128,
    u: bool,
    v: bool,
)
    requires
        delta.low_bit(),
        !w_a.low_bit(),
        !w_b.low_bit(),
    ensures
        ({
            let (c, pi_c, gate) = garbled_and(h, w_a, w_b, p, delta, gid);
            let e = evaluated_and(
                h,
                w_a.xor(delta.times(u != p.pi_a)),
                w_b.xor(delta.times(v != p.pi_b)),
                gate,
                gid,
            );
            !c.low_bit() && e == c.xor(delta.times((u && v) != pi_c))
        }),
{
    lemma_and_gate(h, w_a, w_b, p, delta, gid, u != p.pi_a, v != p.pi_b);
    let (c, gate) = solved_and(h, w_a, w_b, p, delta, gid);
    lemma_low_bit(c, delta.times(c.low_bit()));
    lemma_offset_twice(c, delta, c.low_bit(), (u && v) != c.low_bit());
}

/// After the first `n` gates every active label is that of the wire's value.
pub proof fn lemma_wires(
    circ: &Circuit,
    h: TweakFn,
    delta: Block,
    init: Wires,
    data: Seq<u64>,
    active: Seq<Block>,
    values: Seq<bool>,
    n: int,
)
    requires
        circ.wf(),
        delta.low_bit(),
        init.labels.len() == circ.feeds(),
        init.permute.len() == circ.feeds(),
        active.len() == circ.feeds(),
        values.len() == circ.feeds(),
        forall|i: int| 0 <= i < circ.feeds() ==> #[trigger] wire_ok(init, active, values, delta, i),
        0 <= n <= circ.gate_seq().len(),
    ensures
        ({
            let gates = circ.gate_seq();
            let table = garbled_table(h, delta, gates, init, data, gates.len() as int);
            let w = garbled_wires(h, delta, gates, init, data, n);
            let e = evaluated_labels(h, gates, active, table, n);
            let v = wire_values(gates, values, n);
            &&& w.labels.len() == circ.feeds()
            &&& w.permute.len() == circ.feeds()
            &&& e.len() == circ.feeds()
            &&& v.len() == circ.feeds()
            &&& forall|i: int| 0 <= i < circ.feeds() ==> #[trigger] wire_ok(w, e, v, delta, i)
        }),
    decreases n,
{
    let gates = circ.gate_seq();
    if n > 0 {
        lemma_wires(circ, h, delta, init, data, active, values, n - 1);
        circ.lemma_wf();
        assert(gate_ok(circ.input_len(), circ.feeds(), gates, n - 1));
        let table = garbled_table(h, delta, gates, init, data, gates.len() as int);
        let w = garbled_wires(h, delta, gates, init, data, n - 1);
        let e = evaluated_labels(h, gates, active, table, n - 1);
        let v = wire_values(gates, values, n - 1);
        let gate = gates[n - 1];
        let (x, y) = (gate.left(), gate.right());
        assert(wire_ok(w, e, v, delta, x));
        assert(wire_ok(w, e, v, delta, y));
        match gate {
            Gate::Xor { .. } => {
                lemma_low_bit(w.labels[x], w.labels[y]);
                lemma_xor_offset(
                    w.labels[x],
                    w.labels[y],
                    delta,
                    v[x] != w.permute[x],
                    v[y] != w.permute[y],
                );
            },
            Gate::And { .. } => {
                let count = ands(gates, n - 1) as int;
                lemma_and_wire(
                    h,
                    w.labels[x],
                    w.labels[y],
                    choices_at(w.permute[x], w.permute[y], data, count),
                    delta,
                    (1 + count) as u128,
                    v[x],
                    v[y],
                );
                lemma_ands_bound(gates, n, gates.len() as int);
                lemma_table(h, delta, gates, init, data, n - 1, n);
                lemma_table(h, delta, gates, init, data, n, gates.len() as int);
            },
            Gate::Inv { .. } => {},
            Gate::Id { .. } => {},
        }
        let (w1, e1, v1) = (
            garbled_wires(h, delta, gates, init, data, n),
            evaluated_labels(h, gates, active, table, n),
            wire_values(gates, values, n),
        );
        assert forall|i: int| 0 <= i < circ.feeds() implies #[trigger] wire_ok(
            w1,
            e1,
            v1,
            delta,
            i,
        ) by {
            if i != gate.out() {
                assert(wire_ok(w, e, v, delta, i));
            }
        }
    }
}

/// What holds of the wires holds before any gate.
proof fn lemma_start(keys: Seq<Key>, bits: Seq<bool>, delta: Delta, feeds: nat)
    requires
        keys.len() == bits.len(),
        delta.block.low_bit(),
    ensures
        ({
            let w = start_wires(keys, delta.block, feeds);
            let e = with_inputs(mac_blocks(macs_of(keys, bits, delta)), feeds, Block { bits: 0 });
            let v = with_inputs(bits, feeds, false);
            forall|i: int| 0 <= i < feeds ==> #[trigger] wire_ok(w, e, v, delta.block, i)
        }),
{
    let w = start_wires(keys, delta.block, feeds);
    let e = with_inputs(mac_blocks(macs_of(keys, bits, delta)), feeds, Block { bits: 0 });
    let v = with_inputs(bits, feeds, false);
    let zero = Block { bits: 0 };
    lemma_xor(zero, zero, zero);
    lemma_low_bit(zero, zero);
    assert forall|i: int| 0 <= i < feeds implies #[trigger] wire_ok(w, e, v, delta.block, i) by {
        if i < keys.len() {
            let key = keys[i].block;
            let pi = key.low_bit();
            lemma_low_bit(key, delta.block.times(pi));
            lemma_offset_twice(key, delta.block, pi, bits[i] != pi);
        }
    }
}

/// Evaluating a garbled circuit on the MACs of the input bits gives the MACs of the output bits.
///
/// The keys of the outputs are those that the garbler computed; `data` is what it drew at random.
/// The correlation's least significant bit is set.
pub proof fn lemma_garbled_circuit(
    circ: &Circuit,
    h: TweakFn,
    delta: Delta,
    keys: Seq<Key>,
    bits: Seq<bool>,
    data: Seq<u64>,
    out_keys: Seq<Key>,
)
    requires
        circ.wf(),
        delta.block.low_bit(),
        keys.len() == circ.input_len(),
        bits.len() == circ.input_len(),
        key_blocks(out_keys) == output_keys(
            garbled_wires(
                h,
                delta.block,
                circ.gate_seq(),
                start_wires(keys, delta.block, circ.feeds()),
                data,
                circ.gate_seq().len() as int,
            ),
            delta.block,
            circ.out_start(),
            circ.out_end(),
        ),
    ensures
        ({
            let n = circ.gate_seq().len() as int;
            let init = start_wires(keys, delta.block, circ.feeds());
            let active = with_inputs(
                mac_blocks(macs_of(keys, bits, delta)),
                circ.feeds(),
                Block { bits: 0 },
            );
            let table = garbled_table(h, delta.block, circ.gate_seq(), init, data, n);
            evaluated_labels(h, circ.gate_seq(), active, table, n).subrange(
                circ.out_start(),
                circ.out_end(),
            ) == mac_blocks(macs_of(out_keys, circ.outputs_of(bits), delta))
        }),
{
    let n = circ.gate_seq().len() as int;
    let init = start_wires(keys, delta.block, circ.feeds());
    let active = with_inputs(
        mac_blocks(macs_of(keys, bits, delta)),
        circ.feeds(),
        Block { bits: 0 },
    );
    let values = with_inputs(bits, circ.feeds(), false);
    circ.lemma_wf();
    lemma_start(keys, bits, delta, circ.feeds());
    lemma_wires(circ, h, delta.block, init, data, active, values, n);
    let table = garbled_table(h, delta.block, circ.gate_seq(), init, data, n);
    let w = garbled_wires(h, delta.block, circ.gate_seq(), init, data, n);
    let e = evaluated_labels(h, circ.gate_seq(), active, table, n);
    let v = wire_values(circ.gate_seq(), values, n);
    let out = mac_blocks(macs_of(out_keys, circ.outputs_of(bits), delta));
    assert(out_keys.len() == key_blocks(out_keys).len());
    assert forall|i: int| 0 <= i < out.len() implies out[i] == e.subrange(
        circ.out_start(),
        circ.out_end(),
    )[i] by {
        let j = circ.out_start() + i;
        assert(key_blocks(out_keys)[i] == w.labels[j].xor(delta.block.times(w.permute[j])));
        assert(wire_ok(w, e, v, delta.block, j));
        lemma_offset_twice(w.labels[j], delta.block, w.permute[j], v[j]);
    }
    assert(out =~= e.subrange(circ.out_start(), circ.out_end()));
}

/// What the evaluator takes of a batch is what the garbler made for it: an evaluator that holds the
/// encrypted gates up to where the batch starts then holds those up to its end, without padding.
pub proof fn lemma_batch_delivered(table: Seq<GateWords>, done: nat, n: nat)
    requires
        done <= table.len(),
    ensures
        table.take(done as int) + wanted(batch_of(table, done, n), table.len() - done)
            == table.take(if done + n < table.len() {
            (done + n) as int
        } else {
            table.len() as int
        }),
{
    let end = if done + n < table.len() {
        (done + n) as int
    } else {
        table.len() as int
    };
    assert(table.take(done as int) + wanted(batch_of(table, done, n), table.len() - done)
        =~= table.take(end));
}

/// A batch has its full size: its gates are those of the table in order, and behind the last of these
/// every gate of the batch is zero.
pub proof fn lemma_batch_gates(table: Seq<GateWords>, done: nat, n: nat, i: int)
    requires
        0 <= i < n,
    ensures
        batch_of(table, done, n).len() == n,
        ({
            let r = batch_of(table, done, n)[i];
            if done + i < table.len() {
                r == table[done + i]
            } else {
                r.g0 == 0 && r.g1 == 0 && r.g2 == 0 && r.control == 0
            }
        }),
{
}

/// Evaluating a whole circuit with the garbler's table gives the labels of its outputs. Input labels
/// of another number are refused, and so is a table with fewer gates than the circuit has AND gates.
pub proof fn lemma_whole_circuit(
    e: Evaluation,
    h: TweakFn,
    delta: Delta,
    keys: Seq<Key>,
    bits: Seq<bool>,
    data: Seq<u64>,
    out_keys: Seq<Key>,
)
    requires
        e.0.wf(),
        delta.block.low_bit(),
        keys.len() == e.0.input_len(),
        bits.len() == e.0.input_len(),
        key_blocks(out_keys) == output_keys(
            garbled_wires(
                h,
                delta.block,
                e.0.gate_seq(),
                start_wires(keys, delta.block, e.0.feeds()),
                data,
                e.0.gate_seq().len() as int,
            ),
            delta.block,
            e.0.out_start(),
            e.0.out_end(),
        ),
    ensures
        e.1@ == macs_of(keys, bits, delta) && gate_words(e.2.gates@) == garbled_table(
            h,
            delta.block,
            e.0.gate_seq(),
            start_wires(keys, delta.block, e.0.feeds()),
            data,
            e.0.gate_seq().len() as int,
        ) ==> evaluated_circuit(e, h) == Ok::<Seq<Block>, EvaluatorError>(
            mac_blocks(macs_of(out_keys, e.0.outputs_of(bits), delta)),
        ),
        evaluated_circuit(e, h) is Ok <==> e.1@.len() == e.0.input_len() && e.2.gates@.len()
            >= e.0.and_len(),
{
    let circ: &Circuit = &*e.0;
    let init = start_wires(keys, delta.block, circ.feeds());
    let n = circ.gate_seq().len() as int;
    circ.lemma_wf();
    lemma_table(h, delta.block, circ.gate_seq(), init, data, n, n);
    lemma_garbled_circuit(circ, h, delta, keys, bits, data, out_keys);
    assert(gate_words(e.2.gates@).len() == e.2.gates@.len());
}

} // verus!
