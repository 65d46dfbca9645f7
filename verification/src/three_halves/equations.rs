//! The equations that three-halves garbling meets: what each label and ciphertext is made of.

use vstd::arithmetic::power2::pow2;
use vstd::prelude::*;

use crate::block::{lemma_tweaks, lemma_xor, tweak_of, Block};
use crate::circuit::{
    ands, driven, lemma_and_numbers, lemma_driven_once, lemma_gate_wires, Circuit, Gate,
};
use crate::hash::TweakFn;
use crate::three_halves::circuit::{coefficient, GateWords};
use crate::three_halves::control::{
    R_BAR_A, R_BAR_B, R_BAR_DOLLAR_BASIS_0, R_BAR_DOLLAR_BASIS_1,
};
use crate::three_halves::evaluator::evaluated_labels;
use crate::three_halves::garbler::{garbled_table, garbled_wires, lemma_table, Wires};
use crate::three_halves::gate::{
    adjusted_rows, combination, control_of, entry, evaluated_and, gate_part, hash_words, input_part,
    input_words, m_row, masked_sum, r_row, solution, solved_and, Choices,
};
use crate::three_halves::lanes::lemma_masks;
use crate::three_halves::laws::{lemma_control, lemma_solution};
use crate::three_halves::matrices::V;
use crate::three_halves::random_bits::packed_bit;
use crate::three_halves::slicing::{left_of, lemma_split_joined, right_of};

verus! {

/// What the labels and Δ add to a row: the row of R · [A₀; B₀; Δ], and Δ itself where the AND gate
/// is true, which is at the color bits (!π_a, !π_b).
pub open spec fn labels_part(a0: Block, b0: Block, p: Choices, delta: Block, row: int) -> u64 {
    let (i, j) = (row >= 4, row % 4 >= 2);
    let part = masked_sum(input_words(a0, b0, delta), r_row(p, row));
    if i != p.pi_a && j != p.pi_b {
        part ^ (if row % 2 == 0 {
            left_of(delta)
        } else {
            right_of(delta)
        })
    } else {
        part
    }
}

/// The eight equations of an encrypted AND gate. Each gives a half of the label C, plus ciphertexts,
/// as the sum of two hashes under its tweak and of what the labels add.
///
/// The label C belongs to the result 0; `a0` and `b0` are the labels with color bit 0.
pub open spec fn meets_equations(
    h: TweakFn,
    gid: u128,
    a0: Block,
    b0: Block,
    p: Choices,
    delta: Block,
    c: Block,
    gate: GateWords,
) -> bool {
    let t = tweak_of(gid);
    let (a1, b1) = (a0.xor(delta), b0.xor(delta));
    let (ha0, ha1) = (left_of(h(t, a0)), left_of(h(t, a1)));
    let (hb0, hb1) = (left_of(h(t, b0)), left_of(h(t, b1)));
    let (hs0, hs1) = (left_of(h(t, a0.xor(b0))), left_of(h(t, a0.xor(b1))));
    let (l, r) = (left_of(c), right_of(c));
    let (g0, g1, g2) = (gate.g0, gate.g1, gate.g2);
    &&& l == (ha0 ^ hs0) ^ labels_part(a0, b0, p, delta, 0)
    &&& r == (hb0 ^ hs0) ^ labels_part(a0, b0, p, delta, 1)
    &&& l ^ g2 == (ha0 ^ hs1) ^ labels_part(a0, b0, p, delta, 2)
    &&& r ^ (g1 ^ g2) == (hb1 ^ hs1) ^ labels_part(a0, b0, p, delta, 3)
    &&& l ^ (g0 ^ g2) == (ha1 ^ hs1) ^ labels_part(a0, b0, p, delta, 4)
    &&& r ^ g2 == (hb0 ^ hs1) ^ labels_part(a0, b0, p, delta, 5)
    &&& l ^ g0 == (ha1 ^ hs0) ^ labels_part(a0, b0, p, delta, 6)
    &&& r ^ g1 == (hb1 ^ hs0) ^ labels_part(a0, b0, p, delta, 7)
}

/// Sums of six words of which two are taken.
proof fn lemma_two_hashes(h: Seq<u64>)
    ensures
        masked_sum(h, m_row(0)) == h[0] ^ h[4],
        masked_sum(h, m_row(1)) == h[2] ^ h[4],
        masked_sum(h, m_row(2)) == h[0] ^ h[5],
        masked_sum(h, m_row(3)) == h[3] ^ h[5],
        masked_sum(h, m_row(4)) == h[1] ^ h[5],
        masked_sum(h, m_row(5)) == h[2] ^ h[5],
        masked_sum(h, m_row(6)) == h[1] ^ h[4],
        masked_sum(h, m_row(7)) == h[3] ^ h[4],
{
    lemma_masks(h[0], 0);
    lemma_masks(h[1], 0);
    lemma_masks(h[2], 0);
    lemma_masks(h[3], 0);
    lemma_masks(h[4], 0);
    lemma_masks(h[5], 0);
    lemma_masks(0, 0);
    lemma_masks(h[0] ^ h[4], 0);
    lemma_masks(h[1] ^ h[4], 0);
    lemma_masks(h[2] ^ h[4], 0);
    lemma_masks(h[3] ^ h[4], 0);
}

/// The label and the ciphertexts of an AND gate solve its equations.
pub proof fn lemma_gate_equations(
    h: TweakFn,
    a0: Block,
    b0: Block,
    p: Choices,
    delta: Block,
    gid: u128,
)
    ensures
        ({
            let (c, gate) = solved_and(h, a0, b0, p, delta, gid);
            meets_equations(h, gid, a0, b0, p, delta, c, gate)
        }),
{
    let hw = hash_words(h, a0, b0, delta, gid);
    let x = input_words(a0, b0, delta);
    let s = solution(adjusted_rows(hw, x, p));
    let (c, gate) = solved_and(h, a0, b0, p, delta, gid);
    lemma_split_joined(s[0], s[1]);
    lemma_two_hashes(hw);
    lemma_gate_row(hw, x, p, gate, 0);
    lemma_gate_row(hw, x, p, gate, 1);
    lemma_gate_row(hw, x, p, gate, 2);
    lemma_gate_row(hw, x, p, gate, 3);
    lemma_gate_row(hw, x, p, gate, 4);
    lemma_gate_row(hw, x, p, gate, 5);
    lemma_gate_row(hw, x, p, gate, 6);
    lemma_gate_row(hw, x, p, gate, 7);
    lemma_masks(gate.g0, 0);
    lemma_masks(gate.g1, 0);
    lemma_masks(gate.g2, 0);
    lemma_masks(0, 0);
    lemma_masks(s[0], 0);
    lemma_masks(s[1], 0);
    lemma_masks(gate.g1 ^ gate.g2, 0);
}

/// A row, with Δ counted among what the labels add.
proof fn lemma_gate_row(h: Seq<u64>, x: Seq<u64>, p: Choices, gate: GateWords, row: int)
    requires
        0 <= row < 8,
        ({
            let s = solution(adjusted_rows(h, x, p));
            gate.g0 == s[2] && gate.g1 == s[3] && gate.g2 == s[4]
        }),
    ensures
        ({
            let s = solution(adjusted_rows(h, x, p));
            let part = masked_sum(x, r_row(p, row));
            let (i, j) = (row >= 4, row % 4 >= 2);
            s[row % 2] ^ gate_part(gate, row) == masked_sum(h, m_row(row)) ^ (if i != p.pi_a && j
                != p.pi_b {
                part ^ x[4 + row % 2]
            } else {
                part
            })
        }),
{
    lemma_solution(h, x, p, gate.control, row);
    let (m, part, d) = (masked_sum(h, m_row(row)), masked_sum(x, r_row(p, row)), x[4 + row % 2]);
    lemma_associative(m, part, d);
    assert((row / 2 >= 2) == (row >= 4) && ((row / 2) % 2 == 1) == (row % 4 >= 2));
}

proof fn lemma_associative(x: u64, y: u64, z: u64)
    ensures
        (x ^ y) ^ z == x ^ (y ^ z),
{
    assert((x ^ y) ^ z == x ^ (y ^ z)) by (bit_vector);
}

/// What an evaluator computes of an AND gate: the left halves of two hashes under the tweak of the
/// gate, one of the sum of its labels and one of the first label for the left half or of the second
/// one for the right half, plus what its view takes of its labels and the ciphertexts that V has in
/// the row of its color bits.
pub proof fn lemma_evaluated_equations(h: TweakFn, a: Block, b: Block, gate: GateWords, gid: u128)
    ensures
        ({
            let c = evaluated_and(h, a, b, gate, gid);
            let t = tweak_of(gid);
            let (i, j) = (
                if a.low_bit() {
                    1int
                } else {
                    0
                },
                if b.low_bit() {
                    1int
                } else {
                    0
                },
            );
            let ij = 2 * i + j;
            let (c1, c2) = (coefficient(gate.control, ij, 0), coefficient(gate.control, ij, 1));
            let sum = left_of(h(t, a.xor(b)));
            let (v0, v1) = (V@[2 * ij]@, V@[2 * ij + 1]@);
            &&& left_of(c) == ((left_of(h(t, a)) ^ sum) ^ input_part(a, b, c1, c2, ij, 0)) ^ (((
            gate.g0 & entry(v0[2])) ^ (gate.g1 & entry(v0[3]))) ^ (gate.g2 & entry(v0[4])))
            &&& right_of(c) == ((left_of(h(t, b)) ^ sum) ^ input_part(a, b, c1, c2, ij, 1)) ^ (((
            gate.g0 & entry(v1[2])) ^ (gate.g1 & entry(v1[3]))) ^ (gate.g2 & entry(v1[4])))
        }),
{
    let ij = combination(a, b);
    let (c1, c2) = (coefficient(gate.control, ij, 0), coefficient(gate.control, ij, 1));
    let t = tweak_of(gid);
    let sum = left_of(h(t, a.xor(b)));
    let l = ((left_of(h(t, a)) ^ sum) ^ input_part(a, b, c1, c2, ij, 0)) ^ gate_part(gate, 2 * ij);
    let r = ((left_of(h(t, b)) ^ sum) ^ input_part(a, b, c1, c2, ij, 1)) ^ gate_part(
        gate,
        2 * ij + 1,
    );
    lemma_split_joined(l, r);
}

proof fn lemma_wires_stay(
    circ: &Circuit,
    h: TweakFn,
    delta: Block,
    init: Wires,
    data: Seq<u64>,
    n: int,
    m: int,
    wire: int,
)
    requires
        circ.wf(),
        init.labels.len() >= circ.feeds(),
        init.permute.len() >= circ.feeds(),
        0 <= n <= m <= circ.gate_seq().len(),
        driven(circ.input_len(), circ.gate_seq(), n, wire),
        0 <= wire < circ.feeds(),
    ensures
        ({
            let w = garbled_wires(h, delta, circ.gate_seq(), init, data, n);
            let v = garbled_wires(h, delta, circ.gate_seq(), init, data, m);
            v.labels[wire] == w.labels[wire] && v.permute[wire] == w.permute[wire]
        }),
    decreases m,
{
    if n < m {
        lemma_wires_stay(circ, h, delta, init, data, n, m - 1, wire);
        lemma_driven_once(circ, n, m - 1, wire);
        lemma_wires_len(circ, h, delta, init, data, m - 1);
    }
}

proof fn lemma_wires_len(
    circ: &Circuit,
    h: TweakFn,
    delta: Block,
    init: Wires,
    data: Seq<u64>,
    m: int,
)
    requires
        circ.wf(),
        init.labels.len() >= circ.feeds(),
        init.permute.len() >= circ.feeds(),
        m <= circ.gate_seq().len(),
    ensures
        ({
            let w = garbled_wires(h, delta, circ.gate_seq(), init, data, m);
            w.labels.len() == init.labels.len() && w.permute.len() == init.permute.len()
        }),
    decreases m,
{
    if m > 0 {
        lemma_gate_wires(circ, m - 1);
        lemma_wires_len(circ, h, delta, init, data, m - 1);
    }
}

/// The wires of a garbled circuit meet the equations of its gates. AND gate number `c` is hashed
/// under the tweak of its own id `1 + c`, and its control bits take the random bits `2c` and
/// `2c + 1`. The label of its result with permute bit π belongs to C = W ⊕ π·Δ.
pub proof fn lemma_garbled_gates(
    circ: &Circuit,
    h: TweakFn,
    delta: Block,
    init: Wires,
    data: Seq<u64>,
    i: int,
)
    requires
        circ.wf(),
        init.labels.len() >= circ.feeds(),
        init.permute.len() >= circ.feeds(),
        0 <= i < circ.gate_seq().len(),
    ensures
        ({
            let gates = circ.gate_seq();
            let n = gates.len() as int;
            let w = garbled_wires(h, delta, gates, init, data, n);
            let table = garbled_table(h, delta, gates, init, data, n);
            let (l, pi) = (w.labels, w.permute);
            &&& table.len() == circ.and_len()
            &&& forall|k: int|
                0 <= k < circ.input_len() ==> #[trigger] l[k] == init.labels[k] && pi[k]
                    == init.permute[k]
            &&& match gates[i] {
                Gate::Xor { x, y, z } => {
                    &&& l[z as int] == l[x as int].xor(l[y as int])
                    &&& pi[z as int] == (pi[x as int] != pi[y as int])
                },
                Gate::Inv { x, z } => l[z as int] == l[x as int] && pi[z as int] != pi[x as int],
                Gate::Id { x, z } => l[z as int] == l[x as int] && pi[z as int] == pi[x as int],
                Gate::And { x, y, z } => {
                    let c = ands(gates, i) as int;
                    let p = Choices {
                        pi_a: pi[x as int],
                        pi_b: pi[y as int],
                        r0: packed_bit(data, 2 * c),
                        r1: packed_bit(data, 2 * c + 1),
                    };
                    let label = l[z as int].xor(delta.times(pi[z as int]));
                    &&& meets_equations(
                        h,
                        (1 + c) as u128,
                        l[x as int],
                        l[y as int],
                        p,
                        delta,
                        label,
                        table[c],
                    )
                    &&& pi[z as int] == label.low_bit()
                    &&& table[c].control == control_of(p)
                },
            }
        }),
{
    circ.lemma_wf();
    let gates = circ.gate_seq();
    let n = gates.len() as int;
    let gate = gates[i];
    let w = garbled_wires(h, delta, gates, init, data, n);
    lemma_table(h, delta, gates, init, data, n, n);
    assert forall|k: int| 0 <= k < circ.input_len() implies #[trigger] w.labels[k]
        == init.labels[k] && w.permute[k] == init.permute[k] by {
        lemma_wires_stay(circ, h, delta, init, data, 0, n, k);
    }
    lemma_gate_wires(circ, i);
    lemma_wires_stay(circ, h, delta, init, data, i, n, gate.left());
    lemma_wires_stay(circ, h, delta, init, data, i, n, gate.right());
    lemma_wires_stay(circ, h, delta, init, data, i + 1, n, gate.out());
    lemma_wires_len(circ, h, delta, init, data, i);
    if gate is And {
        lemma_and_numbers(gates, i, n);
        lemma_table(h, delta, gates, init, data, i, i);
        lemma_table(h, delta, gates, init, data, i + 1, n);
        let c = ands(gates, i) as int;
        let (a0, b0) = (w.labels[gate.left()], w.labels[gate.right()]);
        let p = Choices {
            pi_a: w.permute[gate.left()],
            pi_b: w.permute[gate.right()],
            r0: packed_bit(data, 2 * c),
            r1: packed_bit(data, 2 * c + 1),
        };
        lemma_gate_equations(h, a0, b0, p, delta, (1 + c) as u128);
        let (label, _) = solved_and(h, a0, b0, p, delta, (1 + c) as u128);
        lemma_xor(label, delta.times(label.low_bit()), delta);
        lemma_xor(label, Block { bits: 0 }, delta);
    }
}

proof fn lemma_active_stays(
    circ: &Circuit,
    h: TweakFn,
    init: Seq<Block>,
    table: Seq<GateWords>,
    n: int,
    m: int,
    wire: int,
)
    requires
        circ.wf(),
        init.len() >= circ.feeds(),
        0 <= n <= m <= circ.gate_seq().len(),
        driven(circ.input_len(), circ.gate_seq(), n, wire),
        0 <= wire < circ.feeds(),
    ensures
        evaluated_labels(h, circ.gate_seq(), init, table, m)[wire] == evaluated_labels(
            h,
            circ.gate_seq(),
            init,
            table,
            n,
        )[wire],
    decreases m,
{
    if n < m {
        lemma_active_stays(circ, h, init, table, n, m - 1, wire);
        lemma_driven_once(circ, n, m - 1, wire);
        lemma_active_len(circ, h, init, table, m - 1);
    }
}

proof fn lemma_active_len(
    circ: &Circuit,
    h: TweakFn,
    init: Seq<Block>,
    table: Seq<GateWords>,
    m: int,
)
    requires
        circ.wf(),
        init.len() >= circ.feeds(),
        m <= circ.gate_seq().len(),
    ensures
        evaluated_labels(h, circ.gate_seq(), init, table, m).len() == init.len(),
    decreases m,
{
    if m > 0 {
        lemma_gate_wires(circ, m - 1);
        lemma_active_len(circ, h, init, table, m - 1);
    }
}

/// The active labels of an evaluated circuit meet the equations of its gates; AND gate number `c`
/// takes the encrypted gate of that number under the id `1 + c`.
pub proof fn lemma_evaluated_gates(
    circ: &Circuit,
    h: TweakFn,
    init: Seq<Block>,
    table: Seq<GateWords>,
    i: int,
)
    requires
        circ.wf(),
        init.len() >= circ.feeds(),
        0 <= i < circ.gate_seq().len(),
    ensures
        ({
            let gates = circ.gate_seq();
            let l = evaluated_labels(h, gates, init, table, gates.len() as int);
            &&& forall|k: int| 0 <= k < circ.input_len() ==> #[trigger] l[k] == init[k]
            &&& match gates[i] {
                Gate::Xor { x, y, z } => l[z as int] == l[x as int].xor(l[y as int]),
                Gate::Inv { x, z } => l[z as int] == l[x as int],
                Gate::Id { x, z } => l[z as int] == l[x as int],
                Gate::And { x, y, z } => {
                    let c = ands(gates, i) as int;
                    l[z as int] == evaluated_and(
                        h,
                        l[x as int],
                        l[y as int],
                        table[c],
                        (1 + c) as u128,
                    )
                },
            }
        }),
{
    circ.lemma_wf();
    let gates = circ.gate_seq();
    let n = gates.len() as int;
    let gate = gates[i];
    let l = evaluated_labels(h, gates, init, table, n);
    assert forall|k: int| 0 <= k < circ.input_len() implies #[trigger] l[k] == init[k] by {
        lemma_active_stays(circ, h, init, table, 0, n, k);
    }
    lemma_gate_wires(circ, i);
    lemma_active_stays(circ, h, init, table, i, n, gate.left());
    lemma_active_stays(circ, h, init, table, i, n, gate.right());
    lemma_active_stays(circ, h, init, table, i + 1, n, gate.out());
    lemma_active_len(circ, h, init, table, i);
}

/// No two AND gates of a circuit are hashed under one tweak.
pub proof fn lemma_tweaks_differ(circ: &Circuit, i: int, j: int)
    requires
        circ.wf(),
        0 <= i < j < circ.gate_seq().len(),
        circ.gate_seq()[i] is And,
        circ.gate_seq()[j] is And,
    ensures
        tweak_of((1 + ands(circ.gate_seq(), i)) as u128) != tweak_of(
            (1 + ands(circ.gate_seq(), j)) as u128,
        ),
{
    circ.lemma_wf();
    let gates = circ.gate_seq();
    lemma_and_numbers(gates, i, j);
    lemma_and_numbers(gates, j, gates.len() as int);
    let (a, b) = ((1 + ands(gates, i)) as u128, (1 + ands(gates, j)) as u128);
    lemma_tweaks(a, b);
}

/// The control bits of a gate: those of the permute bits, plus the random bits times the bases of the
/// random part. So each random bit and each permute bit shows in them.
pub proof fn lemma_control_bits(p: Choices, ij: int, k: int)
    requires
        0 <= ij < 4,
        0 <= k < 2,
    ensures
        coefficient(control_of(p), ij, k) == ((((p.r0 && R_BAR_DOLLAR_BASIS_0@[ij]@[k] == 1) != (
        p.r1 && R_BAR_DOLLAR_BASIS_1@[ij]@[k] == 1)) != (!p.pi_a && R_BAR_A@[ij]@[k] == 1)) != (
        !p.pi_b && R_BAR_B@[ij]@[k] == 1)),
{
    lemma_control(p, ij, k);
}

/// Choices that differ in a random bit have different control bits.
pub proof fn lemma_random_bits_show(p: Choices, q: Choices)
    requires
        p.pi_a == q.pi_a,
        p.pi_b == q.pi_b,
        control_of(p) == control_of(q),
    ensures
        p == q,
{
    lemma_control(p, 0, 0);
    lemma_control(p, 0, 1);
    lemma_control(q, 0, 0);
    lemma_control(q, 0, 1);
    lemma_control(p, 1, 0);
    lemma_control(p, 1, 1);
    lemma_control(q, 1, 0);
    lemma_control(q, 1, 1);
}

/// Random bit `64w + k` is bit `k` of word `w`, counted from the least significant one.
pub proof fn lemma_random_bit(data: Seq<u64>, w: int, k: int)
    requires
        0 <= w < data.len(),
        0 <= k < 64,
    ensures
        packed_bit(data, 64 * w + k) == ((data[w] as nat / pow2(k as nat)) % 2 == 1),
{
    assert((64 * w + k) / 64 == w && (64 * w + k) % 64 == k);
}

} // verus!
