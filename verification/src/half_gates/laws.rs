//! What holds between the garbler and the evaluator of the half-gates scheme.

use vstd::prelude::*;

use crate::block::{
    lemma_low_bit, lemma_tweaks, lemma_xor, lemma_xor_offset, tweak_of, Block,
};
use crate::circuit::{
    ands, driven, gate_ok, lemma_and_numbers, lemma_ands_bound, lemma_driven_once,
    lemma_gate_wires, wire_values, with_inputs, Circuit, EncryptedGate, Gate,
};
use crate::correlated::{key_blocks, mac_blocks, macs_of, Delta, Key, Mac};
use crate::half_gates::evaluator::{
    evaluated_and, evaluated_circuit, evaluated_labels, wanted, EvaluatorError,
};
use crate::half_gates::garbler::{
    batch_of, garbled_and, garbled_labels, garbled_table, gate_id, lemma_table,
};
use crate::hash::TweakFn;

verus! {

/// The rows of a half gate cancel for each value of the operands; the masks stand for bits.
proof fn lemma_rows(
    x: u128,
    d: u128,
    hx: u128,
    hx_1: u128,
    hy: u128,
    hy_1: u128,
    p_a: u128,
    p_b: u128,
    a: u128,
    b: u128,
)
    by (bit_vector)
    ensures
        ((hx ^ (a & (hx ^ hx_1))) ^ ((p_a ^ a) & (hx ^ hx_1 ^ (p_b & d)))) ^ ((hy ^ (b & (hy
            ^ hy_1))) ^ ((p_b ^ b) & ((hy ^ hy_1 ^ x) ^ (x ^ (a & d))))) == ((hx ^ (p_a & (hx ^ hx_1
            ^ (p_b & d)))) ^ (hy ^ (p_b & ((hy ^ hy_1 ^ x) ^ x)))) ^ (a & b & d),
{
}

/// All ones if the bit is set, else zero.
spec fn mask(bit: bool) -> u128 {
    if bit {
        u128::MAX
    } else {
        0
    }
}

/// Masking keeps a value or clears it.
proof fn lemma_mask(x: u128, y: u128)
    ensures
        u128::MAX & x == x,
        0 & x == 0u128,
        x ^ (u128::MAX & (x ^ y)) == y,
        x ^ (0 & (x ^ y)) == x,
        u128::MAX ^ u128::MAX == 0u128,
        u128::MAX ^ 0 == u128::MAX,
        0 ^ u128::MAX == u128::MAX,
        0u128 ^ 0 == 0u128,
        u128::MAX & u128::MAX == u128::MAX,
        u128::MAX & 0 == 0u128,
{
    assert(0xffff_ffff_ffff_ffff_ffff_ffff_ffff_ffffu128 & x == x && 0 & x == 0u128 && x ^ (
    0xffff_ffff_ffff_ffff_ffff_ffff_ffff_ffffu128 & (x ^ y)) == y && x ^ (0 & (x ^ y)) == x
        && 0xffff_ffff_ffff_ffff_ffff_ffff_ffff_ffffu128
        ^ 0xffff_ffff_ffff_ffff_ffff_ffff_ffff_ffffu128 == 0u128
        && 0xffff_ffff_ffff_ffff_ffff_ffff_ffff_ffffu128 ^ 0
        == 0xffff_ffff_ffff_ffff_ffff_ffff_ffff_ffffu128 && 0
        ^ 0xffff_ffff_ffff_ffff_ffff_ffff_ffff_ffffu128
        == 0xffff_ffff_ffff_ffff_ffff_ffff_ffff_ffffu128 && 0u128 ^ 0 == 0u128
        && 0xffff_ffff_ffff_ffff_ffff_ffff_ffff_ffffu128
        & 0xffff_ffff_ffff_ffff_ffff_ffff_ffff_ffffu128
        == 0xffff_ffff_ffff_ffff_ffff_ffff_ffff_ffffu128
        && 0xffff_ffff_ffff_ffff_ffff_ffff_ffff_ffffu128 & 0 == 0u128) by (bit_vector);
}

/// An encrypted AND gate, evaluated on the labels of `a` and `b`, gives the label of `a && b`.
pub proof fn lemma_and_gate(
    h: TweakFn,
    x_0: Block,
    y_0: Block,
    delta: Block,
    gid: u128,
    a: bool,
    b: bool,
)
    requires
        delta.low_bit(),
    ensures
        ({
            let (z_0, gate) = garbled_and(h, x_0, y_0, delta, gid);
            evaluated_and(h, x_0.xor(delta.times(a)), y_0.xor(delta.times(b)), gate, gid)
                == z_0.xor(delta.times(a && b))
        }),
{
    lemma_xor(x_0, y_0, delta);
    lemma_xor(y_0, x_0, delta);
    lemma_low_bit(x_0, delta);
    lemma_low_bit(y_0, delta);
    let j = tweak_of(gid);
    let k = tweak_of((gid + 1) as u128);
    let (x, d) = (x_0.bits, delta.bits);
    let (hx, hx_1) = (h(j, x_0).bits, h(j, x_0.xor(delta)).bits);
    let (hy, hy_1) = (h(k, y_0).bits, h(k, y_0.xor(delta)).bits);
    let (p_a, p_b) = (x_0.low_bit(), y_0.low_bit());
    lemma_rows(x, d, hx, hx_1, hy, hy_1, mask(p_a), mask(p_b), mask(a), mask(b));
    lemma_mask(hx, hx_1);
    lemma_mask(hy, hy_1);
    lemma_mask(d, 0);
    lemma_mask(mask(b), 0);
    lemma_mask(hx ^ hx_1 ^ (mask(p_b) & d), 0);
    lemma_mask((hy ^ hy_1 ^ x) ^ (x ^ (mask(a) & d)), 0);
    lemma_mask((hy ^ hy_1 ^ x) ^ x, 0);
}

/// The rows of an encrypted AND gate and the label of its result, in terms of the hashes.
///
/// The garbler's row holds the hashes of both labels of the left operand under the first tweak, the
/// evaluator's row those of the right operand under the second one. The labels with color bit 0
/// need no row: their hashes add up to a label of the result.
pub proof fn lemma_and_rows(h: TweakFn, x_0: Block, y_0: Block, delta: Block, gid: u128)
    ensures
        ({
            let (z_0, gate) = garbled_and(h, x_0, y_0, delta, gid);
            let (t, u) = (tweak_of(gid), tweak_of((gid + 1) as u128));
            let (p, q) = (x_0.low_bit(), y_0.low_bit());
            &&& gate.garbler_row.xor(delta.times(q)) == h(t, x_0).xor(h(t, x_0.xor(delta)))
            &&& gate.evaluator_row.xor(x_0) == h(u, y_0).xor(h(u, y_0.xor(delta)))
            &&& z_0.xor(delta.times(p && q)) == h(t, x_0.xor(delta.times(p))).xor(
                h(u, y_0.xor(delta.times(q))),
            )
        }),
{
    let (t, u) = (tweak_of(gid), tweak_of((gid + 1) as u128));
    let (p, q) = (x_0.low_bit(), y_0.low_bit());
    let (a, a1) = (h(t, x_0), h(t, x_0.xor(delta)));
    let (b, b1) = (h(u, y_0), h(u, y_0.xor(delta)));
    let zero = Block { bits: 0 };
    lemma_xor(x_0, zero, zero);
    lemma_xor(y_0, zero, zero);
    lemma_xor(a.xor(a1), delta.times(q), zero);
    lemma_xor(b.xor(b1), x_0, zero);
    lemma_undo(a, a1.xor(delta.times(q)));
    lemma_xor(a, a1, delta.times(q));
    lemma_undo(b, b1);
    lemma_xor(a, zero, zero);
    lemma_xor(b, zero, zero);
    lemma_xor(a1, delta.times(q), zero);
    let (wa, wb) = (
        if p {
            a1
        } else {
            a
        },
        if q {
            b1
        } else {
            b
        },
    );
    let d = delta.times(p && q);
    let z_0 = garbled_and(h, x_0, y_0, delta, gid).0;
    lemma_xor(wa, zero, zero);
    assert(z_0 == wa.xor(d).xor(wb));
    lemma_xor(wa, d, wb);
    lemma_xor(d, wb, zero);
    lemma_xor(wa, wb, d);
    lemma_xor(wa.xor(wb), d, zero);
}

/// Adding a block twice undoes it.
proof fn lemma_undo(a: Block, b: Block)
    ensures
        a.xor(a.xor(b)) == b,
{
    lemma_xor(a, a, b);
    lemma_xor(b, a, a);
    lemma_xor(a, b, b);
    lemma_xor(b, Block { bits: 0 }, b);
}

/// What an evaluator computes from an encrypted AND gate: the hash of each operand, each under its
/// tweak, plus the rows that the color bits select.
pub proof fn lemma_and_evaluated(h: TweakFn, x: Block, y: Block, gate: EncryptedGate, gid: u128)
    ensures
        ({
            let (t, u) = (tweak_of(gid), tweak_of((gid + 1) as u128));
            evaluated_and(h, x, y, gate, gid).xor(h(t, x)).xor(h(u, y)) == if x.low_bit() {
                if y.low_bit() {
                    gate.garbler_row.xor(gate.evaluator_row.xor(x))
                } else {
                    gate.garbler_row
                }
            } else if y.low_bit() {
                gate.evaluator_row.xor(x)
            } else {
                Block { bits: 0 }
            }
        }),
{
    let (a, b) = (h(tweak_of(gid), x), h(tweak_of((gid + 1) as u128), y));
    let (g, e) = (
        gate.garbler_row.times(x.low_bit()),
        gate.evaluator_row.xor(x).times(y.low_bit()),
    );
    let zero = Block { bits: 0 };
    // (a + g) + (b + e) + a + b
    let sum = a.xor(g).xor(b.xor(e));
    lemma_xor(a, g, b.xor(e));
    lemma_xor(g, b, e);
    lemma_xor(b, g, e);
    lemma_xor(b, g.xor(e), a);
    lemma_xor(g.xor(e), b, a);
    assert(sum == a.xor(b.xor(g.xor(e))));
    lemma_xor(a, b.xor(g.xor(e)), a);
    lemma_xor(b.xor(g.xor(e)), a, a);
    assert(sum.xor(a) == b.xor(g.xor(e)));
    lemma_xor(b, g.xor(e), b);
    lemma_xor(g.xor(e), b, b);
    assert(sum.xor(a).xor(b) == g.xor(e));
    lemma_xor(gate.garbler_row, zero, zero);
    lemma_xor(zero, gate.evaluator_row.xor(x), zero);
    lemma_xor(zero, zero, zero);
    lemma_xor(gate.evaluator_row.xor(x), zero, zero);
}

/// The label of a wire that is driven stays.
proof fn lemma_label_stays(
    circ: &Circuit,
    h: TweakFn,
    delta: Block,
    init: Seq<Block>,
    first: int,
    n: int,
    m: int,
    wire: int,
)
    requires
        circ.wf(),
        init.len() >= circ.feeds(),
        0 <= n <= m <= circ.gate_seq().len(),
        driven(circ.input_len(), circ.gate_seq(), n, wire),
        0 <= wire < circ.feeds(),
    ensures
        garbled_labels(h, delta, circ.gate_seq(), init, first, m).len() == init.len(),
        garbled_labels(h, delta, circ.gate_seq(), init, first, m)[wire] == garbled_labels(
            h,
            delta,
            circ.gate_seq(),
            init,
            first,
            n,
        )[wire],
    decreases m,
{
    if m > 0 {
        if n < m {
            lemma_label_stays(circ, h, delta, init, first, n, m - 1, wire);
            lemma_driven_once(circ, n, m - 1, wire);
        } else {
            lemma_garbled_len(circ, h, delta, init, first, m);
        }
    }
}

proof fn lemma_garbled_len(
    circ: &Circuit,
    h: TweakFn,
    delta: Block,
    init: Seq<Block>,
    first: int,
    m: int,
)
    requires
        circ.wf(),
        init.len() >= circ.feeds(),
        m <= circ.gate_seq().len(),
    ensures
        garbled_labels(h, delta, circ.gate_seq(), init, first, m).len() == init.len(),
    decreases m,
{
    if m > 0 {
        lemma_gate_wires(circ, m - 1);
        lemma_garbled_len(circ, h, delta, init, first, m - 1);
    }
}

/// The labels of a garbled circuit meet the equations of its gates, and AND gate number `c` is
/// hashed under the tweaks of its own ids `first + 2c` and `first + 2c + 1`.
pub proof fn lemma_garbled_gates(
    circ: &Circuit,
    h: TweakFn,
    delta: Block,
    init: Seq<Block>,
    first: int,
    i: int,
)
    requires
        circ.wf(),
        init.len() >= circ.feeds(),
        0 <= first,
        first + 2 * circ.and_len() <= u128::MAX,
        0 <= i < circ.gate_seq().len(),
    ensures
        ({
            let gates = circ.gate_seq();
            let n = gates.len() as int;
            let l = garbled_labels(h, delta, gates, init, first, n);
            let table = garbled_table(h, delta, gates, init, first, n);
            &&& table.len() == circ.and_len()
            &&& forall|w: int| 0 <= w < circ.input_len() ==> #[trigger] l[w] == init[w]
            &&& match gates[i] {
                Gate::Xor { x, y, z } => l[z as int] == l[x as int].xor(l[y as int]),
                Gate::Inv { x, z } => l[z as int] == l[x as int].xor(delta),
                Gate::Id { x, z } => l[z as int] == l[x as int],
                Gate::And { x, y, z } => {
                    let c = ands(gates, i) as int;
                    let (t, u) = (
                        tweak_of((first + 2 * c) as u128),
                        tweak_of((first + 2 * c + 1) as u128),
                    );
                    let (a, b) = (l[x as int], l[y as int]);
                    let (p, q) = (a.low_bit(), b.low_bit());
                    &&& table[c].garbler_row.xor(delta.times(q)) == h(t, a).xor(
                        h(t, a.xor(delta)),
                    )
                    &&& table[c].evaluator_row.xor(a) == h(u, b).xor(h(u, b.xor(delta)))
                    &&& l[z as int].xor(delta.times(p && q)) == h(t, a.xor(delta.times(p))).xor(
                        h(u, b.xor(delta.times(q))),
                    )
                },
            }
        }),
{
    circ.lemma_wf();
    let gates = circ.gate_seq();
    let n = gates.len() as int;
    let gate = gates[i];
    let l = garbled_labels(h, delta, gates, init, first, n);
    lemma_table(h, delta, gates, init, first, n, n);
    assert forall|w: int| 0 <= w < circ.input_len() implies #[trigger] l[w] == init[w] by {
        lemma_label_stays(circ, h, delta, init, first, 0, n, w);
    }
    lemma_gate_wires(circ, i);
    lemma_label_stays(circ, h, delta, init, first, i, n, gate.left());
    lemma_label_stays(circ, h, delta, init, first, i, n, gate.right());
    lemma_label_stays(circ, h, delta, init, first, i + 1, n, gate.out());
    lemma_garbled_len(circ, h, delta, init, first, i);
    if gate is And {
        lemma_and_numbers(gates, i, n);
        lemma_table(h, delta, gates, init, first, i, i);
        lemma_table(h, delta, gates, init, first, i + 1, n);
        lemma_and_rows(h, l[gate.left()], l[gate.right()], delta, gate_id(gates, first, i));
    }
}

/// The active label of a wire that is driven stays.
proof fn lemma_active_stays(
    circ: &Circuit,
    h: TweakFn,
    init: Seq<Block>,
    first: int,
    table: Seq<EncryptedGate>,
    n: int,
    m: int,
    wire: int,
)
    requires
        circ.wf(),
        init.len() >= circ.feeds(),
        0 <= n <= m <= circ.gate_seq().len(),
        driven(circ.input_len(), circ.gate_seq(), n, wire),
        0 <= wire < circ.feeds(),
    ensures
        evaluated_labels(h, circ.gate_seq(), init, first, table, m)[wire] == evaluated_labels(
            h,
            circ.gate_seq(),
            init,
            first,
            table,
            n,
        )[wire],
    decreases m,
{
    if n < m {
        lemma_active_stays(circ, h, init, first, table, n, m - 1, wire);
        lemma_driven_once(circ, n, m - 1, wire);
        lemma_evaluated_len(circ, h, init, first, table, m - 1);
    }
}

proof fn lemma_evaluated_len(
    circ: &Circuit,
    h: TweakFn,
    init: Seq<Block>,
    first: int,
    table: Seq<EncryptedGate>,
    m: int,
)
    requires
        circ.wf(),
        init.len() >= circ.feeds(),
        m <= circ.gate_seq().len(),
    ensures
        evaluated_labels(h, circ.gate_seq(), init, first, table, m).len() == init.len(),
    decreases m,
{
    if m > 0 {
        lemma_gate_wires(circ, m - 1);
        lemma_evaluated_len(circ, h, init, first, table, m - 1);
    }
}

/// The active labels of an evaluated circuit meet the equations of its gates; AND gate number `c`
/// takes the encrypted gate of that number, and its operands are hashed under the tweaks of the ids
/// `first + 2c` and `first + 2c + 1`.
pub proof fn lemma_evaluated_gates(
    circ: &Circuit,
    h: TweakFn,
    init: Seq<Block>,
    first: int,
    table: Seq<EncryptedGate>,
    i: int,
)
    requires
        circ.wf(),
        init.len() >= circ.feeds(),
        0 <= first,
        first + 2 * circ.and_len() <= u128::MAX,
        0 <= i < circ.gate_seq().len(),
    ensures
        ({
            let gates = circ.gate_seq();
            let l = evaluated_labels(h, gates, init, first, table, gates.len() as int);
            &&& forall|w: int| 0 <= w < circ.input_len() ==> #[trigger] l[w] == init[w]
            &&& match gates[i] {
                Gate::Xor { x, y, z } => l[z as int] == l[x as int].xor(l[y as int]),
                Gate::Inv { x, z } => l[z as int] == l[x as int],
                Gate::Id { x, z } => l[z as int] == l[x as int],
                Gate::And { x, y, z } => {
                    let c = ands(gates, i) as int;
                    let (t, u) = (
                        tweak_of((first + 2 * c) as u128),
                        tweak_of((first + 2 * c + 1) as u128),
                    );
                    let (a, b) = (l[x as int], l[y as int]);
                    l[z as int].xor(h(t, a)).xor(h(u, b)) == if a.low_bit() {
                        if b.low_bit() {
                            table[c].garbler_row.xor(table[c].evaluator_row.xor(a))
                        } else {
                            table[c].garbler_row
                        }
                    } else if b.low_bit() {
                        table[c].evaluator_row.xor(a)
                    } else {
                        Block { bits: 0 }
                    }
                },
            }
        }),
{
    circ.lemma_wf();
    let gates = circ.gate_seq();
    let n = gates.len() as int;
    let gate = gates[i];
    let l = evaluated_labels(h, gates, init, first, table, n);
    assert forall|w: int| 0 <= w < circ.input_len() implies #[trigger] l[w] == init[w] by {
        lemma_active_stays(circ, h, init, first, table, 0, n, w);
    }
    lemma_gate_wires(circ, i);
    lemma_active_stays(circ, h, init, first, table, i, n, gate.left());
    lemma_active_stays(circ, h, init, first, table, i, n, gate.right());
    lemma_active_stays(circ, h, init, first, table, i + 1, n, gate.out());
    lemma_evaluated_len(circ, h, init, first, table, i);
    if gate is And {
        lemma_and_numbers(gates, i, n);
        let c = ands(gates, i) as int;
        lemma_and_evaluated(
            h,
            l[gate.left()],
            l[gate.right()],
            table[c],
            gate_id(gates, first, i),
        );
    }
}

/// After the first `n` gates every active label is that of the wire's value.
pub proof fn lemma_labels(
    circ: &Circuit,
    h: TweakFn,
    delta: Block,
    labels: Seq<Block>,
    active: Seq<Block>,
    values: Seq<bool>,
    first: int,
    table: Seq<EncryptedGate>,
    n: int,
)
    requires
        circ.wf(),
        delta.low_bit(),
        labels.len() == circ.feeds(),
        active.len() == circ.feeds(),
        values.len() == circ.feeds(),
        forall|w: int|
            0 <= w < circ.feeds() ==> #[trigger] active[w] == labels[w].xor(delta.times(values[w])),
        table == garbled_table(
            h,
            delta,
            circ.gate_seq(),
            labels,
            first,
            circ.gate_seq().len() as int,
        ),
        0 <= n <= circ.gate_seq().len(),
    ensures
        ({
            let g = garbled_labels(h, delta, circ.gate_seq(), labels, first, n);
            let e = evaluated_labels(h, circ.gate_seq(), active, first, table, n);
            let v = wire_values(circ.gate_seq(), values, n);
            &&& g.len() == circ.feeds()
            &&& e.len() == circ.feeds()
            &&& v.len() == circ.feeds()
            &&& forall|w: int|
                0 <= w < circ.feeds() ==> #[trigger] e[w] == g[w].xor(delta.times(v[w]))
        }),
    decreases n,
{
    let gates = circ.gate_seq();
    if n > 0 {
        lemma_labels(circ, h, delta, labels, active, values, first, table, n - 1);
        circ.lemma_wf();
        assert(gate_ok(circ.input_len(), circ.feeds(), gates, n - 1));
        let g = garbled_labels(h, delta, gates, labels, first, n - 1);
        let e = evaluated_labels(h, gates, active, first, table, n - 1);
        let v = wire_values(gates, values, n - 1);
        let gate = gates[n - 1];
        let (x, y) = (gate.left(), gate.right());
        assert(e[x] == g[x].xor(delta.times(v[x])));
        assert(e[y] == g[y].xor(delta.times(v[y])));
        match gate {
            Gate::Xor { .. } => {
                lemma_xor_offset(g[x], g[y], delta, v[x], v[y]);
            },
            Gate::And { .. } => {
                let gid = gate_id(gates, first, n - 1);
                lemma_and_gate(h, g[x], g[y], delta, gid, v[x], v[y]);
                lemma_ands_bound(gates, n, gates.len() as int);
                lemma_table(h, delta, gates, labels, first, n - 1, n);
                lemma_table(h, delta, gates, labels, first, n, gates.len() as int);
            },
            Gate::Inv { .. } => {
                lemma_xor(g[x], delta, delta);
                lemma_xor(g[x].xor(delta), delta, delta);
            },
            Gate::Id { .. } => {},
        }
        let (g1, e1, v1) = (
            garbled_labels(h, delta, gates, labels, first, n),
            evaluated_labels(h, gates, active, first, table, n),
            wire_values(gates, values, n),
        );
        assert forall|w: int| 0 <= w < circ.feeds() implies #[trigger] e1[w] == g1[w].xor(
            delta.times(v1[w]),
        ) by {
            if w != gate.out() {
                assert(e1[w] == e[w]);
            }
        }
    }
}

/// The label of each wire before any gate: that of the input's value, zero on other wires.
proof fn lemma_start(
    keys: Seq<Key>,
    bits: Seq<bool>,
    delta: Delta,
    feeds: nat,
)
    requires
        keys.len() == bits.len(),
    ensures
        ({
            let g = with_inputs(key_blocks(keys), feeds, Block { bits: 0 });
            let e = with_inputs(mac_blocks(macs_of(keys, bits, delta)), feeds, Block { bits: 0 });
            let v = with_inputs(bits, feeds, false);
            forall|w: int|
                0 <= w < feeds ==> #[trigger] e[w] == g[w].xor(delta.block.times(v[w]))
        }),
{
    lemma_xor(Block { bits: 0 }, Block { bits: 0 }, Block { bits: 0 });
}

/// Evaluating a garbled circuit on the MACs of the input bits gives the MACs of the output bits.
///
/// The keys of the outputs are those that the garbler computed. The correlation's least
/// significant bit is set.
pub proof fn lemma_garbled_circuit(
    circ: &Circuit,
    h: TweakFn,
    delta: Delta,
    keys: Seq<Key>,
    bits: Seq<bool>,
    first: int,
    output_keys: Seq<Key>,
)
    requires
        circ.wf(),
        delta.block.low_bit(),
        keys.len() == circ.input_len(),
        bits.len() == circ.input_len(),
        key_blocks(output_keys) == garbled_labels(
            h,
            delta.block,
            circ.gate_seq(),
            with_inputs(key_blocks(keys), circ.feeds(), Block { bits: 0 }),
            first,
            circ.gate_seq().len() as int,
        ).subrange(circ.out_start(), circ.out_end()),
    ensures
        ({
            let labels = with_inputs(key_blocks(keys), circ.feeds(), Block { bits: 0 });
            let active = with_inputs(
                mac_blocks(macs_of(keys, bits, delta)),
                circ.feeds(),
                Block { bits: 0 },
            );
            let n = circ.gate_seq().len() as int;
            let table = garbled_table(h, delta.block, circ.gate_seq(), labels, first, n);
            evaluated_labels(h, circ.gate_seq(), active, first, table, n).subrange(
                circ.out_start(),
                circ.out_end(),
            ) == mac_blocks(macs_of(output_keys, circ.outputs_of(bits), delta))
        }),
{
    let labels = with_inputs(key_blocks(keys), circ.feeds(), Block { bits: 0 });
    let active = with_inputs(
        mac_blocks(macs_of(keys, bits, delta)),
        circ.feeds(),
        Block { bits: 0 },
    );
    let values = with_inputs(bits, circ.feeds(), false);
    let n = circ.gate_seq().len() as int;
    let table = garbled_table(h, delta.block, circ.gate_seq(), labels, first, n);
    circ.lemma_wf();
    lemma_start(keys, bits, delta, circ.feeds());
    lemma_labels(circ, h, delta.block, labels, active, values, first, table, n);
    let g = garbled_labels(h, delta.block, circ.gate_seq(), labels, first, n);
    let e = evaluated_labels(h, circ.gate_seq(), active, first, table, n);
    let v = wire_values(circ.gate_seq(), values, n);
    let out = mac_blocks(macs_of(output_keys, circ.outputs_of(bits), delta));
    assert(output_keys.len() == key_blocks(output_keys).len());
    assert forall|i: int| 0 <= i < out.len() implies out[i] == e.subrange(
        circ.out_start(),
        circ.out_end(),
    )[i] by {
        let w = circ.out_start() + i;
        assert(key_blocks(output_keys)[i] == g[w]);
        assert(e[w] == g[w].xor(delta.block.times(v[w])));
    }
    assert(out =~= e.subrange(circ.out_start(), circ.out_end()));
}

/// What the evaluator takes of a batch is what the garbler made for it: an evaluator that holds the
/// encrypted gates up to where the batch starts then holds those up to its end, without padding.
pub proof fn lemma_batch_delivered(table: Seq<EncryptedGate>, done: nat, n: nat)
    requires
        done <= table.len(),
    ensures
        table.take(done as int) + wanted(batch_of(table, done, n), table.len() - done)
            == table.take(if done + n < table.len() {
            (done + n) as int
        } else {
            table.len() as int
        }),
{
    let end = if done + n < table.len() {
        (done + n) as int
    } else {
        table.len() as int
    };
    assert(table.take(done as int) + wanted(batch_of(table, done, n), table.len() - done)
        =~= table.take(end));
}

/// No two hashes of a garbled circuit are under one tweak: the two tweaks of an AND gate differ, and no
/// two AND gates share one.
pub proof fn lemma_tweaks_differ(circ: &Circuit, first: int, i: int, j: int)
    requires
        circ.wf(),
        0 <= first,
        first + 2 * circ.and_len() <= u128::MAX,
        0 <= i < j < circ.gate_seq().len(),
        circ.gate_seq()[i] is And,
        circ.gate_seq()[j] is And,
    ensures
        ({
            let (c, d) = (ands(circ.gate_seq(), i), ands(circ.gate_seq(), j));
            let (t, u) = (
                tweak_of((first + 2 * c) as u128),
                tweak_of((first + 2 * c + 1) as u128),
            );
            let (v, w) = (
                tweak_of((first + 2 * d) as u128),
                tweak_of((first + 2 * d + 1) as u128),
            );
            t != u && t != v && t != w && u != v && u != w
        }),
{
    circ.lemma_wf();
    let gates = circ.gate_seq();
    lemma_and_numbers(gates, i, j);
    lemma_and_numbers(gates, j, gates.len() as int);
    let (c, d) = (ands(gates, i), ands(gates, j));
    let (t, u) = ((first + 2 * c) as u128, (first + 2 * c + 1) as u128);
    let (v, w) = ((first + 2 * d) as u128, (first + 2 * d + 1) as u128);
    lemma_tweaks(t, u);
    lemma_tweaks(t, v);
    lemma_tweaks(t, w);
    lemma_tweaks(u, v);
    lemma_tweaks(u, w);
}

/// A batch has its full size: its gates are those of the table in order, and behind the last of these
/// every gate of the batch is zero.
pub proof fn lemma_batch_gates(table: Seq<EncryptedGate>, done: nat, n: nat, i: int)
    requires
        0 <= i < n,
    ensures
        batch_of(table, done, n).len() == n,
        ({
            let r = batch_of(table, done, n)[i];
            if done + i < table.len() {
                r == table[done + i]
            } else {
                r.garbler_row.bits == 0 && r.evaluator_row.bits == 0
            }
        }),
{
}

/// Evaluating a whole circuit with the garbler's table gives the labels of its outputs. Input labels
/// of another number are refused, and so is a table with fewer gates than the circuit has AND gates.
pub proof fn lemma_whole_circuit(
    circ: &Circuit,
    h: TweakFn,
    delta: Delta,
    keys: Seq<Key>,
    bits: Seq<bool>,
    first: u128,
    output_keys: Seq<Key>,
    macs: Seq<Mac>,
    table: Seq<EncryptedGate>,
    count: nat,
)
    requires
        circ.wf(),
        delta.block.low_bit(),
        keys.len() == circ.input_len(),
        bits.len() == circ.input_len(),
        count >= circ.and_len(),
        key_blocks(output_keys) == garbled_labels(
            h,
            delta.block,
            circ.gate_seq(),
            with_inputs(key_blocks(keys), circ.feeds(), Block { bits: 0 }),
            first as int,
            circ.gate_seq().len() as int,
        ).subrange(circ.out_start(), circ.out_end()),
    ensures
        evaluated_circuit(
            circ,
            macs_of(keys, bits, delta),
            garbled_table(
                h,
                delta.block,
                circ.gate_seq(),
                with_inputs(key_blocks(keys), circ.feeds(), Block { bits: 0 }),
                first as int,
                circ.gate_seq().len() as int,
            ),
            count,
            first,
            h,
        ) == Ok::<Seq<Block>, EvaluatorError>(
            mac_blocks(macs_of(output_keys, circ.outputs_of(bits), delta)),
        ),
        evaluated_circuit(circ, macs, table, count, first, h) is Ok <==> macs.len()
            == circ.input_len() && table.len() >= circ.and_len(),
{
    let labels = with_inputs(key_blocks(keys), circ.feeds(), Block { bits: 0 });
    let n = circ.gate_seq().len() as int;
    circ.lemma_wf();
    lemma_table(h, delta.block, circ.gate_seq(), labels, first as int, n, n);
    lemma_garbled_circuit(circ, h, delta, keys, bits, first as int, output_keys);
}

} // verus!
