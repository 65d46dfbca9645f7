//! The equations that authenticated garbling meets: what each row, label, share and check is made of.

use vstd::prelude::*;

use crate::auth::{check_hash, check_share, derand_bits};
use crate::auth_eval::{auth_evaluated, auth_evaluated_and, eval_sigma, eval_sigmas};
use crate::auth_gen::{
    auth_garbled_and, auth_gate_id, auth_labels, auth_table, gen_sigma, gen_sigmas,
    lemma_auth_table,
};
use crate::auth_laws::lemma_check_share;
use crate::block::{lemma_xor, tweak_of, Block};
use crate::circuit::{
    ands, driven, lemma_and_numbers, lemma_driven_once, lemma_gate_wires, AuthHalfGate, Circuit,
    Gate,
};
use crate::correlated::Delta;
use crate::hash::TweakFn;
use crate::shares::{paired, shared_bit, AuthBitShare, AuthTripleShare};

verus! {

/// The rows of an authenticated AND gate and the label of its result, in terms of the hashes.
///
/// The left row holds the hashes of both labels of the left operand under the first tweak, the right
/// row those of the right operand under the second one; each also holds a share of the other
/// operand's mask. The zero label holds the hashes of both zero labels.
pub proof fn lemma_auth_rows(
    h: TweakFn,
    lx: Block,
    ly: Block,
    sx: AuthBitShare,
    sy: AuthBitShare,
    sz: AuthBitShare,
    ss: AuthBitShare,
    delta: Block,
    gid: u128,
)
    ensures
        ({
            let (gate, lz) = auth_garbled_and(h, lx, ly, sx, sy, sz, ss, delta, gid);
            let (t, u) = (tweak_of(gid), tweak_of((gid + 1) as u128));
            &&& gate.left_row.xor(delta.times(sy.value)).xor(sy.key.block) == h(t, lx).xor(
                h(t, lx.xor(delta)),
            )
            &&& gate.right_row.xor(lx).xor(delta.times(sx.value)).xor(sx.key.block) == h(
                u,
                ly,
            ).xor(h(u, ly.xor(delta)))
            &&& lz.xor(delta.times(ss.value)).xor(ss.key.block).xor(delta.times(sz.value)).xor(
                sz.key.block,
            ) == h(t, lx).xor(h(u, ly))
            &&& gate.mask == lz.low_bit()
        }),
{
    let (t, u) = (tweak_of(gid), tweak_of((gid + 1) as u128));
    let a = h(t, lx).xor(h(t, lx.xor(delta)));
    let b = h(u, ly).xor(h(u, ly.xor(delta)));
    let c = h(t, lx).xor(h(u, ly));
    lemma_xor(a, sy.key.block, a);
    lemma_xor(a.xor(sy.key.block), delta.times(sy.value), a);
    lemma_xor(b, sx.key.block, b);
    let b1 = b.xor(sx.key.block);
    lemma_xor(b1, delta.times(sx.value), b);
    lemma_xor(b1.xor(delta.times(sx.value)), lx, b);
    lemma_xor(c, sz.key.block, c);
    let c1 = c.xor(sz.key.block);
    lemma_xor(c1, delta.times(sz.value), c);
    let c2 = c1.xor(delta.times(sz.value));
    lemma_xor(c2, ss.key.block, c);
    lemma_xor(c2.xor(ss.key.block), delta.times(ss.value), c);
}

/// What an evaluator computes from an authenticated AND gate: the hash of each operand, each under
/// its tweak, its MACs, and the rows that the masked values select.
pub proof fn lemma_auth_evaluated_rows(
    h: TweakFn,
    lx: Block,
    ly: Block,
    sx: AuthBitShare,
    sy: AuthBitShare,
    sz: AuthBitShare,
    ss: AuthBitShare,
    gate: AuthHalfGate,
    za: bool,
    zb: bool,
    gid: u128,
)
    ensures
        ({
            let (lz, zc) = auth_evaluated_and(h, lx, ly, sx, sy, sz, ss, gate, za, zb, gid);
            let (t, u) = (tweak_of(gid), tweak_of((gid + 1) as u128));
            let row_y = gate.right_row.xor(sx.mac.block).xor(lx).times(zb);
            let row_x = gate.left_row.xor(sy.mac.block).times(za);
            &&& lz.xor(row_y).xor(row_x).xor(ss.mac.block).xor(sz.mac.block) == h(t, lx).xor(
                h(u, ly),
            )
            &&& zc == (lz.low_bit() != gate.mask)
        }),
{
    let (t, u) = (tweak_of(gid), tweak_of((gid + 1) as u128));
    let c = h(t, lx).xor(h(u, ly));
    let row_y = gate.right_row.xor(sx.mac.block).xor(lx).times(zb);
    let row_x = gate.left_row.xor(sy.mac.block).times(za);
    lemma_xor(c, sz.mac.block, c);
    let c1 = c.xor(sz.mac.block);
    lemma_xor(c1, ss.mac.block, c);
    let c2 = c1.xor(ss.mac.block);
    lemma_xor(c2, row_x, c);
    lemma_xor(c2.xor(row_x), row_y, c);
}

proof fn lemma_labels_stay(
    circ: &Circuit,
    h: TweakFn,
    delta: Block,
    bits: Seq<AuthBitShare>,
    sigmas: Seq<AuthBitShare>,
    init: Seq<Block>,
    n: int,
    m: int,
    wire: int,
)
    requires
        circ.wf(),
        init.len() >= circ.feeds(),
        0 <= n <= m <= circ.gate_seq().len(),
        driven(circ.input_len(), circ.gate_seq(), n, wire),
        0 <= wire < circ.feeds(),
    ensures
        auth_labels(h, delta, circ.gate_seq(), bits, sigmas, init, m)[wire] == auth_labels(
            h,
            delta,
            circ.gate_seq(),
            bits,
            sigmas,
            init,
            n,
        )[wire],
    decreases m,
{
    if n < m {
        lemma_labels_stay(circ, h, delta, bits, sigmas, init, n, m - 1, wire);
        lemma_driven_once(circ, n, m - 1, wire);
        lemma_labels_len(circ, h, delta, bits, sigmas, init, m - 1);
    }
}

proof fn lemma_labels_len(
    circ: &Circuit,
    h: TweakFn,
    delta: Block,
    bits: Seq<AuthBitShare>,
    sigmas: Seq<AuthBitShare>,
    init: Seq<Block>,
    m: int,
)
    requires
        circ.wf(),
        init.len() >= circ.feeds(),
        m <= circ.gate_seq().len(),
    ensures
        auth_labels(h, delta, circ.gate_seq(), bits, sigmas, init, m).len() == init.len(),
    decreases m,
{
    if m > 0 {
        lemma_gate_wires(circ, m - 1);
        lemma_labels_len(circ, h, delta, bits, sigmas, init, m - 1);
    }
}

/// The labels of a circuit that was garbled with authentication meet the equations of its gates, and
/// AND gate number `c` is hashed under the tweaks of its own ids `1 + 2c` and `2 + 2c`.
pub proof fn lemma_auth_garbled_gates(
    circ: &Circuit,
    h: TweakFn,
    delta: Block,
    bits: Seq<AuthBitShare>,
    sigmas: Seq<AuthBitShare>,
    init: Seq<Block>,
    i: int,
)
    requires
        circ.wf(),
        init.len() >= circ.feeds(),
        0 <= i < circ.gate_seq().len(),
    ensures
        ({
            let gates = circ.gate_seq();
            let n = gates.len() as int;
            let l = auth_labels(h, delta, gates, bits, sigmas, init, n);
            let table = auth_table(h, delta, gates, bits, sigmas, init, n);
            &&& table.len() == circ.and_len()
            &&& forall|w: int| 0 <= w < circ.input_len() ==> #[trigger] l[w] == init[w]
            &&& match gates[i] {
                Gate::Xor { x, y, z } => l[z as int] == l[x as int].xor(l[y as int]),
                Gate::Inv { x, z } => l[z as int] == l[x as int].xor(delta),
                Gate::Id { x, z } => l[z as int] == l[x as int],
                Gate::And { x, y, z } => {
                    let c = ands(gates, i) as int;
                    let (t, u) = (tweak_of((1 + 2 * c) as u128), tweak_of((2 + 2 * c) as u128));
                    let (lx, ly, lz) = (l[x as int], l[y as int], l[z as int]);
                    let (sx, sy, sz) = (bits[x as int], bits[y as int], bits[z as int]);
                    let ss = sigmas[c];
                    &&& table[c].left_row.xor(delta.times(sy.value)).xor(sy.key.block) == h(
                        t,
                        lx,
                    ).xor(h(t, lx.xor(delta)))
                    &&& table[c].right_row.xor(lx).xor(delta.times(sx.value)).xor(sx.key.block)
                        == h(u, ly).xor(h(u, ly.xor(delta)))
                    &&& lz.xor(delta.times(ss.value)).xor(ss.key.block).xor(
                        delta.times(sz.value),
                    ).xor(sz.key.block) == h(t, lx).xor(h(u, ly))
                    &&& table[c].mask == lz.low_bit()
                },
            }
        }),
{
    circ.lemma_wf();
    let gates = circ.gate_seq();
    let n = gates.len() as int;
    let gate = gates[i];
    let l = auth_labels(h, delta, gates, bits, sigmas, init, n);
    lemma_auth_table(h, delta, gates, bits, sigmas, init, n, n);
    assert forall|w: int| 0 <= w < circ.input_len() implies #[trigger] l[w] == init[w] by {
        lemma_labels_stay(circ, h, delta, bits, sigmas, init, 0, n, w);
    }
    lemma_gate_wires(circ, i);
    lemma_labels_stay(circ, h, delta, bits, sigmas, init, i, n, gate.left());
    lemma_labels_stay(circ, h, delta, bits, sigmas, init, i, n, gate.right());
    lemma_labels_stay(circ, h, delta, bits, sigmas, init, i + 1, n, gate.out());
    lemma_labels_len(circ, h, delta, bits, sigmas, init, i);
    if gate is And {
        lemma_and_numbers(gates, i, n);
        lemma_auth_table(h, delta, gates, bits, sigmas, init, i, i);
        lemma_auth_table(h, delta, gates, bits, sigmas, init, i + 1, n);
        lemma_auth_rows(
            h,
            l[gate.left()],
            l[gate.right()],
            bits[gate.left()],
            bits[gate.right()],
            bits[gate.out()],
            sigmas[ands(gates, i) as int],
            delta,
            auth_gate_id(gates, i),
        );
    }
}

proof fn lemma_evaluated_stays(
    circ: &Circuit,
    h: TweakFn,
    bits: Seq<AuthBitShare>,
    sigmas: Seq<AuthBitShare>,
    table: Seq<AuthHalfGate>,
    labels: Seq<Block>,
    masked: Seq<bool>,
    n: int,
    m: int,
    wire: int,
)
    requires
        circ.wf(),
        labels.len() >= circ.feeds(),
        masked.len() >= circ.feeds(),
        0 <= n <= m <= circ.gate_seq().len(),
        driven(circ.input_len(), circ.gate_seq(), n, wire),
        0 <= wire < circ.feeds(),
    ensures
        ({
            let gates = circ.gate_seq();
            let (l, v) = auth_evaluated(h, gates, bits, sigmas, table, labels, masked, n);
            let (l2, v2) = auth_evaluated(h, gates, bits, sigmas, table, labels, masked, m);
            l2[wire] == l[wire] && v2[wire] == v[wire]
        }),
    decreases m,
{
    if n < m {
        lemma_evaluated_stays(circ, h, bits, sigmas, table, labels, masked, n, m - 1, wire);
        lemma_driven_once(circ, n, m - 1, wire);
        lemma_state_len(circ, h, bits, sigmas, table, labels, masked, m - 1);
    }
}

proof fn lemma_state_len(
    circ: &Circuit,
    h: TweakFn,
    bits: Seq<AuthBitShare>,
    sigmas: Seq<AuthBitShare>,
    table: Seq<AuthHalfGate>,
    labels: Seq<Block>,
    masked: Seq<bool>,
    m: int,
)
    requires
        circ.wf(),
        labels.len() >= circ.feeds(),
        masked.len() >= circ.feeds(),
        m <= circ.gate_seq().len(),
    ensures
        ({
            let gates = circ.gate_seq();
            let (l, v) = auth_evaluated(h, gates, bits, sigmas, table, labels, masked, m);
            l.len() == labels.len() && v.len() == masked.len()
        }),
    decreases m,
{
    if m > 0 {
        lemma_gate_wires(circ, m - 1);
        lemma_state_len(circ, h, bits, sigmas, table, labels, masked, m - 1);
    }
}

/// The active labels and masked values of a circuit that was evaluated with authentication meet the
/// equations of its gates; AND gate number `c` takes the encrypted gate of that number, and its
/// operands are hashed under the tweaks of the ids `1 + 2c` and `2 + 2c`.
pub proof fn lemma_auth_evaluated_gates(
    circ: &Circuit,
    h: TweakFn,
    bits: Seq<AuthBitShare>,
    sigmas: Seq<AuthBitShare>,
    table: Seq<AuthHalfGate>,
    labels: Seq<Block>,
    masked: Seq<bool>,
    i: int,
)
    requires
        circ.wf(),
        labels.len() >= circ.feeds(),
        masked.len() >= circ.feeds(),
        0 <= i < circ.gate_seq().len(),
    ensures
        ({
            let gates = circ.gate_seq();
            let n = gates.len() as int;
            let (l, v) = auth_evaluated(h, gates, bits, sigmas, table, labels, masked, n);
            &&& forall|w: int|
                0 <= w < circ.input_len() ==> #[trigger] l[w] == labels[w] && v[w] == masked[w]
            &&& match gates[i] {
                Gate::Xor { x, y, z } => {
                    &&& l[z as int] == l[x as int].xor(l[y as int])
                    &&& v[z as int] == (v[x as int] != v[y as int])
                },
                Gate::Inv { x, z } => l[z as int] == l[x as int] && v[z as int] != v[x as int],
                Gate::Id { x, z } => l[z as int] == l[x as int] && v[z as int] == v[x as int],
                Gate::And { x, y, z } => {
                    let c = ands(gates, i) as int;
                    let (t, u) = (tweak_of((1 + 2 * c) as u128), tweak_of((2 + 2 * c) as u128));
                    let (lx, ly, lz) = (l[x as int], l[y as int], l[z as int]);
                    let row_y = table[c].right_row.xor(bits[x as int].mac.block).xor(lx).times(
                        v[y as int],
                    );
                    let row_x = table[c].left_row.xor(bits[y as int].mac.block).times(
                        v[x as int],
                    );
                    &&& lz.xor(row_y).xor(row_x).xor(sigmas[c].mac.block).xor(
                        bits[z as int].mac.block,
                    ) == h(t, lx).xor(h(u, ly))
                    &&& v[z as int] == (lz.low_bit() != table[c].mask)
                },
            }
        }),
{
    circ.lemma_wf();
    let gates = circ.gate_seq();
    let n = gates.len() as int;
    let gate = gates[i];
    let (l, v) = auth_evaluated(h, gates, bits, sigmas, table, labels, masked, n);
    assert forall|w: int| 0 <= w < circ.input_len() implies #[trigger] l[w] == labels[w] && v[w]
        == masked[w] by {
        lemma_evaluated_stays(circ, h, bits, sigmas, table, labels, masked, 0, n, w);
    }
    lemma_gate_wires(circ, i);
    lemma_evaluated_stays(circ, h, bits, sigmas, table, labels, masked, i, n, gate.left());
    lemma_evaluated_stays(circ, h, bits, sigmas, table, labels, masked, i, n, gate.right());
    lemma_evaluated_stays(circ, h, bits, sigmas, table, labels, masked, i + 1, n, gate.out());
    lemma_state_len(circ, h, bits, sigmas, table, labels, masked, i);
    if gate is And {
        lemma_and_numbers(gates, i, n);
        let c = ands(gates, i) as int;
        lemma_auth_evaluated_rows(
            h,
            l[gate.left()],
            l[gate.right()],
            bits[gate.left()],
            bits[gate.right()],
            bits[gate.out()],
            sigmas[c],
            table[c],
            v[gate.left()],
            v[gate.right()],
            auth_gate_id(gates, i),
        );
    }
}

/// What the parties' shares of a product of masks are made of: the product of the triple, its other
/// component where a mask differs from the triple, and one more where both do.
pub proof fn lemma_sigma_parts(t: AuthTripleShare, px: bool, py: bool, delta: Block)
    ensures
        ({
            let (g, e) = (gen_sigma(t, px, py, delta), eval_sigma(t, px, py));
            let value = (t.z.value != (px && t.y.value)) != (py && t.x.value);
            let key = t.z.key.block.xor(t.y.key.block.times(px)).xor(t.x.key.block.times(py));
            let mac = t.z.mac.block.xor(t.y.mac.block.times(px)).xor(t.x.mac.block.times(py));
            &&& g.value == value && e.value == (value != (px && py))
            &&& g.mac.block == mac && e.mac.block == mac
            &&& g.key.block == key.xor(delta.times(px && py)) && e.key.block == key
        }),
{
    let (k, m) = (t.z.key.block, t.z.mac.block);
    lemma_xor(k, k, k);
    lemma_xor(m, m, m);
    let (k1, m1) = (k.xor(t.y.key.block.times(px)), m.xor(t.y.mac.block.times(px)));
    lemma_xor(k1, k, k);
    lemma_xor(m1, m, m);
    lemma_xor(k1.xor(t.x.key.block.times(py)), k, k);
}

/// What the parties send for AND gate `i` and what they make of it: the masks of the operands, each
/// plus a component of the triple of the same number, and shares of the product for the sums of
/// what both sent.
pub proof fn lemma_derandomized(
    gates: Seq<Gate>,
    bits: Seq<AuthBitShare>,
    triples: Seq<AuthTripleShare>,
    px: Seq<bool>,
    py: Seq<bool>,
    delta: Block,
    i: int,
    n: int,
)
    requires
        0 <= i < n <= gates.len(),
        gates[i] is And,
    ensures
        ({
            let c = ands(gates, i) as int;
            let (x, y, t) = (gates[i].left(), gates[i].right(), triples[c]);
            let (dx, dy) = derand_bits(bits, triples, gates, n);
            let g = gen_sigmas(bits, triples, px, py, delta, gates, n);
            let e = eval_sigmas(bits, triples, px, py, gates, n);
            &&& dx.len() == ands(gates, n) && dy.len() == ands(gates, n)
            &&& g.len() == ands(gates, n) && e.len() == ands(gates, n)
            &&& dx[c] == (bits[x].value != t.x.value)
            &&& dy[c] == (bits[y].value != t.y.value)
            &&& g[c] == gen_sigma(t, dx[c] != px[c], dy[c] != py[c], delta)
            &&& e[c] == eval_sigma(t, dx[c] != px[c], dy[c] != py[c])
        }),
    decreases n,
{
    lemma_derand_len(gates, bits, triples, px, py, delta, n - 1);
    lemma_derand_len(gates, bits, triples, px, py, delta, n);
    if i < n - 1 {
        lemma_derandomized(gates, bits, triples, px, py, delta, i, n - 1);
        lemma_and_numbers(gates, i, n - 1);
    }
}

proof fn lemma_derand_len(
    gates: Seq<Gate>,
    bits: Seq<AuthBitShare>,
    triples: Seq<AuthTripleShare>,
    px: Seq<bool>,
    py: Seq<bool>,
    delta: Block,
    n: int,
)
    ensures
        derand_bits(bits, triples, gates, n).0.len() == ands(gates, n),
        derand_bits(bits, triples, gates, n).1.len() == ands(gates, n),
        gen_sigmas(bits, triples, px, py, delta, gates, n).len() == ands(gates, n),
        eval_sigmas(bits, triples, px, py, gates, n).len() == ands(gates, n),
    decreases n,
{
    if n > 0 {
        lemma_derand_len(gates, bits, triples, px, py, delta, n - 1);
    }
}

/// A gate adds to the check hash: an AND gate the hash of its check value under the tweak of its
/// number, another gate nothing. The check value holds what the party adds to the opened sum of the
/// product, of the result's mask and of the masks that the masked values select, and its
/// correlation if the masked result is not the product of the masked operands.
pub proof fn lemma_check_hash_step(
    h: TweakFn,
    gates: Seq<Gate>,
    sigmas: Seq<AuthBitShare>,
    bits: Seq<AuthBitShare>,
    masked: Seq<bool>,
    delta: Block,
    i: int,
)
    requires
        0 <= i < gates.len(),
    ensures
        check_hash(h, gates, sigmas, bits, masked, delta, 0) == (Block { bits: 0 }),
        ({
            let before = check_hash(h, gates, sigmas, bits, masked, delta, i);
            let after = check_hash(h, gates, sigmas, bits, masked, delta, i + 1);
            match gates[i] {
                Gate::And { x, y, z } => {
                    let c = ands(gates, i) as int;
                    let (x, y, z) = (x as int, y as int, z as int);
                    let value = sigmas[c].opening(delta).xor(bits[z].opening(delta)).xor(
                        bits[y].opening(delta).times(masked[x]),
                    ).xor(bits[x].opening(delta).times(masked[y])).xor(
                        delta.times((masked[x] && masked[y]) != masked[z]),
                    );
                    after.xor(before) == h(tweak_of(c as u128), value)
                },
                _ => after == before,
            }
        }),
{
    let before = check_hash(h, gates, sigmas, bits, masked, delta, i);
    let after = check_hash(h, gates, sigmas, bits, masked, delta, i + 1);
    if gates[i] is And {
        let (x, y, z) = (gates[i].left(), gates[i].right(), gates[i].out());
        let c = ands(gates, i) as int;
        let v = h(
            tweak_of(c as u128),
            check_share(
                sigmas[c],
                bits[z],
                bits[x],
                bits[y],
                masked[x],
                masked[y],
                masked[z],
                delta,
            ),
        );
        lemma_xor(before, v, before);
        lemma_xor(v, before, before);
    }
}

/// The shares of AND gate `i` authenticate each other, and those of the product add up to the
/// product of the operands' masks.
pub open spec fn gate_shared(
    gates: Seq<Gate>,
    gens: (Seq<AuthBitShare>, Seq<AuthBitShare>),
    evals: (Seq<AuthBitShare>, Seq<AuthBitShare>),
    delta_a: Delta,
    delta_b: Delta,
    i: int,
) -> bool {
    let (x, y, z, c) = (gates[i].left(), gates[i].right(), gates[i].out(), ands(gates, i) as int);
    &&& paired(gens.0[x], evals.0[x], delta_a, delta_b)
    &&& paired(gens.0[y], evals.0[y], delta_a, delta_b)
    &&& paired(gens.0[z], evals.0[z], delta_a, delta_b)
    &&& paired(gens.1[c], evals.1[c], delta_a, delta_b)
    &&& shared_bit(gens.1[c], evals.1[c]) == (shared_bit(gens.0[x], evals.0[x]) && shared_bit(
        gens.0[y],
        evals.0[y],
    ))
}

/// The masked value of AND gate `i` is the product of its operands' values plus its mask.
pub open spec fn gate_right(
    gates: Seq<Gate>,
    gens: Seq<AuthBitShare>,
    evals: Seq<AuthBitShare>,
    masked: Seq<bool>,
    i: int,
) -> bool {
    let (x, y, z) = (gates[i].left(), gates[i].right(), gates[i].out());
    masked[z] == (((masked[x] != shared_bit(gens[x], evals[x])) && (masked[y] != shared_bit(
        gens[y],
        evals[y],
    ))) != shared_bit(gens[z], evals[z]))
}

/// A wrong masked value shows in the check hashes. If AND gate `bad` is the only one whose masked
/// value is wrong, the parties' hashes differ by the hashes, under that gate's tweak, of two values
/// that differ by the sum of the correlations. If all masked values are right, the hashes agree.
///
/// `gens` and `evals` hold the shares of the wires and those of the products.
pub proof fn lemma_wrong_value_shows(
    h: TweakFn,
    gates: Seq<Gate>,
    gens: (Seq<AuthBitShare>, Seq<AuthBitShare>),
    evals: (Seq<AuthBitShare>, Seq<AuthBitShare>),
    masked: Seq<bool>,
    delta_a: Delta,
    delta_b: Delta,
    bad: int,
    n: int,
)
    requires
        0 <= n <= gates.len(),
        0 <= bad < gates.len() && gates[bad] is And,
        !gate_right(gates, gens.0, evals.0, masked, bad),
        forall|i: int|
            0 <= i < n && gates[i] is And ==> #[trigger] gate_shared(
                gates,
                gens,
                evals,
                delta_a,
                delta_b,
                i,
            ),
        forall|i: int|
            0 <= i < n && gates[i] is And && i != bad ==> #[trigger] gate_right(
                gates,
                gens.0,
                evals.0,
                masked,
                i,
            ),
    ensures
        ({
            let (da, db) = (delta_a.block, delta_b.block);
            let g = check_hash(h, gates, gens.1, gens.0, masked, da, n);
            let e = check_hash(h, gates, evals.1, evals.0, masked, db, n);
            let t = tweak_of(ands(gates, bad) as u128);
            if bad < n {
                exists|v: Block| g.xor(e) == #[trigger] h(t, v).xor(h(t, v.xor(da.xor(db))))
            } else {
                g == e
            }
        }),
    decreases n,
{
    let (da, db) = (delta_a.block, delta_b.block);
    if n > 0 {
        lemma_wrong_value_shows(
            h,
            gates,
            gens,
            evals,
            masked,
            delta_a,
            delta_b,
            bad,
            n - 1,
        );
        let g = check_hash(h, gates, gens.1, gens.0, masked, da, n - 1);
        let e = check_hash(h, gates, evals.1, evals.0, masked, db, n - 1);
        let i = n - 1;
        if gates[i] is And {
            let (x, y, z) = (gates[i].left(), gates[i].right(), gates[i].out());
            let c = ands(gates, i) as int;
            assert(gate_shared(gates, gens, evals, delta_a, delta_b, i));
            lemma_check_share(
                (gens.0[x], gens.0[y], gens.0[z], gens.1[c]),
                (evals.0[x], evals.0[y], evals.0[z], evals.1[c]),
                masked[x],
                masked[y],
                masked[z],
                delta_a,
                delta_b,
            );
            let vg = check_share(
                gens.1[c],
                gens.0[z],
                gens.0[x],
                gens.0[y],
                masked[x],
                masked[y],
                masked[z],
                da,
            );
            let ve = check_share(
                evals.1[c],
                evals.0[z],
                evals.0[x],
                evals.0[y],
                masked[x],
                masked[y],
                masked[z],
                db,
            );
            let t = tweak_of(c as u128);
            let d = da.xor(db);
            lemma_xor(vg, ve, vg);
            lemma_xor(ve, vg, vg);
            lemma_xor(vg, vg, ve);
            lemma_xor(ve, vg, vg);
            lemma_xor(vg.xor(vg), ve, ve);
            lemma_xor(ve, Block { bits: 0 }, ve);
            lemma_xor(Block { bits: 0 }, ve, ve);
            assert(ve == vg.xor(vg.xor(ve)));
            lemma_xor(vg, Block { bits: 0 }, vg);
            if i != bad {
                assert(gate_right(gates, gens.0, evals.0, masked, i));
                assert(ve == vg);
                lemma_four(g, h(t, vg), e);
            } else {
                assert(ve == vg.xor(d));
                assert(g == e);
                let (a, b) = (h(t, vg), h(t, ve));
                lemma_same_base(g, a, b);
                assert(g.xor(a).xor(g.xor(b)) == h(t, vg).xor(h(t, vg.xor(d))));
            }
        }
    }
}

/// Adding one block to two changes nothing between them.
proof fn lemma_four(a: Block, v: Block, b: Block)
    ensures
        a.xor(v).xor(b.xor(v)) == a.xor(b),
        a == b ==> a.xor(v) == b.xor(v),
{
    lemma_xor(a, v, b.xor(v));
    lemma_xor(b, v, v);
    lemma_xor(v, b.xor(v), v);
    lemma_xor(b.xor(v), v, v);
}

proof fn lemma_same_base(g: Block, a: Block, b: Block)
    ensures
        g.xor(a).xor(g.xor(b)) == a.xor(b),
{
    lemma_xor(g, a, b);
    lemma_xor(g, b, a);
    lemma_four(a, g, b);
}

/// A wrong masked value makes the check fail: under a hash that takes different values to different
/// values, the parties' hashes are not equal if one masked value is wrong.
pub proof fn lemma_check_fails(
    h: TweakFn,
    gates: Seq<Gate>,
    gens: (Seq<AuthBitShare>, Seq<AuthBitShare>),
    evals: (Seq<AuthBitShare>, Seq<AuthBitShare>),
    masked: Seq<bool>,
    delta_a: Delta,
    delta_b: Delta,
    bad: int,
)
    requires
        0 <= bad < gates.len() && gates[bad] is And,
        !gate_right(gates, gens.0, evals.0, masked, bad),
        delta_a.block != delta_b.block,
        forall|v: Block, w: Block|
            #[trigger] h(tweak_of(ands(gates, bad) as u128), v) == #[trigger] h(
                tweak_of(ands(gates, bad) as u128),
                w,
            ) ==> v == w,
        forall|i: int|
            0 <= i < gates.len() && gates[i] is And ==> #[trigger] gate_shared(
                gates,
                gens,
                evals,
                delta_a,
                delta_b,
                i,
            ),
        forall|i: int|
            0 <= i < gates.len() && gates[i] is And && i != bad ==> #[trigger] gate_right(
                gates,
                gens.0,
                evals.0,
                masked,
                i,
            ),
    ensures
        ({
            let n = gates.len() as int;
            check_hash(h, gates, gens.1, gens.0, masked, delta_a.block, n) != check_hash(
                h,
                gates,
                evals.1,
                evals.0,
                masked,
                delta_b.block,
                n,
            )
        }),
{
    let n = gates.len() as int;
    let (da, db) = (delta_a.block, delta_b.block);
    let g = check_hash(h, gates, gens.1, gens.0, masked, da, n);
    let e = check_hash(h, gates, evals.1, evals.0, masked, db, n);
    let t = tweak_of(ands(gates, bad) as u128);
    lemma_wrong_value_shows(h, gates, gens, evals, masked, delta_a, delta_b, bad, n);
    let v = choose|v: Block| g.xor(e) == #[trigger] h(t, v).xor(h(t, v.xor(da.xor(db))));
    let w = v.xor(da.xor(db));
    if g == e {
        lemma_xor(g, g, g);
        lemma_equal(h(t, v), h(t, w));
        assert(v == w);
        lemma_undo(v, da.xor(db));
        lemma_xor(v, v, v);
        lemma_equal(da, db);
    }
}

/// Blocks whose sum is zero are equal.
proof fn lemma_equal(a: Block, b: Block)
    ensures
        a.xor(b) == (Block { bits: 0 }) ==> a == b,
{
    lemma_xor(a, b, b);
    lemma_xor(Block { bits: 0 }, b, b);
    lemma_xor(b, Block { bits: 0 }, b);
}

proof fn lemma_undo(v: Block, d: Block)
    ensures
        v.xor(v.xor(d)) == d,
{
    lemma_xor(v, v, d);
    lemma_xor(d, Block { bits: 0 }, d);
    lemma_xor(Block { bits: 0 }, d, d);
}

} // verus!
