//! What holds between the generator and the evaluator of authenticated garbling.

use vstd::prelude::*;

use crate::auth::{
    check_hash, check_share, derand_bits, grown, start_bits, with_and_shares, with_free_gates,
};
use crate::auth_eval::{
    auth_evaluated, auth_evaluated_and, eval_sigma, eval_sigmas, roomy, wanted, AuthEvalOutput,
};
use crate::auth_gen::{
    auth_batch_of, auth_garbled_and, auth_gate_id, auth_labels, auth_table, gen_sigma,
    gen_sigmas, lemma_auth_table, AuthGenOutput,
};
use crate::block::{lemma_low_bit, lemma_xor, lemma_xor_offset, lemma_xor_times, tweak_of, Block};
use crate::circuit::{
    ands, driven, gate_ok, lemma_ands_bound, lemma_wire_values_len, wire_values, with_inputs,
    AuthHalfGate, Circuit, Gate,
};
use crate::correlated::{key_blocks, mac_blocks, macs_of, Delta, Key};
use crate::half_gates::remapped_garbler::lemma_driven_later;
use crate::hash::{BlockFn, TweakFn};
use crate::shares::{
    lemma_openings, lemma_sum_paired, paired, shared_bit, sum, triple_of, triple_paired, zero_share,
    AuthBitShare, AuthTripleShare,
};
use crate::triples::{
    all_paired, bucket_bits, check_values, corrected, differing, flipped_keys, flipped_values,
    grouped, is_order, key_masks, lemma_checked_triples, lemma_combined_triples, low_bits,
    merged_buckets, overlaid, pair_masks, xor_all, y_openings,
};

verus! {

/// The parties' shares of the product of two masks authenticate each other and add up to the
/// product. The triple is valid; `px` and `py` are the sums of the masks and its components.
pub proof fn lemma_sigma(
    g: AuthTripleShare,
    e: AuthTripleShare,
    px: bool,
    py: bool,
    delta_a: Delta,
    delta_b: Delta,
)
    requires
        triple_of(g, e).is_valid(delta_a, delta_b),
    ensures
        ({
            let s_g = gen_sigma(g, px, py, delta_a.block);
            let s_e = eval_sigma(e, px, py);
            let t = triple_of(g, e);
            &&& paired(s_g, s_e, delta_a, delta_b)
            &&& shared_bit(s_g, s_e) == ((t.x.bit() != px) && (t.y.bit() != py))
        }),
{
    lemma_sum_paired(g.z, e.z, g.y, e.y, delta_a, delta_b);
    let a_g = if px {
        sum(g.z, g.y)
    } else {
        g.z
    };
    let a_e = if px {
        sum(e.z, e.y)
    } else {
        e.z
    };
    lemma_sum_paired(a_g, a_e, g.x, e.x, delta_a, delta_b);
    let b_g = if py {
        sum(a_g, g.x)
    } else {
        a_g
    };
    let b_e = if py {
        sum(a_e, e.x)
    } else {
        a_e
    };
    let d = delta_a.block;
    lemma_xor(b_g.key.block, d, d);
    lemma_xor(b_g.key.block.xor(d), d, d);
    lemma_xor(b_e.mac.block, d, d);
}

/// An authenticated AND gate gives the right masked value and the label that belongs to it.
///
/// The mask of a wire is the bit that the two shares add up to; its masked value is its value plus
/// its mask, and its active label is its zero label plus the correlation times the masked value.
pub proof fn lemma_auth_and(
    h: TweakFn,
    lx: Block,
    ly: Block,
    gens: (AuthBitShare, AuthBitShare, AuthBitShare, AuthBitShare),
    evals: (AuthBitShare, AuthBitShare, AuthBitShare, AuthBitShare),
    za: bool,
    zb: bool,
    delta_a: Delta,
    delta_b: Delta,
    gid: u128,
)
    requires
        delta_a.block.low_bit(),
        paired(gens.0, evals.0, delta_a, delta_b),
        paired(gens.1, evals.1, delta_a, delta_b),
        paired(gens.2, evals.2, delta_a, delta_b),
        paired(gens.3, evals.3, delta_a, delta_b),
        shared_bit(gens.3, evals.3) == (shared_bit(gens.0, evals.0) && shared_bit(
            gens.1,
            evals.1,
        )),
    ensures
        ({
            let d = delta_a.block;
            let (gate, lz) = auth_garbled_and(h, lx, ly, gens.0, gens.1, gens.2, gens.3, d, gid);
            let (lz_e, zc) = auth_evaluated_and(
                h,
                lx.xor(d.times(za)),
                ly.xor(d.times(zb)),
                evals.0,
                evals.1,
                evals.2,
                evals.3,
                gate,
                za,
                zb,
                gid,
            );
            let x = za != shared_bit(gens.0, evals.0);
            let y = zb != shared_bit(gens.1, evals.1);
            &&& zc == ((x && y) != shared_bit(gens.2, evals.2))
            &&& lz_e == lz.xor(d.times(zc))
        }),
{
    let d = delta_a.block;
    let (sx, sy, sz, ss) = gens;
    let (ex, ey, ez, es) = evals;
    let (gate, lz) = auth_garbled_and(h, lx, ly, sx, sy, sz, ss, d, gid);
    let (lx_e, ly_e) = (lx.xor(d.times(za)), ly.xor(d.times(zb)));
    let (lz_e, zc) = auth_evaluated_and(h, lx_e, ly_e, ex, ey, ez, es, gate, za, zb, gid);
    let j = tweak_of(gid);
    let k = tweak_of((gid + 1) as u128);
    lemma_xor(lx, d, d);
    lemma_xor(ly, d, d);
    let (hx, hx1, hxe) = (h(j, lx), h(j, lx.xor(d)), h(j, lx_e));
    let (hy, hy1, hye) = (h(k, ly), h(k, ly.xor(d)), h(k, ly_e));
    let (lam_x, lam_y) = (shared_bit(sx, ex), shared_bit(sy, ey));
    let zero = Block { bits: 0 };
    // The first row takes the hash back to that of the zero label.
    let r_0 = gate.left_row.xor(ey.mac.block).times(za);
    assert(hxe.xor(r_0) == hx.xor(d.times(za && lam_y))) by {
        let (p, q, u, v, w) = (
            hx.bits,
            hx1.bits,
            sy.key.block.bits,
            d.times(sy.value).bits,
            d.times(ey.value).bits,
        );
        assert(q ^ ((p ^ q ^ u ^ v) ^ (u ^ w)) == p ^ (v ^ w)) by (bit_vector);
        lemma_xor_times(d, sy.value, ey.value);
        lemma_xor(hx, hx, hx);
    }
    // The second row does, and adds the first operand's masked value.
    let r_1 = gate.right_row.xor(ex.mac.block).xor(lx_e).times(zb);
    assert(hye.xor(r_1) == hy.xor(d.times(zb && lam_x)).xor(d.times(za && zb))) by {
        let (p, q, u, v, w) = (
            hy.bits,
            hy1.bits,
            sx.key.block.bits,
            d.times(sx.value).bits,
            d.times(ex.value).bits,
        );
        let (l, a) = (lx.bits, d.times(za).bits);
        assert(q ^ (((p ^ q ^ u ^ v ^ l) ^ (u ^ w)) ^ (l ^ a)) == (p ^ (v ^ w)) ^ a)
            by (bit_vector);
        lemma_xor_times(d, sx.value, ex.value);
        lemma_xor(hy, hy, hy);
        lemma_xor(hye, hye, hye);
    }
    // What is left are multiples of the correlation.
    let (m1, m2, m3) = (d.times(za && lam_y), d.times(zb && lam_x), d.times(za && zb));
    let (zg, ze, sg, se) = (
        d.times(sz.value),
        d.times(ez.value),
        d.times(ss.value),
        d.times(es.value),
    );
    let (a, b, r0, r1) = (hxe.bits, hye.bits, r_0.bits, r_1.bits);
    let (p, q) = (hx.bits, hy.bits);
    let (kz, ks) = (sz.key.block.bits, ss.key.block.bits);
    let (zgb, zeb, sgb, seb) = (zg.bits, ze.bits, sg.bits, se.bits);
    let (b1, b2, b3) = (m1.bits, m2.bits, m3.bits);
    assert(a ^ b ^ (kz ^ zeb) ^ (ks ^ seb) ^ r0 ^ r1 == (p ^ q ^ kz ^ zgb ^ ks ^ sgb) ^ (((zgb
        ^ zeb) ^ (sgb ^ seb)) ^ ((b1 ^ b2) ^ b3))) by (bit_vector)
        requires
            a ^ r0 == p ^ b1,
            b ^ r1 == (q ^ b2) ^ b3,
    ;
    lemma_xor_times(d, sz.value, ez.value);
    lemma_xor_times(d, ss.value, es.value);
    let lam_z = shared_bit(sz, ez);
    let sigma = shared_bit(ss, es);
    lemma_xor_times(d, lam_z, sigma);
    lemma_xor_times(d, za && lam_y, zb && lam_x);
    lemma_xor_times(d, (za && lam_y) != (zb && lam_x), za && zb);
    let rest = ((za && lam_y) != (zb && lam_x)) != (za && zb);
    lemma_xor_times(d, lam_z != sigma, rest);
    let right = (lam_z != sigma) != rest;
    assert(lz_e == lz.xor(d.times(right)));
    lemma_low_bit(lz, d.times(right));
    lemma_low_bit(zero, zero);
    assert(zc == right);
}

/// The parties' checks of an AND gate are equal if the masked value of the result is right.
pub proof fn lemma_check_share(
    gens: (AuthBitShare, AuthBitShare, AuthBitShare, AuthBitShare),
    evals: (AuthBitShare, AuthBitShare, AuthBitShare, AuthBitShare),
    za: bool,
    zb: bool,
    zc: bool,
    delta_a: Delta,
    delta_b: Delta,
)
    requires
        paired(gens.0, evals.0, delta_a, delta_b),
        paired(gens.1, evals.1, delta_a, delta_b),
        paired(gens.2, evals.2, delta_a, delta_b),
        paired(gens.3, evals.3, delta_a, delta_b),
        shared_bit(gens.3, evals.3) == (shared_bit(gens.0, evals.0) && shared_bit(
            gens.1,
            evals.1,
        )),
    ensures
        ({
            let x = za != shared_bit(gens.0, evals.0);
            let y = zb != shared_bit(gens.1, evals.1);
            let right = (x && y) != shared_bit(gens.2, evals.2);
            let g = check_share(gens.3, gens.2, gens.0, gens.1, za, zb, zc, delta_a.block);
            let e = check_share(evals.3, evals.2, evals.0, evals.1, za, zb, zc, delta_b.block);
            g.xor(e) == delta_a.block.xor(delta_b.block).times(zc != right)
        }),
{
    let (da, db) = (delta_a.block, delta_b.block);
    let d = da.xor(db);
    let (sx, sy, sz, ss) = gens;
    let (ex, ey, ez, es) = evals;
    lemma_openings(sx, ex, delta_a, delta_b);
    lemma_openings(sy, ey, delta_a, delta_b);
    lemma_openings(sz, ez, delta_a, delta_b);
    lemma_openings(ss, es, delta_a, delta_b);
    let zero = Block { bits: 0 };
    lemma_xor(zero, zero, zero);
    let c = (za && zb) != zc;
    let (a1, b1) = (ss.opening(da).bits, es.opening(db).bits);
    let (a2, b2) = (sz.opening(da).bits, ez.opening(db).bits);
    let (a3, b3) = (sy.opening(da).times(za).bits, ey.opening(db).times(za).bits);
    let (a4, b4) = (sx.opening(da).times(zb).bits, ex.opening(db).times(zb).bits);
    let (a5, b5) = (da.times(c).bits, db.times(c).bits);
    assert((a1 ^ a2 ^ a3 ^ a4 ^ a5) ^ (b1 ^ b2 ^ b3 ^ b4 ^ b5) == ((a1 ^ b1) ^ (a2 ^ b2)) ^ (((a3
        ^ b3) ^ (a4 ^ b4)) ^ (a5 ^ b5))) by (bit_vector);
    let (lam_x, lam_y) = (shared_bit(sx, ex), shared_bit(sy, ey));
    let (lam_z, sigma) = (shared_bit(sz, ez), shared_bit(ss, es));
    assert(a3 ^ b3 == d.times(za && lam_y).bits);
    assert(a4 ^ b4 == d.times(zb && lam_x).bits);
    assert(a5 ^ b5 == d.times(c).bits);
    lemma_xor_times(d, sigma, lam_z);
    lemma_xor_times(d, za && lam_y, zb && lam_x);
    let m = (za && lam_y) != (zb && lam_x);
    lemma_xor_times(d, m, c);
    lemma_xor_times(d, sigma != lam_z, m != c);
}

/// The shares of the wires follow the gates: a free gate's share comes from its operands.
pub open spec fn follows_gates(bits: Seq<AuthBitShare>, gates: Seq<Gate>, n: int) -> bool {
    forall|i: int|
        0 <= i < n ==> match #[trigger] gates[i] {
            Gate::Xor { x, y, z } => bits[z as int] == sum(bits[x as int], bits[y as int]),
            Gate::Inv { x, z } => bits[z as int] == bits[x as int],
            Gate::Id { x, z } => bits[z as int] == bits[x as int],
            Gate::And { .. } => true,
        }
}

/// Computing the free gates makes the shares follow the gates, and leaves those of the inputs and
/// of the AND gates alone.
pub proof fn lemma_free_gates(circ: &Circuit, bits: Seq<AuthBitShare>, n: int)
    requires
        circ.wf(),
        bits.len() >= circ.feeds(),
        0 <= n <= circ.gate_seq().len(),
    ensures
        ({
            let after = with_free_gates(bits, circ.gate_seq(), n);
            &&& after.len() == bits.len()
            &&& follows_gates(after, circ.gate_seq(), n)
            &&& forall|w: int| 0 <= w < circ.input_len() ==> #[trigger] after[w] == bits[w]
            &&& forall|i: int|
                0 <= i < circ.gate_seq().len() && (#[trigger] circ.gate_seq()[i] is And || i >= n)
                    ==> after[circ.gate_seq()[i].out()] == bits[circ.gate_seq()[i].out()]
        }),
    decreases n,
{
    let gates = circ.gate_seq();
    circ.lemma_wf();
    if n > 0 {
        lemma_free_gates(circ, bits, n - 1);
        let before = with_free_gates(bits, gates, n - 1);
        let after = with_free_gates(bits, gates, n);
        assert(gate_ok(circ.input_len(), circ.feeds(), gates, n - 1));
        let z = gates[n - 1].out();
        assert forall|i: int| 0 <= i < n implies match #[trigger] gates[i] {
            Gate::Xor { x, y, z } => after[z as int] == sum(after[x as int], after[y as int]),
            Gate::Inv { x, z } => after[z as int] == after[x as int],
            Gate::Id { x, z } => after[z as int] == after[x as int],
            Gate::And { .. } => true,
        } by {
            assert(gate_ok(circ.input_len(), circ.feeds(), gates, i));
            if i < n - 1 {
                assert(gates[i].out() != z);
                lemma_driven_later(circ.input_len(), gates, i, n - 1, gates[i].left());
                lemma_driven_later(circ.input_len(), gates, i, n - 1, gates[i].right());
            } else {
                assert(z != gates[i].left() && z != gates[i].right());
            }
        }
        assert forall|i: int|
            0 <= i < gates.len() && (#[trigger] gates[i] is And || i >= n) implies after[gates[i].out()]
            == bits[gates[i].out()] by {
            assert(gate_ok(circ.input_len(), circ.feeds(), gates, i));
            if i != n - 1 {
                assert(gates[i].out() != z) by {
                    if i > n - 1 {
                        assert(gates[n - 1].out() == z);
                    } else {
                        assert(gates[i].out() == gates[i].out());
                    }
                }
            }
        }
        assert forall|w: int| 0 <= w < circ.input_len() implies #[trigger] after[w] == bits[w] by {
            assert(w != z);
        }
    }
}

/// On every wire that is driven, the shares of the two parties authenticate each other.
pub open spec fn wires_paired(
    circ: &Circuit,
    gens: Seq<AuthBitShare>,
    evals: Seq<AuthBitShare>,
    delta_a: Delta,
    delta_b: Delta,
    n: int,
) -> bool {
    forall|w: int|
        0 <= w < circ.feeds() && #[trigger] driven(circ.input_len(), circ.gate_seq(), n, w)
            ==> paired(gens[w], evals[w], delta_a, delta_b)
}

/// Shares of inputs and AND gates that authenticate each other, carried through the free gates,
/// authenticate each other on every wire.
pub proof fn lemma_wires_paired(
    circ: &Circuit,
    gens: Seq<AuthBitShare>,
    evals: Seq<AuthBitShare>,
    delta_a: Delta,
    delta_b: Delta,
    n: int,
)
    requires
        circ.wf(),
        gens.len() >= circ.feeds(),
        evals.len() >= circ.feeds(),
        0 <= n <= circ.gate_seq().len(),
        follows_gates(gens, circ.gate_seq(), circ.gate_seq().len() as int),
        follows_gates(evals, circ.gate_seq(), circ.gate_seq().len() as int),
        forall|w: int|
            0 <= w < circ.input_len() ==> paired(#[trigger] gens[w], evals[w], delta_a, delta_b),
        forall|i: int|
            0 <= i < circ.gate_seq().len() && #[trigger] circ.gate_seq()[i] is And ==> paired(
                gens[circ.gate_seq()[i].out()],
                evals[circ.gate_seq()[i].out()],
                delta_a,
                delta_b,
            ),
    ensures
        wires_paired(circ, gens, evals, delta_a, delta_b, n),
    decreases n,
{
    let gates = circ.gate_seq();
    circ.lemma_wf();
    if n > 0 {
        lemma_wires_paired(circ, gens, evals, delta_a, delta_b, n - 1);
        let gate = gates[n - 1];
        assert(gate_ok(circ.input_len(), circ.feeds(), gates, n - 1));
        let (x, y, z) = (gate.left(), gate.right(), gate.out());
        assert(driven(circ.input_len(), gates, n - 1, x));
        assert(driven(circ.input_len(), gates, n - 1, y));
        if gate is Xor {
            lemma_sum_paired(gens[x], evals[x], gens[y], evals[y], delta_a, delta_b);
        }
        assert(paired(gens[z], evals[z], delta_a, delta_b));
        assert forall|w: int|
            0 <= w < circ.feeds() && #[trigger] driven(circ.input_len(), gates, n, w) implies paired(
            gens[w],
            evals[w],
            delta_a,
            delta_b,
        ) by {
            if w != z && !(0 <= w < circ.input_len()) {
                let i = choose|i: int| 0 <= i < n && (#[trigger] gates[i]).out() == w;
                assert(i < n - 1);
                assert(driven(circ.input_len(), gates, n - 1, w));
            } else if w != z {
                assert(driven(circ.input_len(), gates, n - 1, w));
            }
        }
    }
}

/// Giving the AND gates their shares leaves those of the inputs alone.
proof fn lemma_and_shares(
    circ: &Circuit,
    bits: Seq<AuthBitShare>,
    shares: Seq<AuthBitShare>,
    n: int,
)
    requires
        circ.wf(),
        bits.len() >= circ.feeds(),
        0 <= n <= circ.gate_seq().len(),
    ensures
        ({
            let gates = circ.gate_seq();
            let after = with_and_shares(bits, gates, shares, n);
            &&& after.len() == bits.len()
            &&& forall|w: int| 0 <= w < circ.input_len() ==> #[trigger] after[w] == bits[w]
            &&& forall|i: int|
                0 <= i < n && #[trigger] gates[i] is And ==> after[gates[i].out()] == shares[ands(
                    gates,
                    i,
                ) as int]
        }),
    decreases n,
{
    let gates = circ.gate_seq();
    circ.lemma_wf();
    if n > 0 {
        lemma_and_shares(circ, bits, shares, n - 1);
        assert(gate_ok(circ.input_len(), circ.feeds(), gates, n - 1));
        let after = with_and_shares(bits, gates, shares, n);
        assert forall|i: int| 0 <= i < n && #[trigger] gates[i] is And implies after[gates[i].out()]
            == shares[ands(gates, i) as int] by {
            assert(gate_ok(circ.input_len(), circ.feeds(), gates, i));
            if i < n - 1 {
                assert(gates[i].out() != gates[n - 1].out());
            }
        }
        assert forall|w: int| 0 <= w < circ.input_len() implies #[trigger] after[w] == bits[w] by {
            assert(w != gates[n - 1].out());
        }
    }
}

/// Preprocessing that starts from shares that authenticate each other ends with masks that follow
/// the gates and are authenticated on every wire. Each input and each AND gate has a share of its
/// own.
pub proof fn lemma_preprocessed_wires(
    circ: &Circuit,
    before: (Seq<AuthBitShare>, Seq<AuthBitShare>),
    inputs: (Seq<AuthBitShare>, Seq<AuthBitShare>),
    shares: (Seq<AuthBitShare>, Seq<AuthBitShare>),
    delta_a: Delta,
    delta_b: Delta,
)
    requires
        circ.wf(),
        inputs.0.len() == circ.input_len(),
        inputs.1.len() == circ.input_len(),
        shares.0.len() >= circ.and_len(),
        shares.1.len() >= circ.and_len(),
        forall|w: int|
            0 <= w < circ.input_len() ==> paired(
                #[trigger] inputs.0[w],
                inputs.1[w],
                delta_a,
                delta_b,
            ),
        forall|c: int|
            0 <= c < circ.and_len() ==> paired(
                #[trigger] shares.0[c],
                shares.1[c],
                delta_a,
                delta_b,
            ),
    ensures
        ({
            let gates = circ.gate_seq();
            let n = gates.len() as int;
            let gens = with_free_gates(start_bits(before.0, circ, inputs.0, shares.0), gates, n);
            let evals = with_free_gates(start_bits(before.1, circ, inputs.1, shares.1), gates, n);
            &&& follows_gates(gens, gates, n)
            &&& follows_gates(evals, gates, n)
            &&& wires_paired(circ, gens, evals, delta_a, delta_b, n)
            &&& gens.len() >= circ.feeds()
            &&& evals.len() >= circ.feeds()
            &&& forall|w: int|
                0 <= w < circ.input_len() ==> #[trigger] gens[w] == inputs.0[w] && evals[w]
                    == inputs.1[w]
            &&& forall|i: int|
                0 <= i < n && #[trigger] gates[i] is And ==> {
                    &&& gens[gates[i].out()] == shares.0[ands(gates, i) as int]
                    &&& evals[gates[i].out()] == shares.1[ands(gates, i) as int]
                }
        }),
{
    let gates = circ.gate_seq();
    let n = gates.len() as int;
    circ.lemma_wf();
    let base_g = overlaid(inputs.0, grown(before.0, circ.feeds(), zero_share()));
    let base_e = overlaid(inputs.1, grown(before.1, circ.feeds(), zero_share()));
    lemma_and_shares(circ, base_g, shares.0, n);
    lemma_and_shares(circ, base_e, shares.1, n);
    let (start_g, start_e) = (
        start_bits(before.0, circ, inputs.0, shares.0),
        start_bits(before.1, circ, inputs.1, shares.1),
    );
    lemma_free_gates(circ, start_g, n);
    lemma_free_gates(circ, start_e, n);
    let (gens, evals) = (
        with_free_gates(start_g, gates, n),
        with_free_gates(start_e, gates, n),
    );
    assert forall|w: int| 0 <= w < circ.input_len() implies #[trigger] gens[w] == inputs.0[w]
        && evals[w] == inputs.1[w] by {
        assert(gens[w] == start_g[w] && evals[w] == start_e[w]);
        assert(start_g[w] == base_g[w] && start_e[w] == base_e[w]);
    }
    assert forall|w: int| 0 <= w < circ.input_len() implies paired(
        #[trigger] gens[w],
        evals[w],
        delta_a,
        delta_b,
    ) by {
        assert(paired(inputs.0[w], inputs.1[w], delta_a, delta_b));
    }
    assert forall|i: int| 0 <= i < gates.len() && #[trigger] gates[i] is And implies paired(
        gens[gates[i].out()],
        evals[gates[i].out()],
        delta_a,
        delta_b,
    ) by {
        lemma_ands_bound(gates, i + 1, n);
        let c = ands(gates, i) as int;
        assert(paired(shares.0[c], shares.1[c], delta_a, delta_b));
    }
    lemma_wires_paired(circ, gens, evals, delta_a, delta_b, n);
}

/// The bits that the parties send for an AND gate, and the shares they compute from them.
proof fn lemma_derand(
    gens: Seq<AuthBitShare>,
    evals: Seq<AuthBitShare>,
    t_g: Seq<AuthTripleShare>,
    t_e: Seq<AuthTripleShare>,
    delta: Block,
    gates: Seq<Gate>,
    px: (Seq<bool>, Seq<bool>),
    py: (Seq<bool>, Seq<bool>),
    n: int,
    i: int,
)
    requires
        0 <= i < n,
        gates[i] is And,
    ensures
        ({
            let c = ands(gates, i) as int;
            let gate = gates[i];
            &&& derand_bits(gens, t_g, gates, n).0.len() == ands(gates, n)
            &&& derand_bits(gens, t_g, gates, n).1.len() == ands(gates, n)
            &&& gen_sigmas(gens, t_g, px.0, py.0, delta, gates, n).len() == ands(gates, n)
            &&& eval_sigmas(evals, t_e, px.1, py.1, gates, n).len() == ands(gates, n)
            &&& c < ands(gates, n)
            &&& derand_bits(gens, t_g, gates, n).0[c] == (gens[gate.left()].value != t_g[c].x.value)
            &&& derand_bits(gens, t_g, gates, n).1[c] == (gens[gate.right()].value
                != t_g[c].y.value)
            &&& gen_sigmas(gens, t_g, px.0, py.0, delta, gates, n)[c] == gen_sigma(
                t_g[c],
                (gens[gate.left()].value != t_g[c].x.value) != px.0[c],
                (gens[gate.right()].value != t_g[c].y.value) != py.0[c],
                delta,
            )
            &&& eval_sigmas(evals, t_e, px.1, py.1, gates, n)[c] == eval_sigma(
                t_e[c],
                (evals[gate.left()].value != t_e[c].x.value) != px.1[c],
                (evals[gate.right()].value != t_e[c].y.value) != py.1[c],
            )
        }),
    decreases n,
{
    if i < n - 1 {
        lemma_derand(gens, evals, t_g, t_e, delta, gates, px, py, n - 1, i);
    } else {
        lemma_derand_len(gens, evals, t_g, t_e, delta, gates, px, py, n - 1);
    }
}

proof fn lemma_derand_len(
    gens: Seq<AuthBitShare>,
    evals: Seq<AuthBitShare>,
    t_g: Seq<AuthTripleShare>,
    t_e: Seq<AuthTripleShare>,
    delta: Block,
    gates: Seq<Gate>,
    px: (Seq<bool>, Seq<bool>),
    py: (Seq<bool>, Seq<bool>),
    n: int,
)
    ensures
        derand_bits(gens, t_g, gates, n).0.len() == ands(gates, n),
        derand_bits(gens, t_g, gates, n).1.len() == ands(gates, n),
        gen_sigmas(gens, t_g, px.0, py.0, delta, gates, n).len() == ands(gates, n),
        eval_sigmas(evals, t_e, px.1, py.1, gates, n).len() == ands(gates, n),
    decreases n,
{
    if n > 0 {
        lemma_derand_len(gens, evals, t_g, t_e, delta, gates, px, py, n - 1);
    }
}

/// What both parties hold when a circuit is garbled and evaluated.
pub struct Session {
    /// The generator's correlation.
    pub delta_a: Delta,
    /// The evaluator's correlation.
    pub delta_b: Delta,
    /// The generator's shares of the masks.
    pub gen_bits: Seq<AuthBitShare>,
    /// The evaluator's shares of the masks.
    pub eval_bits: Seq<AuthBitShare>,
    /// The generator's shares of triples.
    pub gen_triples: Seq<AuthTripleShare>,
    /// The evaluator's shares of triples.
    pub eval_triples: Seq<AuthTripleShare>,
    /// The zero labels.
    pub labels: Seq<Block>,
    /// The active labels.
    pub active: Seq<Block>,
    /// The masked values.
    pub masked: Seq<bool>,
}

impl Session {
    /// The mask of a wire.
    pub open spec fn mask(&self, wire: int) -> bool {
        shared_bit(self.gen_bits[wire], self.eval_bits[wire])
    }

    /// The generator's shares of the products of masks.
    pub open spec fn gen_sigma_seq(&self, circ: &Circuit) -> Seq<AuthBitShare> {
        let n = circ.gate_seq().len() as int;
        let (px, py) = derand_bits(self.eval_bits, self.eval_triples, circ.gate_seq(), n);
        gen_sigmas(
            self.gen_bits,
            self.gen_triples,
            px,
            py,
            self.delta_a.block,
            circ.gate_seq(),
            n,
        )
    }

    /// The evaluator's shares of the products of masks.
    pub open spec fn eval_sigma_seq(&self, circ: &Circuit) -> Seq<AuthBitShare> {
        let n = circ.gate_seq().len() as int;
        let (px, py) = derand_bits(self.gen_bits, self.gen_triples, circ.gate_seq(), n);
        eval_sigmas(self.eval_bits, self.eval_triples, px, py, circ.gate_seq(), n)
    }

    /// The encrypted gates.
    pub open spec fn table(&self, circ: &Circuit, h: TweakFn) -> Seq<crate::circuit::AuthHalfGate> {
        auth_table(
            h,
            self.delta_a.block,
            circ.gate_seq(),
            self.gen_bits,
            self.gen_sigma_seq(circ),
            self.labels,
            circ.gate_seq().len() as int,
        )
    }

    /// The zero labels after the first `n` gates.
    pub open spec fn labels_after(&self, circ: &Circuit, h: TweakFn, n: int) -> Seq<Block> {
        auth_labels(
            h,
            self.delta_a.block,
            circ.gate_seq(),
            self.gen_bits,
            self.gen_sigma_seq(circ),
            self.labels,
            n,
        )
    }

    /// The active labels and the masked values after the first `n` gates.
    pub open spec fn evaluated_after(&self, circ: &Circuit, h: TweakFn, n: int) -> (
        Seq<Block>,
        Seq<bool>,
    ) {
        auth_evaluated(
            h,
            circ.gate_seq(),
            self.eval_bits,
            self.eval_sigma_seq(circ),
            self.table(circ, h),
            self.active,
            self.masked,
            n,
        )
    }

    /// What preprocessing gives: masks that follow the gates and are authenticated on every wire,
    /// a valid triple for each AND gate, and labels for the masked inputs.
    pub open spec fn is_ready(&self, circ: &Circuit, inputs: Seq<bool>) -> bool {
        let n = circ.gate_seq().len() as int;
        &&& self.delta_a.block.low_bit()
        &&& self.gen_bits.len() >= circ.feeds()
        &&& self.eval_bits.len() >= circ.feeds()
        &&& self.gen_triples.len() >= circ.and_len()
        &&& self.eval_triples.len() >= circ.and_len()
        &&& self.labels.len() >= circ.feeds()
        &&& self.active.len() >= circ.feeds()
        &&& self.masked.len() >= circ.feeds()
        &&& inputs.len() == circ.input_len()
        &&& follows_gates(self.gen_bits, circ.gate_seq(), n)
        &&& follows_gates(self.eval_bits, circ.gate_seq(), n)
        &&& wires_paired(circ, self.gen_bits, self.eval_bits, self.delta_a, self.delta_b, n)
        &&& forall|c: int|
            0 <= c < circ.and_len() ==> #[trigger] triple_of(
                self.gen_triples[c],
                self.eval_triples[c],
            ).is_valid(self.delta_a, self.delta_b)
        &&& forall|w: int|
            0 <= w < circ.input_len() ==> {
                &&& #[trigger] self.masked[w] == (inputs[w] != self.mask(w))
                &&& self.active[w] == self.labels[w].xor(self.delta_a.block.times(self.masked[w]))
            }
    }
}

/// The shares of the product of an AND gate's masks are right.
proof fn lemma_sigma_at(s: Session, circ: &Circuit, inputs: Seq<bool>, i: int)
    requires
        circ.wf(),
        s.is_ready(circ, inputs),
        0 <= i < circ.gate_seq().len(),
        circ.gate_seq()[i] is And,
    ensures
        ({
            let gate = circ.gate_seq()[i];
            let c = ands(circ.gate_seq(), i) as int;
            let (s_g, s_e) = (s.gen_sigma_seq(circ)[c], s.eval_sigma_seq(circ)[c]);
            &&& c < circ.and_len()
            &&& paired(s_g, s_e, s.delta_a, s.delta_b)
            &&& shared_bit(s_g, s_e) == (s.mask(gate.left()) && s.mask(gate.right()))
        }),
{
    let gates = circ.gate_seq();
    let n = gates.len() as int;
    let gate = gates[i];
    let c = ands(gates, i) as int;
    let (px_g, py_g) = derand_bits(s.gen_bits, s.gen_triples, gates, n);
    let (px_e, py_e) = derand_bits(s.eval_bits, s.eval_triples, gates, n);
    lemma_derand(
        s.gen_bits,
        s.eval_bits,
        s.gen_triples,
        s.eval_triples,
        s.delta_a.block,
        gates,
        (px_e, px_g),
        (py_e, py_g),
        n,
        i,
    );
    lemma_derand(
        s.eval_bits,
        s.gen_bits,
        s.eval_triples,
        s.gen_triples,
        s.delta_a.block,
        gates,
        (px_e, px_g),
        (py_e, py_g),
        n,
        i,
    );
    let (t_g, t_e) = (s.gen_triples[c], s.eval_triples[c]);
    assert(triple_of(t_g, t_e).is_valid(s.delta_a, s.delta_b));
    let px = (s.gen_bits[gate.left()].value != t_g.x.value) != (s.eval_bits[gate.left()].value
        != t_e.x.value);
    let py = (s.gen_bits[gate.right()].value != t_g.y.value) != (s.eval_bits[gate.right()].value
        != t_e.y.value);
    lemma_sigma(t_g, t_e, px, py, s.delta_a, s.delta_b);
}

/// After the first `n` gates the masked value of each driven wire is its value plus its mask, and
/// its active label belongs to the masked value.
pub proof fn lemma_masked_wires(
    s: Session,
    circ: &Circuit,
    h: TweakFn,
    inputs: Seq<bool>,
    n: int,
)
    requires
        circ.wf(),
        s.is_ready(circ, inputs),
        0 <= n <= circ.gate_seq().len(),
    ensures
        ({
            let labels = s.labels_after(circ, h, n);
            let (active, masked) = s.evaluated_after(circ, h, n);
            let values = wire_values(
                circ.gate_seq(),
                with_inputs(inputs, circ.feeds(), false),
                n,
            );
            &&& labels.len() == s.labels.len()
            &&& active.len() == s.active.len()
            &&& masked.len() == s.masked.len()
            &&& forall|w: int|
                0 <= w < circ.feeds() && #[trigger] driven(circ.input_len(), circ.gate_seq(), n, w)
                    ==> {
                    &&& masked[w] == (values[w] != s.mask(w))
                    &&& active[w] == labels[w].xor(s.delta_a.block.times(masked[w]))
                }
        }),
    decreases n,
{
    let gates = circ.gate_seq();
    let inputs_len = circ.input_len();
    let d = s.delta_a.block;
    let init = with_inputs(inputs, circ.feeds(), false);
    circ.lemma_wf();
    if n > 0 {
        lemma_masked_wires(s, circ, h, inputs, n - 1);
        let len = gates.len() as int;
        let gate = gates[n - 1];
        assert(gate_ok(inputs_len, circ.feeds(), gates, n - 1));
        assert forall|i: int| 0 <= i < gates.len() implies (#[trigger] gates[i]).out()
            < init.len() by {
            assert(gate_ok(inputs_len, circ.feeds(), gates, i));
        }
        lemma_wire_values_len(gates, init, n - 1);
        let (x, y, z) = (gate.left(), gate.right(), gate.out());
        assert(driven(inputs_len, gates, n - 1, x));
        assert(driven(inputs_len, gates, n - 1, y));
        lemma_driven_later(inputs_len, gates, n - 1, len, x);
        lemma_driven_later(inputs_len, gates, n - 1, len, y);
        assert(gates[n - 1].out() == z);
        assert(driven(inputs_len, gates, len, z));
        let l0 = s.labels_after(circ, h, n - 1);
        let (a0, m0) = s.evaluated_after(circ, h, n - 1);
        let v0 = wire_values(gates, init, n - 1);
        let l1 = s.labels_after(circ, h, n);
        let (a1, m1) = s.evaluated_after(circ, h, n);
        let v1 = wire_values(gates, init, n);
        match gate {
            Gate::Xor { .. } => {
                lemma_xor_offset(l0[x], l0[y], d, m0[x], m0[y]);
            },
            Gate::Inv { .. } => {
                lemma_xor(l0[x], d, d);
                lemma_xor(l0[x].xor(d), d, d);
            },
            Gate::Id { .. } => {},
            Gate::And { .. } => {
                let c = ands(gates, n - 1) as int;
                let (sg, se) = (s.gen_sigma_seq(circ), s.eval_sigma_seq(circ));
                lemma_sigma_at(s, circ, inputs, n - 1);
                lemma_auth_and(
                    h,
                    l0[x],
                    l0[y],
                    (s.gen_bits[x], s.gen_bits[y], s.gen_bits[z], sg[c]),
                    (s.eval_bits[x], s.eval_bits[y], s.eval_bits[z], se[c]),
                    m0[x],
                    m0[y],
                    s.delta_a,
                    s.delta_b,
                    auth_gate_id(gates, n - 1),
                );
                lemma_auth_table(h, d, gates, s.gen_bits, sg, s.labels, n - 1, n);
                lemma_auth_table(h, d, gates, s.gen_bits, sg, s.labels, n, len);
            },
        }
        assert(m1[z] == (v1[z] != s.mask(z)));
        assert(a1[z] == l1[z].xor(d.times(m1[z])));
        assert forall|w: int|
            0 <= w < circ.feeds() && #[trigger] driven(inputs_len, gates, n, w) implies {
            &&& m1[w] == (v1[w] != s.mask(w))
            &&& a1[w] == l1[w].xor(d.times(m1[w]))
        } by {
            if w != z {
                if !(0 <= w < inputs_len) {
                    let i = choose|i: int| 0 <= i < n && (#[trigger] gates[i]).out() == w;
                    assert(i < n - 1);
                }
                assert(driven(inputs_len, gates, n - 1, w));
            }
        }
    }
}

/// A wire that is driven keeps its masked value and its value.
proof fn lemma_wire_keeps(
    s: Session,
    circ: &Circuit,
    h: TweakFn,
    init: Seq<bool>,
    n: int,
    m: int,
    wire: int,
)
    requires
        circ.wf(),
        0 <= n <= m <= circ.gate_seq().len(),
        driven(circ.input_len(), circ.gate_seq(), n, wire),
        0 <= wire < circ.feeds(),
        init.len() == circ.feeds(),
        s.masked.len() >= circ.feeds(),
        s.active.len() >= circ.feeds(),
    ensures
        s.evaluated_after(circ, h, m).1[wire] == s.evaluated_after(circ, h, n).1[wire],
        s.evaluated_after(circ, h, m).1.len() == s.masked.len(),
        wire_values(circ.gate_seq(), init, m)[wire] == wire_values(
            circ.gate_seq(),
            init,
            n,
        )[wire],
        wire_values(circ.gate_seq(), init, m).len() == init.len(),
    decreases m,
{
    circ.lemma_wf();
    let gates = circ.gate_seq();
    if m > 0 {
        assert(gate_ok(circ.input_len(), circ.feeds(), gates, m - 1));
        if n < m {
            lemma_wire_keeps(s, circ, h, init, n, m - 1, wire);
            lemma_driven_later(circ.input_len(), gates, n, m - 1, wire);
        } else {
            assert forall|i: int| 0 <= i < gates.len() implies (#[trigger] gates[i]).out()
                < init.len() by {
                assert(gate_ok(circ.input_len(), circ.feeds(), gates, i));
            }
            lemma_wire_values_len(gates, init, m);
            lemma_evaluated_len(s, circ, h, m);
        }
    }
}

proof fn lemma_evaluated_len(s: Session, circ: &Circuit, h: TweakFn, n: int)
    requires
        circ.wf(),
        0 <= n <= circ.gate_seq().len(),
        s.masked.len() >= circ.feeds(),
    ensures
        s.evaluated_after(circ, h, n).1.len() == s.masked.len(),
    decreases n,
{
    circ.lemma_wf();
    if n > 0 {
        assert(gate_ok(circ.input_len(), circ.feeds(), circ.gate_seq(), n - 1));
        lemma_evaluated_len(s, circ, h, n - 1);
    }
}

/// The parties' hashes of their checks are equal.
pub proof fn lemma_check_hashes(
    s: Session,
    circ: &Circuit,
    h: TweakFn,
    inputs: Seq<bool>,
    n: int,
)
    requires
        circ.wf(),
        s.is_ready(circ, inputs),
        0 <= n <= circ.gate_seq().len(),
    ensures
        ({
            let masked = s.evaluated_after(circ, h, circ.gate_seq().len() as int).1;
            check_hash(
                h,
                circ.gate_seq(),
                s.gen_sigma_seq(circ),
                s.gen_bits,
                masked,
                s.delta_a.block,
                n,
            ) == check_hash(
                h,
                circ.gate_seq(),
                s.eval_sigma_seq(circ),
                s.eval_bits,
                masked,
                s.delta_b.block,
                n,
            )
        }),
    decreases n,
{
    let gates = circ.gate_seq();
    let len = gates.len() as int;
    let inputs_len = circ.input_len();
    let init = with_inputs(inputs, circ.feeds(), false);
    circ.lemma_wf();
    if n > 0 {
        lemma_check_hashes(s, circ, h, inputs, n - 1);
        let gate = gates[n - 1];
        assert(gate_ok(inputs_len, circ.feeds(), gates, n - 1));
        let (x, y, z) = (gate.left(), gate.right(), gate.out());
        if gate is And {
            let c = ands(gates, n - 1) as int;
            let (sg, se) = (s.gen_sigma_seq(circ)[c], s.eval_sigma_seq(circ)[c]);
            lemma_sigma_at(s, circ, inputs, n - 1);
            lemma_driven_later(inputs_len, gates, n - 1, len, x);
            lemma_driven_later(inputs_len, gates, n - 1, len, y);
            assert(gates[n - 1].out() == z);
            assert(driven(inputs_len, gates, n, z));
            lemma_driven_later(inputs_len, gates, n, len, z);
            lemma_masked_wires(s, circ, h, inputs, len);
            let masked = s.evaluated_after(circ, h, len).1;
            let values = wire_values(gates, init, len);
            assert(values[z] == (values[x] && values[y])) by {
                assert forall|i: int| 0 <= i < gates.len() implies (#[trigger] gates[i]).out()
                    < init.len() by {
                    assert(gate_ok(inputs_len, circ.feeds(), gates, i));
                }
                lemma_wire_values_len(gates, init, n - 1);
                lemma_wire_keeps(s, circ, h, init, n - 1, len, x);
                lemma_wire_keeps(s, circ, h, init, n - 1, len, y);
                lemma_wire_keeps(s, circ, h, init, n, len, z);
            }
            let (g4, e4) = (
                (s.gen_bits[x], s.gen_bits[y], s.gen_bits[z], sg),
                (s.eval_bits[x], s.eval_bits[y], s.eval_bits[z], se),
            );
            lemma_check_share(g4, e4, masked[x], masked[y], masked[z], s.delta_a, s.delta_b);
            let cg = check_share(
                sg,
                s.gen_bits[z],
                s.gen_bits[x],
                s.gen_bits[y],
                masked[x],
                masked[y],
                masked[z],
                s.delta_a.block,
            );
            let ce = check_share(
                se,
                s.eval_bits[z],
                s.eval_bits[x],
                s.eval_bits[y],
                masked[x],
                masked[y],
                masked[z],
                s.delta_b.block,
            );
            lemma_xor(cg, ce, ce);
            lemma_xor(Block { bits: 0 }, ce, ce);
            lemma_xor(ce, Block { bits: 0 }, ce);
            assert(cg == ce);
        }
    }
}

/// Authenticated garbling computes the circuit: on every output the evaluator holds the value plus
/// the mask and the label that belongs to it, and the parties' check hashes are equal.
pub proof fn lemma_authenticated_garbling(
    s: Session,
    circ: &Circuit,
    h: TweakFn,
    inputs: Seq<bool>,
)
    requires
        circ.wf(),
        s.is_ready(circ, inputs),
    ensures
        ({
            let n = circ.gate_seq().len() as int;
            let labels = s.labels_after(circ, h, n);
            let (active, masked) = s.evaluated_after(circ, h, n);
            &&& forall|i: int|
                0 <= i < circ.output_len() ==> #[trigger] masked[circ.out_start() + i] == (
                circ.outputs_of(inputs)[i] != s.mask(circ.out_start() + i))
            &&& forall|i: int|
                0 <= i < circ.output_len() ==> #[trigger] active[circ.out_start() + i]
                    == labels[circ.out_start() + i].xor(
                    s.delta_a.block.times(masked[circ.out_start() + i]),
                )
            &&& check_hash(
                h,
                circ.gate_seq(),
                s.gen_sigma_seq(circ),
                s.gen_bits,
                masked,
                s.delta_a.block,
                n,
            ) == check_hash(
                h,
                circ.gate_seq(),
                s.eval_sigma_seq(circ),
                s.eval_bits,
                masked,
                s.delta_b.block,
                n,
            )
        }),
{
    let n = circ.gate_seq().len() as int;
    circ.lemma_wf();
    lemma_masked_wires(s, circ, h, inputs, n);
    lemma_check_hashes(s, circ, h, inputs, n);
    let init = with_inputs(inputs, circ.feeds(), false);
    assert forall|i: int| 0 <= i < circ.gate_seq().len() implies (#[trigger] circ.gate_seq()[i]).out()
        < init.len() by {
        assert(gate_ok(circ.input_len(), circ.feeds(), circ.gate_seq(), i));
    }
    lemma_wire_values_len(circ.gate_seq(), init, n);
    let labels = s.labels_after(circ, h, n);
    let (active, masked) = s.evaluated_after(circ, h, n);
    assert forall|i: int| 0 <= i < circ.output_len() implies #[trigger] masked[circ.out_start() + i]
        == (circ.outputs_of(inputs)[i] != s.mask(circ.out_start() + i)) by {
        assert(driven(circ.input_len(), circ.gate_seq(), n, circ.out_start() + i));
    }
    assert forall|i: int| 0 <= i < circ.output_len() implies #[trigger] active[circ.out_start() + i]
        == labels[circ.out_start() + i].xor(
        s.delta_a.block.times(masked[circ.out_start() + i]),
    ) by {
        assert(driven(circ.input_len(), circ.gate_seq(), n, circ.out_start() + i));
    }
}

/// What the evaluator takes of a batch is what the garbler made for it: an evaluator that holds the
/// encrypted gates up to where the batch starts then holds those up to its end, without padding.
pub proof fn lemma_batch_delivered(table: Seq<AuthHalfGate>, done: nat, n: nat)
    requires
        done <= table.len(),
    ensures
        table.take(done as int) + wanted(auth_batch_of(table, done, n), table.len() - done)
            == table.take(if done + n < table.len() {
            (done + n) as int
        } else {
            table.len() as int
        }),
{
    let end = if done + n < table.len() {
        (done + n) as int
    } else {
        table.len() as int
    };
    assert(table.take(done as int) + wanted(auth_batch_of(table, done, n), table.len() - done)
        =~= table.take(end));
}

/// A run of authenticated garbling in which both parties follow the protocol: what they start from.
pub struct Run {
    /// The generator's correlation.
    pub delta_a: Delta,
    /// The evaluator's correlation.
    pub delta_b: Delta,
    /// The number of leaky triples that make one triple.
    pub bucket_size: int,
    /// The order of the leaky triples on which the parties agree.
    pub order: Seq<usize>,
    /// The generator's shares of the masks of inputs.
    pub gen_inputs: Seq<AuthBitShare>,
    /// The evaluator's shares of the masks of inputs.
    pub eval_inputs: Seq<AuthBitShare>,
    /// The generator's shares for AND gates and triples.
    pub gen_shares: Seq<AuthBitShare>,
    /// The evaluator's shares for AND gates and triples.
    pub eval_shares: Seq<AuthBitShare>,
    /// The keys of the inputs.
    pub keys: Seq<Key>,
    /// The inputs.
    pub inputs: Seq<bool>,
}

impl Run {
    /// The shares authenticate each other and are enough for the circuit, and the least significant
    /// bits of the correlations are those that the parties choose.
    pub open spec fn is_honest(&self, circ: &Circuit) -> bool {
        let total = self.leaky(circ).0.len();
        &&& self.delta_a.block.low_bit()
        &&& !self.delta_b.block.low_bit()
        &&& self.gen_inputs.len() == circ.input_len()
        &&& self.eval_inputs.len() == circ.input_len()
        &&& self.keys.len() == circ.input_len()
        &&& self.inputs.len() == circ.input_len()
        &&& self.gen_shares.len() == self.eval_shares.len()
        &&& self.gen_shares.len() >= circ.and_len()
        &&& forall|w: int|
            0 <= w < self.gen_inputs.len() ==> paired(
                #[trigger] self.gen_inputs[w],
                self.eval_inputs[w],
                self.delta_a,
                self.delta_b,
            )
        &&& forall|c: int|
            0 <= c < self.gen_shares.len() ==> paired(
                #[trigger] self.gen_shares[c],
                self.eval_shares[c],
                self.delta_a,
                self.delta_b,
            )
        &&& self.bucket_size > 0
        &&& total as int % self.bucket_size == 0
        &&& total as int / self.bucket_size >= circ.and_len()
        &&& is_order(self.order, total)
    }

    /// The leaky triples of the parties after the first round.
    pub open spec fn leaky(&self, circ: &Circuit) -> (Seq<AuthTripleShare>, Seq<AuthTripleShare>) {
        (
            grouped(self.gen_shares.skip(circ.and_len() as int)),
            grouped(self.eval_shares.skip(circ.and_len() as int)),
        )
    }

    /// The values that the parties check in the second round, from what each sent in the first.
    pub open spec fn values(&self, circ: &Circuit, f: BlockFn) -> (Seq<Block>, Seq<Block>) {
        let (gens, evals) = self.leaky(circ);
        let (da, db) = (self.delta_a.block, self.delta_b.block);
        let (c_g, c_e) = (y_openings(gens, da), y_openings(evals, db));
        let sent_g = xor_all(c_g, key_masks(f, gens, da));
        let sent_e = xor_all(c_e, key_masks(f, evals, db));
        (
            check_values(gens, da, pair_masks(f, gens), c_g, sent_e),
            check_values(evals, db, pair_masks(f, evals), c_e, sent_g),
        )
    }

    /// Where the parties' check bits differ in the third round.
    pub open spec fn flips(&self, circ: &Circuit, f: BlockFn) -> Seq<bool> {
        let (values_g, values_e) = self.values(circ, f);
        differing(low_bits(values_g), low_bits(values_e), self.leaky(circ).0.len())
    }

    /// The leaky triples after the third round.
    pub open spec fn corrected_triples(&self, circ: &Circuit, f: BlockFn) -> (
        Seq<AuthTripleShare>,
        Seq<AuthTripleShare>,
    ) {
        let (gens, evals) = self.leaky(circ);
        let flips = self.flips(circ, f);
        (flipped_values(gens, flips), flipped_keys(evals, self.delta_b.block, flips))
    }

    /// The triples after the fourth round, from the bits that each opened.
    pub open spec fn triples(&self, circ: &Circuit, f: BlockFn) -> (
        Seq<AuthTripleShare>,
        Seq<AuthTripleShare>,
    ) {
        let (gens, evals) = self.corrected_triples(circ, f);
        let (d_g, d_e) = (
            bucket_bits(gens, self.order, self.bucket_size),
            bucket_bits(evals, self.order, self.bucket_size),
        );
        (
            merged_buckets(
                gens,
                self.order,
                self.bucket_size,
                differing(d_g, d_e, gens.len()),
            ),
            merged_buckets(
                evals,
                self.order,
                self.bucket_size,
                differing(d_e, d_g, evals.len()),
            ),
        )
    }

    /// The masked inputs: each input plus both shares of its mask.
    pub open spec fn masked_inputs(&self) -> Seq<bool> {
        Seq::new(
            self.inputs.len(),
            |w: int|
                (self.inputs[w] != self.gen_inputs[w].value) != self.eval_inputs[w].value,
        )
    }

    /// What the parties hold when the circuit is garbled and evaluated.
    pub open spec fn session(&self, circ: &Circuit, f: BlockFn) -> Session {
        let n = circ.gate_seq().len() as int;
        let no_bits = Seq::<AuthBitShare>::empty();
        let rooms = roomy(Seq::empty(), Seq::empty(), circ.feeds());
        Session {
            delta_a: self.delta_a,
            delta_b: self.delta_b,
            gen_bits: with_free_gates(
                start_bits(no_bits, circ, self.gen_inputs, self.gen_shares),
                circ.gate_seq(),
                n,
            ),
            eval_bits: with_free_gates(
                start_bits(no_bits, circ, self.eval_inputs, self.eval_shares),
                circ.gate_seq(),
                n,
            ),
            gen_triples: self.triples(circ, f).0,
            eval_triples: self.triples(circ, f).1,
            labels: overlaid(
                key_blocks(self.keys),
                grown(Seq::empty(), circ.feeds(), Block { bits: 0 }),
            ),
            active: overlaid(
                mac_blocks(macs_of(self.keys, self.masked_inputs(), self.delta_a)),
                rooms.0,
            ),
            masked: overlaid(self.masked_inputs(), rooms.1),
        }
    }

    /// What the evaluator ends with once it was handed all encrypted gates.
    pub open spec fn is_eval_output(
        &self,
        circ: &Circuit,
        f: BlockFn,
        h: TweakFn,
        output: AuthEvalOutput,
    ) -> bool {
        let n = circ.gate_seq().len() as int;
        let s = self.session(circ, f);
        let (labels, masked) = s.evaluated_after(circ, h, n);
        &&& mac_blocks(output.output_labels@) == labels.subrange(circ.out_start(), circ.out_end())
        &&& output.output_auth_bits@ == s.eval_bits.subrange(circ.out_start(), circ.out_end())
        &&& output.masked_output_values@ == masked.subrange(circ.out_start(), circ.out_end())
        &&& output.masked_values@ == masked
        &&& output.auth_hash == check_hash(
            h,
            circ.gate_seq(),
            s.eval_sigma_seq(circ),
            s.eval_bits,
            masked,
            self.delta_b.block,
            n,
        )
    }

    /// What the generator ends with once it was handed the masked values.
    pub open spec fn is_gen_output(
        &self,
        circ: &Circuit,
        f: BlockFn,
        h: TweakFn,
        masked_values: Seq<bool>,
        output: AuthGenOutput,
    ) -> bool {
        let n = circ.gate_seq().len() as int;
        let s = self.session(circ, f);
        &&& key_blocks(output.output_labels@) == s.labels_after(circ, h, n).subrange(
            circ.out_start(),
            circ.out_end(),
        )
        &&& output.output_auth_bits@ == s.gen_bits.subrange(circ.out_start(), circ.out_end())
        &&& output.auth_hash == check_hash(
            h,
            circ.gate_seq(),
            s.gen_sigma_seq(circ),
            s.gen_bits,
            masked_values,
            self.delta_a.block,
            n,
        )
    }
}

impl Run {
    /// The labels of output `k` differ by the correlation where its masked value is set, and the
    /// masked value, plus both shares of the mask, is the circuit's value.
    pub open spec fn decodes(
        &self,
        circ: &Circuit,
        gen_output: AuthGenOutput,
        eval_output: AuthEvalOutput,
        k: int,
    ) -> bool {
        let masked = eval_output.masked_output_values@[k];
        &&& gen_output.output_labels@[k].block.xor(eval_output.output_labels@[k].block)
            == self.delta_a.block.times(masked)
        &&& ((masked != gen_output.output_auth_bits@[k].value)
            != eval_output.output_auth_bits@[k].value) == circ.outputs_of(self.inputs)[k]
    }
}

/// The rounds before garbling leave the parties ready.
proof fn lemma_run_ready(run: Run, circ: &Circuit, f: BlockFn)
    requires
        circ.wf(),
        run.is_honest(circ),
    ensures
        run.session(circ, f).is_ready(circ, run.inputs),
        corrected(run.values(circ, f).0, run.delta_a.block, run.flips(circ, f)) == corrected(
            run.values(circ, f).1,
            run.delta_b.block,
            run.flips(circ, f),
        ),
{
    let (a, b) = (run.delta_a, run.delta_b);
    let (gens, evals) = run.leaky(circ);
    let skip = circ.and_len() as int;
    let s = run.session(circ, f);
    let no_bits = Seq::<AuthBitShare>::empty();
    circ.lemma_wf();
    lemma_low_bit(a.block, b.block);
    assert(all_paired(gens, evals, a, b)) by {
        assert forall|i: int| 0 <= i < gens.len() implies #[trigger] triple_paired(
            gens[i],
            evals[i],
            a,
            b,
        ) by {
            let k = skip + 3 * i;
            assert(paired(run.gen_shares[k], run.eval_shares[k], a, b));
            assert(paired(run.gen_shares[k + 1], run.eval_shares[k + 1], a, b));
            assert(paired(run.gen_shares[k + 2], run.eval_shares[k + 2], a, b));
        }
    }
    lemma_checked_triples(f, gens, evals, a, b);
    let (good_g, good_e) = run.corrected_triples(circ, f);
    lemma_combined_triples(good_g, good_e, run.order, run.bucket_size, a, b);
    let (d_g, d_e) = (
        bucket_bits(good_g, run.order, run.bucket_size),
        bucket_bits(good_e, run.order, run.bucket_size),
    );
    assert(differing(d_e, d_g, good_e.len()) =~= differing(d_g, d_e, good_g.len()));
    lemma_preprocessed_wires(
        circ,
        (no_bits, no_bits),
        (run.gen_inputs, run.eval_inputs),
        (run.gen_shares, run.eval_shares),
        a,
        b,
    );
    assert forall|w: int| 0 <= w < circ.input_len() implies {
        &&& #[trigger] s.masked[w] == (run.inputs[w] != s.mask(w))
        &&& s.active[w] == s.labels[w].xor(a.block.times(s.masked[w]))
    } by {
        assert(s.gen_bits[w] == run.gen_inputs[w]);
    }
}

/// An honest run of authenticated garbling, through all rounds, computes the circuit: the values
/// that the parties check are equal, their hashes are equal, the labels of each output differ by the
/// correlation where the masked value is set, and each masked output, plus both shares of its mask,
/// is the circuit's value.
pub proof fn lemma_honest_run(
    run: Run,
    circ: &Circuit,
    f: BlockFn,
    h: TweakFn,
    gen_output: AuthGenOutput,
    eval_output: AuthEvalOutput,
)
    requires
        circ.wf(),
        run.is_honest(circ),
        run.is_eval_output(circ, f, h, eval_output),
        run.is_gen_output(circ, f, h, eval_output.masked_values@, gen_output),
    ensures
        corrected(run.values(circ, f).0, run.delta_a.block, run.flips(circ, f)) == corrected(
            run.values(circ, f).1,
            run.delta_b.block,
            run.flips(circ, f),
        ),
        gen_output.auth_hash == eval_output.auth_hash,
        gen_output.output_labels@.len() == circ.output_len(),
        eval_output.output_labels@.len() == circ.output_len(),
        forall|k: int|
            0 <= k < circ.output_len() ==> #[trigger] run.decodes(
                circ,
                gen_output,
                eval_output,
                k,
            ),
{
    let s = run.session(circ, f);
    let n = circ.gate_seq().len() as int;
    circ.lemma_wf();
    lemma_run_ready(run, circ, f);
    lemma_authenticated_garbling(s, circ, h, run.inputs);
    lemma_masked_wires(s, circ, h, run.inputs, n);
    let labels = s.labels_after(circ, h, n);
    let (active, masked) = s.evaluated_after(circ, h, n);
    assert(key_blocks(gen_output.output_labels@).len() == gen_output.output_labels@.len());
    assert(mac_blocks(eval_output.output_labels@).len() == eval_output.output_labels@.len());
    assert forall|k: int| 0 <= k < circ.output_len() implies #[trigger] run.decodes(
        circ,
        gen_output,
        eval_output,
        k,
    ) by {
        let w = circ.out_start() + k;
        assert(key_blocks(gen_output.output_labels@)[k] == labels[w]);
        assert(mac_blocks(eval_output.output_labels@)[k] == active[w]);
        assert(masked[w] == (circ.outputs_of(run.inputs)[k] != s.mask(w)));
        assert(active[w] == labels[w].xor(run.delta_a.block.times(masked[w])));
        let d = run.delta_a.block.times(masked[w]);
        lemma_xor(d, labels[w], labels[w]);
        lemma_xor(labels[w], d, d);
        lemma_xor(labels[w], labels[w], d);
        lemma_xor(d, Block { bits: 0 }, d);
    }
}

/// A batch has its full size: its gates are those of the table in order, and behind the last of these
/// every gate of the batch is zero.
pub proof fn lemma_batch_gates(table: Seq<AuthHalfGate>, done: nat, n: nat, i: int)
    requires
        0 <= i < n,
    ensures
        auth_batch_of(table, done, n).len() == n,
        ({
            let r = auth_batch_of(table, done, n)[i];
            if done + i < table.len() {
                r == table[done + i]
            } else {
                r.left_row.bits == 0 && r.right_row.bits == 0 && !r.mask
            }
        }),
{
}

} // verus!
