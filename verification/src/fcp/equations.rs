//! The equations that the compressed protocol meets: what each vector, message and share is made of.

use vstd::prelude::*;

use crate::block::{
    lemma_bytes_of, lemma_bytes_round_trip, lemma_low_bit_is_parity, lemma_with_low_bit, lemma_xor,
    Block,
};
use crate::block_vole::{bit_correlated, field_correlated, lemma_correlations, rows_drawn};
use crate::fcp::evaluator::{
    b_bar_of, blake3_digest, lemma_subtraction_property, row_difference, witness_bytes, FcpEval,
};
use crate::fcp::generator::{
    has_a_bar, FcpGen, FcpOutput, Step12Output, Step13Messages, Step13Output,
};
use crate::fcp::ideal::{
    commitment, correlate, full_input, is_fcp_run, is_steps_8_9, ring_gates, run_drawn, step2_drawn,
    Steps89Output,
};
use crate::fcp::matrix::{is_seeded, products, BinaryMatrix};
use crate::gf2_128::{gf_one, gf_product, lemma_product_associates, lemma_product_one};
use crate::rng::SeededRng;

verus! {

/// What B commits to determines β and b̃, so that no two pairs give one witness, and the commitment is
/// the first half of the digest of the witness.
pub proof fn lemma_witness(beta: Block, b: Seq<bool>, other: Block, c: Seq<bool>)
    ensures
        witness_bytes(beta, b) == witness_bytes(other, c) ==> beta == other && b == c,
        ({
            let digest = blake3_digest(witness_bytes(beta, b));
            digest.len() >= 16 ==> commitment(beta, b).bytes() == digest.take(16)
        }),
{
    let (s, t) = (witness_bytes(beta, b), witness_bytes(other, c));
    if s == t {
        assert(s.len() == 17 + b.len() && t.len() == 17 + c.len());
        assert forall|i: int| 0 <= i < 16 implies beta.bytes()[i] == other.bytes()[i] by {
            assert(s[i] == beta.bytes()[i] && t[i] == other.bytes()[i]);
        }
        assert(beta.bytes() =~= other.bytes());
        lemma_bytes_round_trip(beta);
        lemma_bytes_round_trip(other);
        assert forall|i: int| 0 <= i < b.len() implies b[i] == c[i] by {
            assert(s[17 + i] == (if b[i] {
                1u8
            } else {
                0u8
            }));
            assert(t[17 + i] == (if c[i] {
                1u8
            } else {
                0u8
            }));
        }
        assert(b =~= c);
    }
    let digest = blake3_digest(s);
    if digest.len() >= 16 {
        lemma_bytes_of(digest.take(16));
    }
}

/// The elements of b̄ differ from its last one, which is γ, by β times the bits of b̃; the last but one
/// differs by β.
pub proof fn lemma_b_bar(b_tilde: Seq<bool>, beta: Block, gamma: Block, i: int)
    requires
        0 <= i < b_tilde.len(),
    ensures
        ({
            let b_bar = b_bar_of(b_tilde, beta, gamma);
            let l = b_tilde.len() as int;
            &&& b_bar.len() == l + 2
            &&& b_bar[l + 1] == gamma
            &&& b_bar[l].xor(gamma) == beta
            &&& b_bar[i].xor(gamma) == beta.times(b_tilde[i])
        }),
{
    lemma_xor(beta, gamma, gamma);
    lemma_xor(beta.times(b_tilde[i]), gamma, gamma);
}

/// ā holds A's masks, the products of the masks that the gates read, and â, in this order.
pub proof fn lemma_a_bar(
    before: FcpGen,
    after: FcpGen,
    a: Seq<bool>,
    gate_indices: Seq<(usize, usize)>,
    a_hat: Seq<bool>,
    k: int,
)
    requires
        has_a_bar(before, after, a, gate_indices, a_hat),
        0 <= k < gate_indices.len(),
        gate_indices.len() == a.len() == a_hat.len(),
        gate_indices[k].0 < a.len(),
        gate_indices[k].1 < a.len(),
    ensures
        ({
            let n = a.len() as int;
            &&& after.a_bar@.len() == 3 * n
            &&& after.a_bar@[k] == a[k]
            &&& after.a_bar@[n + k] == (a[gate_indices[k].0 as int] && a[gate_indices[k].1 as int])
            &&& after.a_bar@[2 * n + k] == a_hat[k]
            &&& after.a@ == a && after.a_hat@ == a_hat
        }),
{
}

/// What B extracts by subtracting rows of the block VOLEs: A's element times β, up to the sum of A's
/// masks in those rows. The first row gives it only if the first bit of b̃ is set.
pub proof fn lemma_extracted(
    a: Seq<bool>,
    e: Seq<Block>,
    b_tilde: Seq<bool>,
    beta: Block,
    gamma: Block,
    c: Seq<Vec<Block>>,
    v: Seq<Vec<Block>>,
    at: int,
)
    requires
        b_tilde.len() > 0,
    ensures
        ({
            let b_bar = b_bar_of(b_tilde, beta, gamma);
            let l = b_tilde.len() as int;
            &&& bit_correlated(a, b_bar, c, v) && 0 <= at < a.len() ==> row_difference(
                v,
                l,
                l + 1,
                at,
            ).xor(c[l]@[at].xor(c[l + 1]@[at])) == beta.times(a[at])
            &&& field_correlated(e, b_bar, c, v) && 0 <= at < e.len() ==> {
                &&& row_difference(v, l, l + 1, at).xor(c[l]@[at].xor(c[l + 1]@[at]))
                    == gf_product(e[at], beta)
                &&& row_difference(v, 0, l + 1, at).xor(c[0]@[at].xor(c[l + 1]@[at]))
                    == gf_product(e[at], beta).times(b_tilde[0])
            }
        }),
{
    let b_bar = b_bar_of(b_tilde, beta, gamma);
    let l = b_tilde.len() as int;
    lemma_b_bar(b_tilde, beta, gamma, 0);
    if bit_correlated(a, b_bar, c, v) && 0 <= at < a.len() {
        crate::block_vole::lemma_same_input(a, b_bar, c, v, l, l + 1, at);
        assert(v[0]@.len() == a.len());
        let masks = c[l]@[at].xor(c[l + 1]@[at]);
        let d = beta.times(a[at]);
        lemma_xor(masks, d, d);
        lemma_xor(d, masks, masks);
    }
    if field_correlated(e, b_bar, c, v) && 0 <= at < e.len() {
        let column = Seq::new(c.len(), |r: int| c[r]@[at]);
        lemma_subtraction_property(e[at], b_tilde, beta, gamma, column, 0);
        assert(v[0]@ == crate::block_vole::field_row(e, b_bar[0], c[0]@));
        assert(v[l]@ == crate::block_vole::field_row(e, b_bar[l], c[l]@));
        assert(v[l + 1]@ == crate::block_vole::field_row(e, b_bar[l + 1], c[l + 1]@));
        assert(c[0]@.len() == e.len());
        let masks = c[l]@[at].xor(c[l + 1]@[at]);
        let d = gf_product(e[at], beta);
        lemma_xor(masks, d, d);
        lemma_xor(d, masks, masks);
        let masks = c[0]@[at].xor(c[l + 1]@[at]);
        let d = gf_product(e[at], beta).times(b_tilde[0]);
        lemma_xor(masks, d, d);
        lemma_xor(d, masks, masks);
    }
}

/// A's messages of Step 13 hide α times an element of ā behind two of A's masks: the products by rows
/// 0 and 3, and â by rows 1 and 4.
pub proof fn lemma_messages(gen: FcpGen, k: int)
    requires
        gen.c_subfield@.len() >= 5,
        gen.a_bar@.len() == 3 * gen.config.num_and_gates,
        forall|r: int| 0 <= r < 5 ==> (#[trigger] gen.c_subfield@[r])@.len() == gen.a_bar@.len(),
        0 <= k < gen.config.num_and_gates,
    ensures
        ({
            let n = gen.config.num_and_gates as int;
            let (c, alpha) = (gen.c_subfield@, gen.delta.block);
            &&& gen.first_message(k).xor(c[3]@[n + k]).xor(c[0]@[n + k]) == alpha.times(
                gen.a_bar@[n + k],
            )
            &&& gen.second_message(k).xor(c[4]@[2 * n + k]).xor(c[1]@[2 * n + k]) == alpha.times(
                gen.a_bar@[2 * n + k],
            )
        }),
{
    let n = gen.config.num_and_gates as int;
    let (c, alpha) = (gen.c_subfield@, gen.delta.block);
    assert(c[0]@.len() == 3 * n);
    let p = alpha.times(gen.a_bar@[n + k]);
    lemma_xor(p, c[0]@[n + k], p);
    lemma_xor(p.xor(c[0]@[n + k]), c[3]@[n + k], p);
    let q = alpha.times(gen.a_bar@[2 * n + k]);
    lemma_xor(q, c[1]@[2 * n + k], q);
    lemma_xor(q.xor(c[1]@[2 * n + k]), c[4]@[2 * n + k], q);
}

/// What B computes of the messages solves its equations: b̂ without the product of B's own masks, times
/// β, is v̂ + v_4 + m_1, and d̂ without d_{i,j}, times β, is v_2 + v_3 + v_5 + m_2.
pub proof fn lemma_step13_shares(
    eval: FcpEval,
    messages: Step13Messages,
    step12: Step12Output,
    gate_indices: Seq<(usize, usize)>,
    beta_inv: Block,
    k: int,
)
    requires
        gf_product(beta_inv, eval.delta.block) == gf_one(),
        0 <= k < eval.d_ij@.len(),
    ensures
        ({
            let beta = eval.delta.block;
            let (i, j) = (gate_indices[k].0 as int, gate_indices[k].1 as int);
            let both = eval.b_prime@[i] && eval.b_prime@[j];
            let b_hat = eval.b_hat_of(messages, step12, gate_indices, beta_inv, k);
            let d_hat = eval.d_hat_of(messages, step12, beta_inv, k);
            &&& gf_product(b_hat.xor(gf_one().times(both)), beta) == step12.v_hat@[k].xor(
                step12.v_4@[k],
            ).xor(messages.m_1@[k])
            &&& gf_product(d_hat.xor(eval.d_ij@[k]), beta) == step12.v_2@[k].xor(
                step12.v_3@[k],
            ).xor(step12.v_5@[k]).xor(messages.m_2@[k])
        }),
{
    let beta = eval.delta.block;
    let (i, j) = (gate_indices[k].0 as int, gate_indices[k].1 as int);
    let both = eval.b_prime@[i] && eval.b_prime@[j];
    let p = step12.v_hat@[k].xor(step12.v_4@[k]).xor(messages.m_1@[k]);
    lemma_xor(gf_product(p, beta_inv), gf_one().times(both), p);
    lemma_product_associates(p, beta_inv, beta);
    lemma_product_one(p);
    let q = step12.v_2@[k].xor(step12.v_3@[k]).xor(step12.v_5@[k]).xor(messages.m_2@[k]);
    lemma_xor(gf_product(q, beta_inv), eval.d_ij@[k], q);
    lemma_product_associates(q, beta_inv, beta);
    lemma_product_one(q);
}

/// What the outputs of a run are made of. A's shares of wires hold its masks and the expansion of its
/// keys; B's hold the expansions of the bits and blocks that the seed determines, by the matrix that
/// the seed determines; A's keys are correlated with those. A's shares of products hold what A chose.
pub proof fn lemma_fcp_parts(
    num_and: usize,
    seed: u64,
    beta: Block,
    a: Seq<bool>,
    m: BinaryMatrix,
    a_hat: Seq<bool>,
    a_hat_2: Seq<Block>,
    gen: FcpOutput,
    eval: FcpOutput,
    k: int,
)
    requires
        is_fcp_run(num_and, seed, beta, a, m, a_hat, a_hat_2, gen, eval),
        0 <= k < num_and,
    ensures
        ({
            let n = num_and as nat;
            let (b_tilde, rng) = (SeededRng { seed, position: 0 }).bits_drawn(m.cols as nat);
            let d_tilde = rng.blocks_drawn(m.cols as nat).0;
            let w_tilde = Seq::new(
                m.cols as nat,
                |i: int| d_tilde[i].xor(beta.times(b_tilde[i])),
            );
            let next = if k + 1 == num_and {
                0int
            } else {
                k + 1
            };
            let (g, e) = (gen.wire_shares@, eval.wire_shares@);
            &&& is_seeded(m, num_and, m.cols, seed)
            &&& g.len() == n && e.len() == n
            &&& gen.triple_shares@.len() == n && eval.triple_shares@.len() == n
            &&& g[k].value == a[k] && g[k].key.block == m.times_blocks(w_tilde)[k]
            &&& e[k].value == m.times_bits(b_tilde)[k] && e[k].mac.block == m.times_blocks(
                d_tilde,
            )[k]
            &&& gen.triple_shares@[k].x == g[k] && gen.triple_shares@[k].y == g[next]
            &&& eval.triple_shares@[k].x == e[k] && eval.triple_shares@[k].y == e[next]
            &&& gen.triple_shares@[k].z.value == a_hat[k]
            &&& gen.triple_shares@[k].z.key.block == a_hat_2[k]
            &&& eval.triple_shares@[k].z.mac.block == (SeededRng {
                seed: (seed + 1) as u64,
                position: 0,
            }).blocks_drawn(n).0[k]
        }),
{
    let (b_tilde, d_tilde) = step2_drawn(m.cols as nat, seed);
    let rng = SeededRng { seed, position: 0 };
    rng.lemma_drawn_len(m.cols as nat);
    rng.bits_drawn(m.cols as nat).1.lemma_drawn_len(m.cols as nat);
    assert(correlate(b_tilde, d_tilde, beta) =~= Seq::new(
        m.cols as nat,
        |i: int| d_tilde[i].xor(beta.times(b_tilde[i])),
    ));
    let next = if k + 1 == num_and {
        0int
    } else {
        k + 1
    };
    assert((k + 1) % num_and as int == next) by {
        if k + 1 < num_and {
            vstd::arithmetic::div_mod::lemma_small_mod((k + 1) as nat, num_and as nat);
        } else {
            vstd::arithmetic::div_mod::lemma_mod_self_0(num_and as int);
        }
    }
    assert(ring_gates(num_and as nat)[k] == (k as usize, next as usize));
}

/// A's input to the full block VOLE holds α for each bit of ā that is set, then â₂, then α.
pub proof fn lemma_full_input(a_bar: Seq<bool>, a_hat_2: Seq<Block>, alpha: Block, i: int)
    requires
        0 <= i < a_bar.len(),
    ensures
        ({
            let full = full_input(a_bar, a_hat_2, alpha);
            &&& full.len() == a_bar.len() + a_hat_2.len() + 1
            &&& full[i] == if a_bar[i] {
                alpha
            } else {
                Block { bits: 0 }
            }
            &&& forall|k: int|
                0 <= k < a_hat_2.len() ==> full[a_bar.len() + k] == #[trigger] a_hat_2[k]
            &&& full.last() == alpha
        }),
{
}

/// B's products are those of the masks that the gates read, and A's keys for them are correlated with
/// them by α.
pub proof fn lemma_products(
    bits: Seq<bool>,
    gate_indices: Seq<(usize, usize)>,
    d_ij: Seq<Block>,
    alpha: Block,
    k: int,
)
    requires
        0 <= k < gate_indices.len() == d_ij.len(),
    ensures
        ({
            let b_ij = products(bits, gate_indices);
            let (i, j) = (gate_indices[k].0 as int, gate_indices[k].1 as int);
            &&& b_ij.len() == gate_indices.len()
            &&& b_ij[k] == (bits[i] && bits[j])
            &&& correlate(b_ij, d_ij, alpha)[k].xor(d_ij[k]) == alpha.times(bits[i] && bits[j])
        }),
{
    let b_ij = products(bits, gate_indices);
    let d = alpha.times(b_ij[k]);
    lemma_xor(d_ij[k], d, d);
    lemma_xor(d, d_ij[k], d_ij[k]);
}

/// What a run draws: two correlations, of which A's has its least significant bit set and B's has it
/// clear, and then A's masks.
pub proof fn lemma_run_draws(num_and: nat, rng: SeededRng)
    ensures
        ({
            let (alpha, beta, a, end) = run_drawn(num_and, rng);
            let (p, rng1) = rng.block_drawn();
            let (q, rng2) = rng1.block_drawn();
            &&& alpha.bits / 2 == p.bits / 2 && alpha.bits % 2 == 1
            &&& beta.bits / 2 == q.bits / 2 && beta.bits % 2 == 0
            &&& (a, end) == rng2.bits_drawn(num_and)
        }),
{
    let (p, rng1) = rng.block_drawn();
    let (q, rng2) = rng1.block_drawn();
    lemma_with_low_bit(p, true, true);
    lemma_with_low_bit(q, true, false);
    lemma_low_bit_is_parity(p, true);
    lemma_low_bit_is_parity(q, false);
}

/// What the block VOLEs of Steps 8-9 give: where A's masks are rows of the seed's stream, B's rows hold
/// these plus B's element times A's, which is a bit of ā for the first VOLE and an element of
/// α·ā ∪ â₂ ∪ {α} for the second one.
pub proof fn lemma_steps_8_9(
    before: FcpGen,
    after: FcpGen,
    b_bar: Seq<Block>,
    seed: u64,
    out: Steps89Output,
    i: int,
    j: int,
)
    requires
        is_steps_8_9(before, after, b_bar, seed, out),
        0 <= i < b_bar.len(),
    ensures
        ({
            let (a_bar, alpha) = (before.a_bar@, before.delta.block);
            let full = full_input(a_bar, after.a_hat_2@, alpha);
            let (rows, rng) = rows_drawn(
                (SeededRng { seed, position: 0 }),
                b_bar.len(),
                a_bar.len(),
            );
            &&& out.c_subfield@[i]@ == rows[i]
            &&& out.c_full@[i]@ == rows_drawn(rng, b_bar.len(), full.len()).0[i]
            &&& after.c_subfield@[i]@ == out.c_subfield@[i]@
            &&& after.c_full@[i]@ == out.c_full@[i]@
            &&& 0 <= j < a_bar.len() ==> out.v_subfield@[i]@[j].xor(out.c_subfield@[i]@[j])
                == b_bar[i].times(a_bar[j])
            &&& 0 <= j < full.len() ==> out.v_full@[i]@[j].xor(out.c_full@[i]@[j]) == gf_product(
                full[j],
                b_bar[i],
            )
        }),
{
    let (a_bar, alpha) = (before.a_bar@, before.delta.block);
    let full = full_input(a_bar, after.a_hat_2@, alpha);
    lemma_correlations(a_bar, full, b_bar, out.c_subfield@, out.v_subfield@, i, j);
    lemma_correlations(a_bar, full, b_bar, out.c_full@, out.v_full@, i, j);
}

/// What the final shares of the parties hold: A its masks with the expanded keys, and â with â₂; B the
/// expanded bits with the expanded MACs, and the least significant bit of b̂ with d̂.
pub proof fn lemma_final_shares(
    gen: FcpGen,
    eval: FcpEval,
    step13: Step13Output,
    gate_indices: Seq<(usize, usize)>,
    k: int,
)
    requires
        0 <= k < gate_indices.len(),
        gate_indices[k].0 < gen.a@.len() == gen.w@.len(),
        gate_indices[k].0 < eval.b_prime@.len() == eval.d_prime@.len(),
        gate_indices[k].1 < gen.a@.len(),
        gate_indices[k].1 < eval.b_prime@.len(),
        k < gen.a_hat@.len() && k < gen.a_hat_2@.len(),
        k < step13.b_hat@.len() && k < step13.d_hat@.len(),
    ensures
        ({
            let (i, j) = (gate_indices[k].0 as int, gate_indices[k].1 as int);
            let (g, e) = (
                gen.triple_share(gate_indices, k),
                eval.triple_share(step13, gate_indices, k),
            );
            let zero = Block { bits: 0 };
            &&& g.x == gen.mask_share(i) && g.y == gen.mask_share(j)
            &&& e.x == eval.mask_share(i) && e.y == eval.mask_share(j)
            &&& g.x.value == gen.a@[i] && g.x.key.block == gen.w@[i] && g.x.mac.block == zero
            &&& g.y.value == gen.a@[j] && g.y.key.block == gen.w@[j] && g.y.mac.block == zero
            &&& g.z.value == gen.a_hat@[k] && g.z.key.block == gen.a_hat_2@[k]
            &&& e.x.value == eval.b_prime@[i] && e.x.mac.block == eval.d_prime@[i]
            &&& e.y.value == eval.b_prime@[j] && e.y.mac.block == eval.d_prime@[j]
            &&& e.x.key.block == zero && e.y.key.block == zero
            &&& e.z.value == step13.b_hat@[k].low_bit() && e.z.mac.block == step13.d_hat@[k]
        }),
{
}

} // verus!
