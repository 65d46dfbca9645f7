//! The equations that the preprocessing meets: what its bits and triples are made of.

use vstd::prelude::*;

use crate::block::{lemma_low_bit_is_parity, lemma_xor};
use crate::correlated::Delta;
use crate::fpre::{
    auth_bit_built, auth_bits_built, auth_triples_built, checked_triples, cot_shares, is_fpre_run,
    FpreEval, FpreGen,
};
use crate::rng::SeededRng;
use crate::shares::AuthTripleShare;
use crate::triple_equations::{lemma_combined_parts, parity};
use crate::triples::{bucket_bits, differing, grouped, shuffled};

verus! {

/// The shares of the oblivious transfer hold, for each party, bits and keys that are drawn, and MACs
/// that are the other party's keys, plus the other's correlation where the bit is set.
pub proof fn lemma_cot_parts(length: nat, delta_a: Delta, delta_b: Delta, i: int)
    requires
        0 <= i < length,
    ensures
        ({
            let (gens, evals) = cot_shares(length, delta_a, delta_b);
            let (gen_bits, rng1) = (SeededRng { seed: 0, position: 0 }).bits_drawn(length);
            let (eval_keys, rng2) = rng1.blocks_drawn(length);
            let (eval_bits, rng3) = rng2.bits_drawn(length);
            let gen_keys = rng3.blocks_drawn(length).0;
            &&& gens.len() == length && evals.len() == length
            &&& gens[i].value == gen_bits[i] && evals[i].value == eval_bits[i]
            &&& gens[i].key.block == gen_keys[i] && evals[i].key.block == eval_keys[i]
            &&& gens[i].mac.block.xor(eval_keys[i]) == delta_b.block.times(gen_bits[i])
            &&& evals[i].mac.block.xor(gen_keys[i]) == delta_a.block.times(eval_bits[i])
        }),
{
    let rng = SeededRng { seed: 0, position: 0 };
    let (gen_bits, rng1) = rng.bits_drawn(length);
    let (eval_keys, rng2) = rng1.blocks_drawn(length);
    let (eval_bits, rng3) = rng2.bits_drawn(length);
    let gen_keys = rng3.blocks_drawn(length).0;
    rng.lemma_drawn_len(length);
    rng1.lemma_drawn_len(length);
    rng2.lemma_drawn_len(length);
    rng3.lemma_drawn_len(length);
    let (p, q) = (delta_b.block.times(gen_bits[i]), delta_a.block.times(eval_bits[i]));
    lemma_xor(eval_keys[i], p, p);
    lemma_xor(p, eval_keys[i], eval_keys[i]);
    lemma_xor(gen_keys[i], q, q);
    lemma_xor(q, gen_keys[i], gen_keys[i]);
}

/// Checking leaky triples changes nothing but their products: the generator's bit of a product may
/// flip, and the evaluator's key of it with that.
pub proof fn lemma_checked_parts(
    gens: Seq<AuthTripleShare>,
    evals: Seq<AuthTripleShare>,
    delta_a: Delta,
    delta_b: Delta,
    i: int,
)
    requires
        gens.len() == evals.len(),
        0 <= i < gens.len(),
    ensures
        ({
            let (g, e) = checked_triples(gens, evals, delta_a, delta_b);
            let flip = g[i].z.value != gens[i].z.value;
            &&& g.len() == gens.len() && e.len() == evals.len()
            &&& g[i].x == gens[i].x && g[i].y == gens[i].y
            &&& g[i].z.key == gens[i].z.key && g[i].z.mac == gens[i].z.mac
            &&& e[i].x == evals[i].x && e[i].y == evals[i].y
            &&& e[i].z.value == evals[i].z.value && e[i].z.mac == evals[i].z.mac
            &&& e[i].z.key.block == if flip {
                evals[i].z.key.block.xor(delta_b.block)
            } else {
                evals[i].z.key.block
            }
        }),
{
}

/// What a run of the preprocessing is made of: the first shares of the oblivious transfer are those of
/// the wires; the first component of a triple is the sum of those of all leaky triples of its bucket,
/// and the second one that of the first of them, where leaky triple `l` takes the shares `3l`, `3l + 1`
/// and `3l + 2` behind those of the wires and the agreed order fills the buckets.
pub proof fn lemma_run_parts(
    gen: FpreGen,
    eval: FpreEval,
    num_wires: usize,
    num_and: usize,
    bucket_size: usize,
    i: int,
    k: int,
)
    requires
        is_fpre_run(gen, eval, num_wires, num_and, bucket_size),
        bucket_size > 0,
        0 <= k < num_and,
        0 <= i < num_wires + num_and,
    ensures
        ({
            let size = bucket_size as int;
            let wires = num_wires + num_and;
            let total = (wires + num_and * (3 * bucket_size)) as nat;
            let (gens, evals) = cot_shares(total, gen.delta_a, eval.delta_b);
            let order = shuffled(0, (num_and * bucket_size) as nat);
            let place = |j: int| wires + 3 * order[k * size + j];
            let (g, e) = (gen.triple_shares@[k], eval.triple_shares@[k]);
            &&& gen.wire_shares@[i] == gens[i] && eval.wire_shares@[i] == evals[i]
            &&& (forall|l: int|
                0 <= l < num_and * bucket_size ==> #[trigger] order[l] < num_and * bucket_size)
                ==> {
                &&& g.x.value == parity(|j: int| gens[place(j)].value, bucket_size as nat)
                &&& e.x.value == parity(|j: int| evals[place(j)].value, bucket_size as nat)
                &&& g.y == gens[place(0) + 1] && e.y == evals[place(0) + 1]
            }
        }),
{
    let size = bucket_size as int;
    let wires = (num_wires + num_and) as int;
    let count = num_and * bucket_size;
    assert(num_and * (3 * bucket_size) == 3 * count && count >= 0) by (nonlinear_arith)
        requires
            count == num_and * bucket_size,
            num_and >= 0,
            bucket_size >= 0,
    ;
    let total = (wires + num_and * (3 * bucket_size)) as nat;
    let (gens, evals) = cot_shares(total, gen.delta_a, eval.delta_b);
    if total > 0 {
        lemma_cot_parts(total, gen.delta_a, eval.delta_b, 0);
    }
    let (lg, le) = (grouped(gens.skip(wires)), grouped(evals.skip(wires)));
    assert(lg.len() == count && le.len() == count);
    let (cg, ce) = checked_triples(lg, le, gen.delta_a, eval.delta_b);
    assert(cg.len() == count && ce.len() == count);
    assert(count as int / size == num_and) by {
        vstd::arithmetic::div_mod::lemma_div_multiples_vanish(num_and as int, size);
        assert(count == size * num_and) by (nonlinear_arith)
            requires
                count == num_and * bucket_size,
                size == bucket_size,
        ;
    }
    let order = shuffled(0, count as nat);
    let bits = differing(
        bucket_bits(cg, order, size),
        bucket_bits(ce, order, size),
        count as nat,
    );
    lemma_combined_parts(cg, order, size, bits, k);
    lemma_combined_parts(ce, order, size, bits, k);
    if forall|l: int| 0 <= l < count ==> #[trigger] order[l] < count {
        let place = |j: int| wires + 3 * order[k * size + j];
        assert forall|j: int| 0 <= j < size implies #[trigger] cg[order[k * size + j] as int].x
            == gens[place(j)] && cg[order[k * size + j] as int].y == gens[place(j) + 1] by {
            lemma_place(num_and as int, size, k, j);
            let l = order[k * size + j] as int;
            lemma_checked_parts(lg, le, gen.delta_a, eval.delta_b, l);
            assert(lg[l].x == gens.skip(wires)[3 * l]);
        }
        assert forall|j: int| 0 <= j < size implies #[trigger] ce[order[k * size + j] as int].x
            == evals[place(j)] && ce[order[k * size + j] as int].y == evals[place(j) + 1] by {
            lemma_place(num_and as int, size, k, j);
            let l = order[k * size + j] as int;
            lemma_checked_parts(lg, le, gen.delta_a, eval.delta_b, l);
            assert(le[l].x == evals.skip(wires)[3 * l]);
        }
        let member_g = |j: int| cg[order[k * size + j] as int];
        let member_e = |j: int| ce[order[k * size + j] as int];
        let xg = |j: int| member_g(j).x;
        let xe = |j: int| member_e(j).x;
        lemma_same_parity(
            |j: int| xg(j).value,
            |j: int| gens[place(j)].value,
            bucket_size as nat,
        );
        lemma_same_parity(
            |j: int| xe(j).value,
            |j: int| evals[place(j)].value,
            bucket_size as nat,
        );
        assert(member_g(0).x == gens[place(0)] && member_e(0).x == evals[place(0)]);
    }
}

/// The places of a bucket are among all.
proof fn lemma_place(buckets: int, size: int, k: int, j: int)
    requires
        0 <= k < buckets,
        0 <= j < size,
    ensures
        0 <= k * size + j < buckets * size,
{
    assert(0 <= k * size + j < buckets * size) by (nonlinear_arith)
        requires
            0 <= k < buckets,
            0 <= j < size,
    ;
}

/// Equal bits have equal parity.
proof fn lemma_same_parity(a: spec_fn(int) -> bool, b: spec_fn(int) -> bool, n: nat)
    requires
        forall|j: int| 0 <= j < n ==> #[trigger] a(j) == b(j),
    ensures
        parity(a, n) == parity(b, n),
    decreases n,
{
    if n > 0 {
        lemma_same_parity(a, b, (n - 1) as nat);
        assert(a(n - 1) == b(n - 1));
    }
}

/// An authenticated bit that is built splits the bit by a coin: the generator holds the coin. The keys
/// are blocks that are drawn, without their least significant bits, and the MACs are those of the
/// shares' bits under the other party's key and correlation.
pub proof fn lemma_bit_parts(rng: SeededRng, x: bool, delta_a: Delta, delta_b: Delta)
    ensures
        ({
            let (bit, end) = auth_bit_built(rng, x, delta_a, delta_b);
            let (coin, rng1) = rng.coin_drawn();
            let (p, rng2) = rng1.block_drawn();
            let (q, rng3) = rng2.block_drawn();
            let (g, e) = (bit.gen_share, bit.eval_share);
            &&& end == rng3
            &&& bit.bit() == x
            &&& g.value == coin
            &&& e.key.block.bits / 2 == p.bits / 2 && e.key.block.bits % 2 == 0
            &&& g.key.block.bits / 2 == q.bits / 2 && g.key.block.bits % 2 == 0
            &&& g.mac.block.xor(e.key.block) == delta_b.block.times(g.value)
            &&& e.mac.block.xor(g.key.block) == delta_a.block.times(e.value)
        }),
{
    let (coin, rng1) = rng.coin_drawn();
    let (p, rng2) = rng1.block_drawn();
    let (q, rng3) = rng2.block_drawn();
    lemma_low_bit_is_parity(p, false);
    lemma_low_bit_is_parity(q, false);
    let (bit, _) = auth_bit_built(rng, x, delta_a, delta_b);
    let (g, e) = (bit.gen_share, bit.eval_share);
    let (d, f) = (delta_b.block.times(g.value), delta_a.block.times(e.value));
    lemma_xor(e.key.block, d, d);
    lemma_xor(d, e.key.block, e.key.block);
    lemma_xor(g.key.block, f, f);
    lemma_xor(f, g.key.block, g.key.block);
}

/// The bits and triples are built in turn: each bit is a coin, and each triple is two coins and their
/// product.
pub proof fn lemma_built_parts(
    rng: SeededRng,
    delta_a: Delta,
    delta_b: Delta,
    i: nat,
    n: nat,
)
    requires
        i < n,
    ensures
        ({
            let bits = auth_bits_built(rng, delta_a, delta_b, n).0;
            let (coin, next) = auth_bits_built(rng, delta_a, delta_b, i).1.coin_drawn();
            &&& auth_bits_built(rng, delta_a, delta_b, 0).1 == rng
            &&& bits.len() == n
            &&& bits[i as int].bit() == coin
            &&& (bits[i as int], auth_bits_built(rng, delta_a, delta_b, i + 1).1)
                == auth_bit_built(next, coin, delta_a, delta_b)
        }),
        ({
            let triples = auth_triples_built(rng, delta_a, delta_b, n).0;
            let (x, rng1) = auth_triples_built(rng, delta_a, delta_b, i).1.coin_drawn();
            let (y, rng2) = rng1.coin_drawn();
            let t = triples[i as int];
            &&& auth_triples_built(rng, delta_a, delta_b, 0).1 == rng
            &&& triples.len() == n
            &&& t.x.bit() == x && t.y.bit() == y && t.z.bit() == (x && y)
        }),
    decreases n,
{
    crate::fpre::lemma_built(rng, delta_a, delta_b, n);
    crate::fpre::lemma_built(rng, delta_a, delta_b, (n - 1) as nat);
    if i + 1 < n {
        lemma_built_parts(rng, delta_a, delta_b, i, (n - 1) as nat);
    }
}

} // verus!
