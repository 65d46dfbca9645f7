//! What the generator and the evaluator of authenticated garbling have in common.

use vstd::prelude::*;

use crate::block::{tweak_of, Block};
use crate::circuit::{ands, gate_ok, lemma_ands_bound, Circuit, Gate};
use crate::correlated::Delta;
use crate::hash::{
    block_fn, block_hash, is_block_hash, is_tweak_hash, tweak_fn, tweak_hash, TweakFn,
};
use crate::shares::{sum, zero_share, AuthBitShare, AuthTripleShare};
use crate::triples::{key_mask, key_masks, overlaid, pair_mask, pair_masks};

verus! {

/// The masks of the first round of the triple check.
pub fn hash_keys<C: Fn(Block) -> Block>(
    triples: &Vec<AuthTripleShare>,
    delta: &Delta,
    cipher: &C,
) -> (r: Vec<Block>)
    requires
        is_block_hash(*cipher),
    ensures
        r@ == key_masks(block_fn(*cipher), triples@, delta.block),
{
    let mut masks: Vec<Block> = Vec::with_capacity(triples.len());
    let ghost want = key_masks(block_fn(*cipher), triples@, delta.block);
    for i in 0..triples.len()
        invariant
            is_block_hash(*cipher),
            want == key_masks(block_fn(*cipher), triples@, delta.block),
            masks@ == want.take(i as int),
    {
        masks.push(h2d(*triples[i].x.key.as_block(), delta.into_inner(), cipher));
        assert(masks@ =~= want.take(i + 1));
    }
    assert(want.take(triples.len() as int) =~= want);
    masks
}

/// The masks of the second round of the triple check.
pub fn hash_pairs<C: Fn(Block) -> Block>(triples: &Vec<AuthTripleShare>, cipher: &C) -> (r: Vec<
    Block,
>)
    requires
        is_block_hash(*cipher),
    ensures
        r@ == pair_masks(block_fn(*cipher), triples@),
{
    let mut masks: Vec<Block> = Vec::with_capacity(triples.len());
    let ghost want = pair_masks(block_fn(*cipher), triples@);
    for i in 0..triples.len()
        invariant
            is_block_hash(*cipher),
            want == pair_masks(block_fn(*cipher), triples@),
            masks@ == want.take(i as int),
    {
        masks.push(h2(*triples[i].x.mac.as_block(), *triples[i].x.key.as_block(), cipher));
        assert(masks@ =~= want.take(i + 1));
    }
    assert(want.take(triples.len() as int) =~= want);
    masks
}

// hash helper
fn h2d<C: Fn(Block) -> Block>(a: Block, b: Block, cipher: &C) -> (r: Block)
    requires
        is_block_hash(*cipher),
    ensures
        r == key_mask(block_fn(*cipher), a, b),
{
    let d_0 = block_hash(cipher, a);
    let d_1 = block_hash(cipher, a ^ b);
    d_0 ^ d_1 ^ b
}

// hash helper
fn h2<C: Fn(Block) -> Block>(a: Block, b: Block, cipher: &C) -> (r: Block)
    requires
        is_block_hash(*cipher),
    ensures
        r == pair_mask(block_fn(*cipher), a, b),
{
    let d_0 = block_hash(cipher, a);
    let d_1 = block_hash(cipher, b);
    d_0 ^ d_1 ^ a ^ b
}

/// The shares of the wires once the AND gates among the first `n` gates have their shares.
pub open spec fn with_and_shares(
    bits: Seq<AuthBitShare>,
    gates: Seq<Gate>,
    shares: Seq<AuthBitShare>,
    n: int,
) -> Seq<AuthBitShare>
    decreases n,
{
    if n <= 0 {
        bits
    } else {
        let before = with_and_shares(bits, gates, shares, n - 1);
        if gates[n - 1] is And {
            before.update(gates[n - 1].out(), shares[ands(gates, n - 1) as int])
        } else {
            before
        }
    }
}

/// The shares of the wires before the free gates are computed: those of the inputs, then those of
/// the AND gates.
pub open spec fn start_bits(
    bits: Seq<AuthBitShare>,
    circ: &Circuit,
    inputs: Seq<AuthBitShare>,
    shares: Seq<AuthBitShare>,
) -> Seq<AuthBitShare> {
    with_and_shares(
        overlaid(inputs, grown(bits, circ.feeds(), zero_share())),
        circ.gate_seq(),
        shares,
        circ.gate_seq().len() as int,
    )
}

/// Gives the inputs and the AND gates their shares; returns the number of AND gates.
pub fn assign_bits(
    bits: &mut Vec<AuthBitShare>,
    circ: &Circuit,
    inputs: &[AuthBitShare],
    shares: &[AuthBitShare],
) -> (r: usize)
    requires
        circ.wf(),
        inputs.len() == circ.input_len(),
        shares.len() >= circ.and_len(),
    ensures
        final(bits)@ == start_bits(old(bits)@, circ, inputs@, shares@),
        final(bits).len() >= circ.feeds(),
        r == circ.and_len(),
{
    proof {
        circ.lemma_wf();
    }
    store_front(bits, inputs, circ.feed_count(), AuthBitShare::default());
    let ghost start = bits@;
    let gates = circ.gates();
    let mut count: usize = 0;
    for i in 0..gates.len()
        invariant
            circ.wf(),
            gates@ == circ.gate_seq(),
            shares.len() >= circ.and_len(),
            count == ands(gates@, i as int),
            bits.len() >= circ.feeds(),
            bits@ == with_and_shares(start, gates@, shares@, i as int),
    {
        proof {
            circ.lemma_wf();
            assert(gate_ok(circ.input_len(), circ.feeds(), gates@, i as int));
            lemma_ands_bound(gates@, i + 1, gates@.len() as int);
        }
        match gates[i] {
            Gate::And { x: _, y: _, z } => {
                bits[z] = shares[count];
                count = count + 1;
            },
            _ => {},
        }
    }
    count
}

/// The shares of the wires once the free gates among the first `n` gates are computed.
pub open spec fn with_free_gates(bits: Seq<AuthBitShare>, gates: Seq<Gate>, n: int) -> Seq<
    AuthBitShare,
>
    decreases n,
{
    if n <= 0 {
        bits
    } else {
        let before = with_free_gates(bits, gates, n - 1);
        let gate = gates[n - 1];
        match gate {
            Gate::Xor { .. } => before.update(
                gate.out(),
                sum(before[gate.left()], before[gate.right()]),
            ),
            Gate::Inv { .. } => before.update(gate.out(), before[gate.left()]),
            Gate::Id { .. } => before.update(gate.out(), before[gate.left()]),
            Gate::And { .. } => before,
        }
    }
}

/// Computes the shares of the wires behind free gates.
pub fn compute_free_gates(bits: &mut Vec<AuthBitShare>, circ: &Circuit)
    requires
        circ.wf(),
        old(bits).len() >= circ.feeds(),
    ensures
        final(bits)@ == with_free_gates(
            old(bits)@,
            circ.gate_seq(),
            circ.gate_seq().len() as int,
        ),
        final(bits).len() == old(bits).len(),
{
    let gates = circ.gates();
    for i in 0..gates.len()
        invariant
            circ.wf(),
            gates@ == circ.gate_seq(),
            bits.len() == old(bits).len() >= circ.feeds(),
            bits@ == with_free_gates(old(bits)@, gates@, i as int),
    {
        proof {
            circ.lemma_wf();
            assert(gate_ok(circ.input_len(), circ.feeds(), gates@, i as int));
        }
        match gates[i] {
            Gate::Xor { x, y, z } => {
                let share = bits[x] + bits[y];
                bits[z] = share;
            },
            Gate::Inv { x, z } => {
                let share = bits[x];
                bits[z] = share;
            },
            Gate::Id { x, z } => {
                let share = bits[x];
                bits[z] = share;
            },
            Gate::And { .. } => {
                // AND gates are handled separately
            },
        }
    }
}

/// The bits that a party sends for the AND gates among the first `n` gates: its shares of the
/// operands, each plus its share of the triple's component.
pub open spec fn derand_bits(
    bits: Seq<AuthBitShare>,
    triples: Seq<AuthTripleShare>,
    gates: Seq<Gate>,
    n: int,
) -> (Seq<bool>, Seq<bool>)
    decreases n,
{
    if n <= 0 {
        (Seq::empty(), Seq::empty())
    } else {
        let (px, py) = derand_bits(bits, triples, gates, n - 1);
        let gate = gates[n - 1];
        let t = triples[ands(gates, n - 1) as int];
        if gate is And {
            (
                px.push(bits[gate.left()].value != t.x.value),
                py.push(bits[gate.right()].value != t.y.value),
            )
        } else {
            (px, py)
        }
    }
}

/// Computes the bits that a party sends.
pub fn compute_derand_bits(
    bits: &Vec<AuthBitShare>,
    triples: &Vec<AuthTripleShare>,
    circ: &Circuit,
) -> (r: (Vec<bool>, Vec<bool>))
    requires
        circ.wf(),
        bits.len() >= circ.feeds(),
        triples.len() >= circ.and_len(),
    ensures
        (r.0@, r.1@) == derand_bits(
            bits@,
            triples@,
            circ.gate_seq(),
            circ.gate_seq().len() as int,
        ),
{
    let mut px: Vec<bool> = Vec::new();
    let mut py: Vec<bool> = Vec::new();
    let mut and_count: usize = 0;
    let gates = circ.gates();
    for i in 0..gates.len()
        invariant
            circ.wf(),
            gates@ == circ.gate_seq(),
            bits.len() >= circ.feeds(),
            triples.len() >= circ.and_len(),
            and_count == ands(gates@, i as int),
            (px@, py@) == derand_bits(bits@, triples@, gates@, i as int),
    {
        proof {
            circ.lemma_wf();
            assert(gate_ok(circ.input_len(), circ.feeds(), gates@, i as int));
            lemma_ands_bound(gates@, i + 1, gates@.len() as int);
        }
        match gates[i] {
            Gate::And { x, y, .. } => {
                let sx = bits[x];
                let sy = bits[y];
                let triple = triples[and_count];
                px.push(sx.bit() ^ triple.x.bit());
                py.push(sy.bit() ^ triple.y.bit());
                and_count = and_count + 1;
            },
            _ => {},
        }
    }
    (px, py)
}

/// A party's part of the check that the masked value of an AND gate is right.
///
/// `ss` is the share of the product of the operands' masks, `za`, `zb` and `zc` are masked values.
pub open spec fn check_share(
    ss: AuthBitShare,
    sz: AuthBitShare,
    sx: AuthBitShare,
    sy: AuthBitShare,
    za: bool,
    zb: bool,
    zc: bool,
    delta: Block,
) -> Block {
    ss.opening(delta).xor(sz.opening(delta)).xor(sy.opening(delta).times(za)).xor(
        sx.opening(delta).times(zb),
    ).xor(delta.times((za && zb) != zc))
}

/// Computes a party's part of the check of an AND gate.
pub fn check_and(
    ss: &AuthBitShare,
    sz: &AuthBitShare,
    sx: &AuthBitShare,
    sy: &AuthBitShare,
    za: bool,
    zb: bool,
    zc: bool,
    delta: Block,
) -> (r: Block)
    ensures
        r == check_share(*ss, *sz, *sx, *sy, za, zb, zc, delta),
{
    // Start with combined share of sigma and z
    let mut share = ss.open_with(&delta) ^ sz.open_with(&delta);
    proof {
        crate::block::lemma_xor(share, share, share);
    }
    // Apply adjustments based on masked values
    if za {
        share = share ^ sy.open_with(&delta);
    }
    proof {
        crate::block::lemma_xor(share, share, share);
    }
    if zb {
        share = share ^ sx.open_with(&delta);
    }
    proof {
        crate::block::lemma_xor(share, share, share);
    }
    if (za && zb) != zc {
        share = share ^ delta;
    }
    share
}

/// A party's hash of its checks of the AND gates among the first `n` gates.
pub open spec fn check_hash(
    h: TweakFn,
    gates: Seq<Gate>,
    sigmas: Seq<AuthBitShare>,
    bits: Seq<AuthBitShare>,
    masked: Seq<bool>,
    delta: Block,
    n: int,
) -> Block
    decreases n,
{
    if n <= 0 {
        Block { bits: 0 }
    } else {
        let before = check_hash(h, gates, sigmas, bits, masked, delta, n - 1);
        let gate = gates[n - 1];
        let count = ands(gates, n - 1);
        if gate is And {
            let (x, y, z) = (gate.left(), gate.right(), gate.out());
            before.xor(
                h(
                    tweak_of(count as u128),
                    check_share(
                        sigmas[count as int],
                        bits[z],
                        bits[x],
                        bits[y],
                        masked[x],
                        masked[y],
                        masked[z],
                        delta,
                    ),
                ),
            )
        } else {
            before
        }
    }
}

/// Computes a party's hash of its checks.
pub fn compute_check_hash<H: Fn(Block, Block) -> Block>(
    cipher: &H,
    circ: &Circuit,
    sigmas: &Vec<AuthBitShare>,
    bits: &Vec<AuthBitShare>,
    masked: &Vec<bool>,
    delta: &Delta,
) -> (r: Block)
    requires
        is_tweak_hash(*cipher),
        circ.wf(),
        sigmas.len() >= circ.and_len(),
        bits.len() >= circ.feeds(),
        masked.len() >= circ.feeds(),
    ensures
        r == check_hash(
            tweak_fn(*cipher),
            circ.gate_seq(),
            sigmas@,
            bits@,
            masked@,
            delta.block,
            circ.gate_seq().len() as int,
        ),
{
    let mut auth_hash = Block::zero();
    let mut and_count: usize = 0;
    let gates = circ.gates();
    for i in 0..gates.len()
        invariant
            is_tweak_hash(*cipher),
            circ.wf(),
            gates@ == circ.gate_seq(),
            sigmas.len() >= circ.and_len(),
            bits.len() >= circ.feeds(),
            masked.len() >= circ.feeds(),
            and_count == ands(gates@, i as int),
            auth_hash == check_hash(
                tweak_fn(*cipher),
                gates@,
                sigmas@,
                bits@,
                masked@,
                delta.block,
                i as int,
            ),
    {
        proof {
            circ.lemma_wf();
            assert(gate_ok(circ.input_len(), circ.feeds(), gates@, i as int));
            lemma_ands_bound(gates@, i + 1, gates@.len() as int);
        }
        match gates[i] {
            Gate::And { x, y, z } => {
                let share = check_and(
                    &sigmas[and_count],
                    &bits[z],
                    &bits[x],
                    &bits[y],
                    masked[x],
                    masked[y],
                    masked[z],
                    *delta.as_block(),
                );
                // Update hash
                let tweak = Block::tweak(and_count as u128);
                auth_hash = auth_hash ^ tweak_hash(cipher, tweak, share);
                and_count = and_count + 1;
            },
            _ => {},
        }
    }
    auth_hash
}

/// The bits that are received for the AND gates are enough.
pub fn derand_count(px: &Vec<bool>, py: &Vec<bool>) -> (r: usize)
    ensures
        r == if px.len() <= py.len() {
            px.len()
        } else {
            py.len()
        },
{
    if px.len() <= py.len() {
        px.len()
    } else {
        py.len()
    }
}

/// Stores the elements at the front of a buffer, which grows to `n` elements if it is smaller.
pub fn store_front<T: Copy>(buffer: &mut Vec<T>, items: &[T], n: usize, filler: T)
    requires
        items.len() <= n,
    ensures
        final(buffer)@ == overlaid(items@, grown(old(buffer)@, n as nat, filler)),
{
    while buffer.len() < n
        invariant
            buffer@ == grown(old(buffer)@, buffer.len() as nat, filler),
            buffer.len() >= old(buffer).len(),
            buffer.len() <= n || buffer@ == old(buffer)@,
        decreases n - buffer.len(),
    {
        buffer.push(filler);
        assert(buffer@ =~= grown(old(buffer)@, buffer.len() as nat, filler));
    }
    assert(buffer@ =~= grown(old(buffer)@, n as nat, filler));
    let ghost room = buffer@;
    for i in 0..items.len()
        invariant
            items.len() <= buffer.len() == room.len(),
            forall|k: int|
                0 <= k < room.len() ==> #[trigger] buffer@[k] == if k < i {
                    items@[k]
                } else {
                    room[k]
                },
    {
        buffer[i] = items[i];
    }
    assert(buffer@ =~= overlaid(items@, room));
}

/// The buffer, with fillers up to `n` elements.
pub open spec fn grown<T>(buffer: Seq<T>, n: nat, filler: T) -> Seq<T> {
    if n > buffer.len() {
        buffer + Seq::new((n - buffer.len()) as nat, |i: int| filler)
    } else {
        buffer
    }
}

} // verus!
