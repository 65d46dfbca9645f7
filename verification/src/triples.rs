//! Generation of authenticated triples: leaky triples are checked, corrected and combined.

use vstd::prelude::*;

use crate::block::{lemma_low_bit, lemma_xor, lemma_xor_times, Block};
use crate::correlated::{Delta, Key};
use crate::hash::BlockFn;
use crate::rng::SeededRng;
use crate::shares::{
    lemma_openings, lemma_sum_paired, shared_bit, sum, triple_of, triple_paired, AuthBitShare,
    AuthTripleShare,
};
use crate::triple_equations::draws_fit;

verus! {

/// The triples that consecutive shares make, three at a time.
pub open spec fn grouped(shares: Seq<AuthBitShare>) -> Seq<AuthTripleShare> {
    Seq::new(
        shares.len() / 3,
        |i: int|
            AuthTripleShare { x: shares[3 * i], y: shares[3 * i + 1], z: shares[3 * i + 2] },
    )
}

/// Appends the triples that the shares from `start` on make, three at a time.
pub fn push_grouped(triples: &mut Vec<AuthTripleShare>, shares: &[AuthBitShare], start: usize)
    requires
        start <= shares.len(),
    ensures
        final(triples)@ == old(triples)@ + grouped(shares@.skip(start as int)),
{
    let ghost rest = shares@.skip(start as int);
    let length: usize = (shares.len() - start) / 3;
    for i in 0..length
        invariant
            start <= shares.len(),
            length == (shares.len() - start) / 3,
            rest == shares@.skip(start as int),
            triples@ == old(triples)@ + grouped(rest).take(i as int),
    {
        let base: usize = start + 3 * i;
        triples.push(
            AuthTripleShare { x: shares[base], y: shares[base + 1], z: shares[base + 2] },
        );
        assert(triples@ =~= old(triples)@ + grouped(rest).take(i + 1));
    }
    assert(grouped(rest).take(length as int) =~= grouped(rest));
}

/// The openings of the second components.
pub open spec fn y_openings(triples: Seq<AuthTripleShare>, delta: Block) -> Seq<Block> {
    Seq::new(triples.len(), |i: int| triples[i].y.opening(delta))
}

/// The first sums of two sequences of blocks.
pub open spec fn xor_all(a: Seq<Block>, b: Seq<Block>) -> Seq<Block> {
    Seq::new(a.len(), |i: int| a[i].xor(b[i]))
}

/// The first round of the check: the openings, and the openings with masks.
pub fn check_round_1(triples: &Vec<AuthTripleShare>, delta: &Delta, masks: &Vec<Block>) -> (r: (
    Vec<Block>,
    Vec<Block>,
))
    requires
        masks.len() == triples.len(),
    ensures
        r.0@ == y_openings(triples@, delta.block),
        r.1@ == xor_all(y_openings(triples@, delta.block), masks@),
{
    let length: usize = triples.len();
    let mut c: Vec<Block> = Vec::with_capacity(length);
    let mut g: Vec<Block> = Vec::with_capacity(length);
    let ghost want = y_openings(triples@, delta.block);
    for i in 0..length
        invariant
            length == triples.len() == masks.len(),
            want == y_openings(triples@, delta.block),
            c@ == want.take(i as int),
            g@ == xor_all(want, masks@).take(i as int),
    {
        let y = triples[i].y;
        let c_i = *y.mac.as_block() ^ *y.key.as_block() ^ delta.mul_bool(y.bit());
        c.push(c_i);
        g.push(c_i ^ masks[i]);
        assert(c@ =~= want.take(i + 1));
        assert(g@ =~= xor_all(want, masks@).take(i + 1));
    }
    assert(want.take(length as int) =~= want);
    assert(xor_all(want, masks@).take(length as int) =~= xor_all(want, masks@));
    (c, g)
}

/// The value that a party checks for one triple in the second round.
pub open spec fn check_value(
    t: AuthTripleShare,
    delta: Block,
    mask: Block,
    c: Block,
    received: Block,
) -> Block {
    mask.xor(t.z.mac.block).xor(t.z.key.block).xor(received.xor(c).times(t.x.value)).xor(
        delta.times(t.z.value),
    )
}

/// The values that a party checks in the second round.
pub open spec fn check_values(
    triples: Seq<AuthTripleShare>,
    delta: Block,
    masks: Seq<Block>,
    c: Seq<Block>,
    received: Seq<Block>,
) -> Seq<Block> {
    Seq::new(
        triples.len(),
        |i: int| check_value(triples[i], delta, masks[i], c[i], received[i]),
    )
}

/// The least significant bits.
pub open spec fn low_bits(blocks: Seq<Block>) -> Seq<bool> {
    Seq::new(blocks.len(), |i: int| blocks[i].low_bit())
}

/// The elements of `head`, then those of `base` behind them.
pub open spec fn overlaid<T>(head: Seq<T>, base: Seq<T>) -> Seq<T> {
    head + base.skip(head.len() as int)
}

/// The second round of the check: `g` receives the values to check, whose least significant bits
/// are returned.
pub fn check_round_2(
    triples: &Vec<AuthTripleShare>,
    delta: &Delta,
    masks: &Vec<Block>,
    c: &Vec<Block>,
    g: &mut Vec<Block>,
    received: &Vec<Block>,
) -> (r: Vec<bool>)
    requires
        masks.len() == triples.len(),
        c.len() >= triples.len(),
        old(g).len() >= triples.len(),
        received.len() >= triples.len(),
    ensures
        ({
            let values = check_values(triples@, delta.block, masks@, c@, received@);
            &&& final(g)@ == overlaid(values, old(g)@)
            &&& r@ == low_bits(values)
        }),
{
    let length: usize = triples.len();
    let mut d: Vec<bool> = Vec::with_capacity(length);
    let ghost values = check_values(triples@, delta.block, masks@, c@, received@);
    for i in 0..length
        invariant
            length == triples.len() == masks.len(),
            c.len() >= length,
            g.len() == old(g).len() >= length,
            received.len() >= length,
            values == check_values(triples@, delta.block, masks@, c@, received@),
            d@ == low_bits(values).take(i as int),
            forall|k: int|
                0 <= k < g.len() ==> #[trigger] g@[k] == if k < i {
                    values[k]
                } else {
                    old(g)@[k]
                },
    {
        let t = triples[i];
        let mut s = masks[i];
        s = s ^ *t.z.mac.as_block() ^ *t.z.key.as_block();
        s = s ^ (received[i] ^ c[i]).mul_bool(t.x.bit());
        let value = s ^ delta.mul_bool(t.z.bit());
        g[i] = value;
        d.push(value.lsb());
        assert(d@ =~= low_bits(values).take(i + 1));
    }
    assert(low_bits(values).take(length as int) =~= low_bits(values));
    assert(g@ =~= overlaid(values, old(g)@));
    d
}

/// The places where the two parties' bits differ.
pub open spec fn differing(d: Seq<bool>, received: Seq<bool>, n: nat) -> Seq<bool> {
    Seq::new(n, |i: int| d[i] != received[i])
}

/// The blocks, with `delta` added where `flips` says so.
pub open spec fn corrected(g: Seq<Block>, delta: Block, flips: Seq<bool>) -> Seq<Block> {
    Seq::new(
        g.len(),
        |i: int|
            if i < flips.len() && flips[i] {
                g[i].xor(delta)
            } else {
                g[i]
            },
    )
}

/// The generator's triples, with the bit of the product flipped where `flips` says so.
pub open spec fn flipped_values(triples: Seq<AuthTripleShare>, flips: Seq<bool>) -> Seq<
    AuthTripleShare,
> {
    Seq::new(
        triples.len(),
        |i: int| AuthTripleShare {
            x: triples[i].x,
            y: triples[i].y,
            z: AuthBitShare {
                key: triples[i].z.key,
                mac: triples[i].z.mac,
                value: triples[i].z.value != flips[i],
            },
        },
    )
}

/// The evaluator's triples, with `delta` added to the key of the product where `flips` says so.
pub open spec fn flipped_keys(triples: Seq<AuthTripleShare>, delta: Block, flips: Seq<bool>) -> Seq<
    AuthTripleShare,
> {
    Seq::new(
        triples.len(),
        |i: int| AuthTripleShare {
            x: triples[i].x,
            y: triples[i].y,
            z: AuthBitShare {
                key: if flips[i] {
                    Key { block: triples[i].z.key.block.xor(delta) }
                } else {
                    triples[i].z.key
                },
                mac: triples[i].z.mac,
                value: triples[i].z.value,
            },
        },
    )
}

/// The third round of the check, at the generator: corrects the triples whose check bits differ.
pub fn check_round_3_gen(
    triples: &mut Vec<AuthTripleShare>,
    delta: &Delta,
    g: &mut Vec<Block>,
    d: &Vec<bool>,
    received: &Vec<bool>,
)
    requires
        old(g).len() >= old(triples).len(),
        d.len() >= old(triples).len(),
        received.len() >= old(triples).len(),
    ensures
        ({
            let flips = differing(d@, received@, old(triples).len() as nat);
            &&& final(triples)@ == flipped_values(old(triples)@, flips)
            &&& final(g)@ == corrected(old(g)@, delta.block, flips)
        }),
{
    let length: usize = triples.len();
    let ghost flips = differing(d@, received@, length as nat);
    let ghost after = flipped_values(old(triples)@, flips);
    for i in 0..length
        invariant
            length == triples.len() == old(triples).len(),
            g.len() == old(g).len() >= length,
            d.len() >= length,
            received.len() >= length,
            flips == differing(d@, received@, length as nat),
            after == flipped_values(old(triples)@, flips),
            forall|k: int|
                0 <= k < length ==> #[trigger] triples@[k] == if k < i {
                    after[k]
                } else {
                    old(triples)@[k]
                },
            forall|k: int|
                0 <= k < g.len() ==> #[trigger] g@[k] == if k < i {
                    corrected(old(g)@, delta.block, flips)[k]
                } else {
                    old(g)@[k]
                },
    {
        let flip = d[i] ^ received[i];
        assert(flip == flips[i as int]);
        let t = triples[i];
        assert(t == old(triples)@[i as int]);
        if flip {
            let z = AuthBitShare { key: t.z.key, mac: t.z.mac, value: !t.z.value };
            triples[i] = AuthTripleShare { x: t.x, y: t.y, z };
            let block = g[i] ^ *delta.as_block();
            g[i] = block;
        } else {
            assert(after[i as int] == t);
        }
    }
    assert(triples@ =~= after);
    assert(g@ =~= corrected(old(g)@, delta.block, flips));
}

/// The third round of the check, at the evaluator: corrects the triples whose check bits differ.
pub fn check_round_3_eval(
    triples: &mut Vec<AuthTripleShare>,
    delta: &Delta,
    g: &mut Vec<Block>,
    d: &Vec<bool>,
    received: &Vec<bool>,
)
    requires
        old(g).len() >= old(triples).len(),
        d.len() >= old(triples).len(),
        received.len() >= old(triples).len(),
    ensures
        ({
            let flips = differing(d@, received@, old(triples).len() as nat);
            &&& final(triples)@ == flipped_keys(old(triples)@, delta.block, flips)
            &&& final(g)@ == corrected(old(g)@, delta.block, flips)
        }),
{
    let length: usize = triples.len();
    let ghost flips = differing(d@, received@, length as nat);
    let ghost after = flipped_keys(old(triples)@, delta.block, flips);
    for i in 0..length
        invariant
            length == triples.len() == old(triples).len(),
            g.len() == old(g).len() >= length,
            d.len() >= length,
            received.len() >= length,
            flips == differing(d@, received@, length as nat),
            after == flipped_keys(old(triples)@, delta.block, flips),
            forall|k: int|
                0 <= k < length ==> #[trigger] triples@[k] == if k < i {
                    after[k]
                } else {
                    old(triples)@[k]
                },
            forall|k: int|
                0 <= k < g.len() ==> #[trigger] g@[k] == if k < i {
                    corrected(old(g)@, delta.block, flips)[k]
                } else {
                    old(g)@[k]
                },
    {
        let flip = d[i] ^ received[i];
        assert(flip == flips[i as int]);
        let t = triples[i];
        assert(t == old(triples)@[i as int]);
        if flip {
            let key = t.z.key + Key::from(delta.into_inner());
            let z = AuthBitShare { key, mac: t.z.mac, value: t.z.value };
            triples[i] = AuthTripleShare { x: t.x, y: t.y, z };
            let block = g[i] ^ *delta.as_block();
            g[i] = block;
        } else {
            assert(after[i as int] == t);
        }
    }
    assert(triples@ =~= after);
    assert(g@ =~= corrected(old(g)@, delta.block, flips));
}

/// A sequence with two of its elements exchanged.
pub open spec fn swapped<T>(s: Seq<T>, i: int, j: int) -> Seq<T> {
    s.update(i, s[j]).update(j, s[i])
}

/// A Fisher-Yates shuffle of the first `n` elements.
pub open spec fn shuffled_from(rng: SeededRng, s: Seq<usize>, n: nat) -> Seq<usize>
    decreases n,
{
    if n == 0 {
        s
    } else {
        let (index, rest) = rng.index_drawn((n - 1) as usize);
        shuffled_from(rest, swapped(s, n - 1, index as int), (n - 1) as nat)
    }
}

/// The order of `total` elements that the seed determines.
pub open spec fn shuffled(seed: u64, total: nat) -> Seq<usize> {
    shuffled_from(
        SeededRng { seed, position: 0 },
        Seq::new(total, |i: int| i as usize),
        total,
    )
}

/// Every number below `n` stands in the sequence once.
pub open spec fn is_order(s: Seq<usize>, n: nat) -> bool {
    &&& s.len() == n
    &&& forall|i: int| 0 <= i < n ==> #[trigger] s[i] < n
    &&& forall|i: int, j: int| 0 <= i < j < n ==> #[trigger] s[i] != #[trigger] s[j]
}

/// Shuffles the numbers below `total`.
pub fn shuffle(seed: u64, total: usize) -> (r: Vec<usize>)
    ensures
        r@ == shuffled(seed, total as nat),
        is_order(r@, total as nat),
        draws_fit((SeededRng { seed, position: 0 }), total as nat),
{
    // Fisher-Yates shuffle in place
    let mut rng = SeededRng::seed_from_u64(seed);
    let mut location: Vec<usize> = Vec::with_capacity(total);
    for i in 0..total
        invariant
            location.len() == i,
            forall|k: int| 0 <= k < i ==> #[trigger] location@[k] == k,
    {
        location.push(i);
    }
    assert(location@ =~= Seq::new(total as nat, |i: int| i as usize));
    let mut n: usize = total;
    while n > 0
        invariant
            n <= total,
            is_order(location@, total as nat),
            shuffled_from(rng, location@, n as nat) == shuffled(seed, total as nat),
            draws_fit(rng, n as nat) ==> draws_fit(SeededRng { seed, position: 0 }, total as nat),
        decreases n,
    {
        let i: usize = n - 1;
        let index: usize = rng.next_index(i);
        let a: usize = location[i];
        let b: usize = location[index];
        let ghost before = location@;
        location[i] = b;
        location[index] = a;
        assert(location@ =~= swapped(before, i as int, index as int));
        n = i;
    }
    location
}

/// The places of the base of each bucket and of its other triples fit.
pub proof fn lemma_bucket(total: int, size: int, i: int, j: int)
    requires
        size > 0,
        total % size == 0,
        0 <= i < total / size,
        0 <= j < size,
    ensures
        0 <= i * size + j < total,
        (i * size + j) / size == i,
        (i * size + j) % size == j,
{
    vstd::arithmetic::div_mod::lemma_fundamental_div_mod(total, size);
    vstd::arithmetic::div_mod::lemma_fundamental_div_mod_converse(i * size + j, size, i, j);
    assert(i * size + j < (total / size) * size) by (nonlinear_arith)
        requires
            0 <= i < total / size,
            0 <= j < size,
    ;
    assert((total / size) * size == size * (total / size)) by (nonlinear_arith);
    assert(i * size >= 0) by (nonlinear_arith)
        requires
            0 <= i,
            0 < size,
    ;
}

/// The bits that a party opens to combine buckets: each second component plus that of the base.
pub open spec fn bucket_bits(
    triples: Seq<AuthTripleShare>,
    location: Seq<usize>,
    size: int,
) -> Seq<bool> {
    Seq::new(
        triples.len(),
        |k: int|
            k % size != 0 && triples[location[k - k % size] as int].y.value
                != triples[location[k] as int].y.value,
    )
}

/// Computes the bits to open.
pub fn open_buckets(
    triples: &Vec<AuthTripleShare>,
    location: &Vec<usize>,
    bucket_size: usize,
) -> (r: Vec<bool>)
    requires
        bucket_size > 0,
        location.len() == triples.len(),
        forall|i: int| 0 <= i < location.len() ==> #[trigger] location@[i] < triples.len(),
    ensures
        r@ == bucket_bits(triples@, location@, bucket_size as int),
{
    let total: usize = triples.len();
    let mut data: Vec<bool> = Vec::with_capacity(total);
    let ghost want = bucket_bits(triples@, location@, bucket_size as int);
    for k in 0..total
        invariant
            bucket_size > 0,
            total == triples.len() == location.len(),
            forall|i: int| 0 <= i < location.len() ==> #[trigger] location@[i] < triples.len(),
            want == bucket_bits(triples@, location@, bucket_size as int),
            data@ == want.take(k as int),
    {
        let j: usize = k % bucket_size;
        proof {
            vstd::arithmetic::div_mod::lemma_mod_decreases(k as nat, bucket_size as nat);
        }
        if j == 0 {
            data.push(false);
        } else {
            let base_idx: usize = location[k - j];
            let y_base = triples[base_idx].y.bit();
            let idx_j: usize = location[k];
            let y_j = triples[idx_j].y.bit();
            data.push(y_base ^ y_j);
        }
        assert(data@ =~= want.take(k + 1));
    }
    assert(want.take(total as int) =~= want);
    data
}

/// A triple with another one merged into it; `d` is the sum of their second components.
pub open spec fn merged(t: AuthTripleShare, u: AuthTripleShare, d: bool) -> AuthTripleShare {
    AuthTripleShare {
        x: sum(t.x, u.x),
        y: t.y,
        z: if d {
            sum(sum(t.z, u.z), u.x)
        } else {
            sum(t.z, u.z)
        },
    }
}

/// The first `n` triples of bucket `i`, merged into the base.
pub open spec fn merged_bucket(
    triples: Seq<AuthTripleShare>,
    location: Seq<usize>,
    size: int,
    bits: Seq<bool>,
    i: int,
    n: int,
) -> AuthTripleShare
    decreases n,
{
    if n <= 1 {
        triples[location[i * size] as int]
    } else {
        merged(
            merged_bucket(triples, location, size, bits, i, n - 1),
            triples[location[i * size + (n - 1)] as int],
            bits[i * size + (n - 1)],
        )
    }
}

/// One triple for each bucket.
pub open spec fn merged_buckets(
    triples: Seq<AuthTripleShare>,
    location: Seq<usize>,
    size: int,
    bits: Seq<bool>,
) -> Seq<AuthTripleShare> {
    Seq::new(
        (triples.len() as int / size) as nat,
        |i: int| merged_bucket(triples, location, size, bits, i, size),
    )
}

/// Combines the buckets and appends one triple for each.
pub fn combine_buckets(
    triples: &Vec<AuthTripleShare>,
    location: &Vec<usize>,
    bucket_size: usize,
    data: &Vec<bool>,
    received: &Vec<bool>,
    out: &mut Vec<AuthTripleShare>,
)
    requires
        bucket_size > 0,
        triples.len() as int % bucket_size as int == 0,
        location.len() >= triples.len(),
        forall|i: int| 0 <= i < triples.len() ==> #[trigger] location@[i] < triples.len(),
        data.len() >= triples.len(),
        received.len() >= triples.len(),
    ensures
        final(out)@ == old(out)@ + merged_buckets(
            triples@,
            location@,
            bucket_size as int,
            differing(data@, received@, triples.len() as nat),
        ),
{
    let total: usize = triples.len();
    let n: usize = total / bucket_size;
    let ghost bits = differing(data@, received@, total as nat);
    let ghost size = bucket_size as int;
    let ghost want = merged_buckets(triples@, location@, size, bits);
    for i in 0..n
        invariant
            bucket_size > 0,
            size == bucket_size,
            total as int % size == 0,
            n == total as int / size,
            total == triples.len(),
            location.len() >= total,
            forall|i: int| 0 <= i < total ==> #[trigger] location@[i] < total,
            data.len() >= total,
            received.len() >= total,
            bits == differing(data@, received@, total as nat),
            want == merged_buckets(triples@, location@, size, bits),
            out@ == old(out)@ + want.take(i as int),
    {
        proof {
            lemma_bucket(total as int, size, i as int, 0);
        }
        let start: usize = i * bucket_size;
        let base_idx: usize = location[start];
        // Start with a "copy" of the first triple in the bucket
        let mut share = triples[base_idx];
        // Merge x and z wires, keep y same as base
        let mut j: usize = 1;
        while j < bucket_size
            invariant
                1 <= j <= bucket_size,
                size == bucket_size,
                total as int % size == 0,
                0 <= i < total as int / size,
                total == triples.len(),
                start == i * size,
                location.len() >= total,
                forall|i: int| 0 <= i < total ==> #[trigger] location@[i] < total,
                data.len() >= total,
                received.len() >= total,
                bits == differing(data@, received@, total as nat),
                share == merged_bucket(triples@, location@, size, bits, i as int, j as int),
            decreases bucket_size - j,
        {
            proof {
                lemma_bucket(total as int, size, i as int, j as int);
            }
            let k: usize = start + j;
            let u = triples[location[k]];
            let x = share.x + u.x;
            let mut z = share.z + u.z;
            // If d == 1, correct z-wire by xoring with x-wire
            if data[k] ^ received[k] {
                z = z + u.x;
            }
            share = AuthTripleShare { x, y: share.y, z };
            j = j + 1;
        }
        out.push(share);
        assert(out@ =~= old(out)@ + want.take(i + 1));
    }
    assert(want.take(n as int) =~= want);
}

/// The mask of the first round: the hashes of a key and of the key with the correlation.
pub open spec fn key_mask(f: BlockFn, key: Block, delta: Block) -> Block {
    f(key).xor(f(key.xor(delta))).xor(delta)
}

/// The mask of the second round: the hashes of a MAC and of a key.
pub open spec fn pair_mask(f: BlockFn, mac: Block, key: Block) -> Block {
    f(mac).xor(f(key)).xor(mac).xor(key)
}

/// The masks of the first round.
pub open spec fn key_masks(f: BlockFn, triples: Seq<AuthTripleShare>, delta: Block) -> Seq<Block> {
    Seq::new(triples.len(), |i: int| key_mask(f, triples[i].x.key.block, delta))
}

/// The masks of the second round.
pub open spec fn pair_masks(f: BlockFn, triples: Seq<AuthTripleShare>) -> Seq<Block> {
    Seq::new(
        triples.len(),
        |i: int| pair_mask(f, triples[i].x.mac.block, triples[i].x.key.block),
    )
}

/// A party's MAC and the other's key are masked alike, up to the first mask if the bit is set.
proof fn lemma_masks(f: BlockFn, key: Block, delta: Block, bit: bool)
    ensures
        ({
            let mac = key.xor(delta.times(bit));
            f(mac).xor(mac).xor(f(key).xor(key)) == key_mask(f, key, delta).times(bit)
        }),
{
    let mac = key.xor(delta.times(bit));
    let (k, d, fk, fm) = (key.bits, delta.bits, f(key).bits, f(mac).bits);
    assert((fm ^ (k ^ d)) ^ (fk ^ k) == fk ^ fm ^ d && (fk ^ k) ^ (fk ^ k) == 0 && k ^ 0 == k)
        by (bit_vector);
}

/// The values that the two parties check differ by the sum of the correlations exactly where the
/// third component is not the product of the others.
pub proof fn lemma_check_values(
    f: BlockFn,
    g: AuthTripleShare,
    e: AuthTripleShare,
    delta_a: Delta,
    delta_b: Delta,
)
    requires
        triple_paired(g, e, delta_a, delta_b),
    ensures
        ({
            let (da, db) = (delta_a.block, delta_b.block);
            let (c_g, c_e) = (g.y.opening(da), e.y.opening(db));
            let sent_g = c_g.xor(key_mask(f, g.x.key.block, da));
            let sent_e = c_e.xor(key_mask(f, e.x.key.block, db));
            let mask_g = pair_mask(f, g.x.mac.block, g.x.key.block);
            let mask_e = pair_mask(f, e.x.mac.block, e.x.key.block);
            let t = triple_of(g, e);
            check_value(g, da, mask_g, c_g, sent_e).xor(
                check_value(e, db, mask_e, c_e, sent_g),
            ) == da.xor(db).times((t.x.bit() && t.y.bit()) != t.z.bit())
        }),
{
    let (da, db) = (delta_a.block, delta_b.block);
    let (c_g, c_e) = (g.y.opening(da), e.y.opening(db));
    let (m_g, m_e) = (key_mask(f, g.x.key.block, da), key_mask(f, e.x.key.block, db));
    let (sent_g, sent_e) = (c_g.xor(m_g), c_e.xor(m_e));
    let (mask_g, mask_e) = (
        pair_mask(f, g.x.mac.block, g.x.key.block),
        pair_mask(f, e.x.mac.block, e.x.key.block),
    );
    let both = da.xor(db);
    let zero = Block { bits: 0 };
    // openings
    lemma_openings(g.y, e.y, delta_a, delta_b);
    lemma_openings(g.z, e.z, delta_a, delta_b);
    // masks of the first components
    lemma_masks(f, e.x.key.block, db, g.x.value);
    lemma_masks(f, g.x.key.block, da, e.x.value);
    let (gm, gk, em, ek) = (
        g.x.mac.block.bits,
        g.x.key.block.bits,
        e.x.mac.block.bits,
        e.x.key.block.bits,
    );
    let (fgm, fgk, fem, fek) = (
        f(g.x.mac.block).bits,
        f(g.x.key.block).bits,
        f(e.x.mac.block).bits,
        f(e.x.key.block).bits,
    );
    let pg = m_e.times(g.x.value);
    let pe = m_g.times(e.x.value);
    assert((fgm ^ fgk ^ gm ^ gk) ^ (fem ^ fek ^ em ^ ek) == (fgm ^ gm ^ (fek ^ ek)) ^ (fem ^ em ^ (
    fgk ^ gk))) by (bit_vector);
    assert(mask_g.xor(mask_e) == pg.xor(pe));
    // what is received
    let y = shared_bit(g.y, e.y);
    let (cg, ce, me, mg) = (c_g.bits, c_e.bits, m_e.bits, m_g.bits);
    assert(((ce ^ me) ^ cg) == (cg ^ ce) ^ me && ((cg ^ mg) ^ ce) == (cg ^ ce) ^ mg)
        by (bit_vector);
    assert(sent_e.xor(c_g) == both.times(y).xor(m_e));
    assert(sent_g.xor(c_e) == both.times(y).xor(m_g));
    let qg = sent_e.xor(c_g).times(g.x.value);
    let qe = sent_g.xor(c_e).times(e.x.value);
    lemma_xor(both.times(y), m_e, m_e);
    lemma_xor(zero, zero, zero);
    assert(qg == both.times(y && g.x.value).xor(pg));
    assert(qe == both.times(y && e.x.value).xor(pe));
    lemma_xor_times(both, y && g.x.value, y && e.x.value);
    // the sum
    let (zg, zgk, zgd) = (
        g.z.mac.block.bits,
        g.z.key.block.bits,
        da.times(g.z.value).bits,
    );
    let (ze, zek, zed) = (
        e.z.mac.block.bits,
        e.z.key.block.bits,
        db.times(e.z.value).bits,
    );
    let (mkg, mke, pgb, peb) = (mask_g.bits, mask_e.bits, pg.bits, pe.bits);
    let (yg, ye) = (both.times(y && g.x.value).bits, both.times(y && e.x.value).bits);
    let z = both.times(shared_bit(g.z, e.z)).bits;
    assert((mkg ^ zg ^ zgk ^ (yg ^ pgb) ^ zgd) ^ (mke ^ ze ^ zek ^ (ye ^ peb) ^ zed) == (yg ^ ye)
        ^ z) by (bit_vector)
        requires
            mkg ^ mke == pgb ^ peb,
            (zg ^ zgk ^ zgd) ^ (ze ^ zek ^ zed) == z,
    ;
    let x = shared_bit(g.x, e.x);
    lemma_xor_times(both, x && y, shared_bit(g.z, e.z));
}

/// Correcting a triple where the check bits differ makes it a valid one, and the checked values
/// equal. The least significant bits of the correlations add up to one.
pub proof fn lemma_corrected_triple(
    g: AuthTripleShare,
    e: AuthTripleShare,
    delta_a: Delta,
    delta_b: Delta,
    value_g: Block,
    value_e: Block,
)
    requires
        triple_paired(g, e, delta_a, delta_b),
        delta_a.block.xor(delta_b.block).low_bit(),
        ({
            let t = triple_of(g, e);
            value_g.xor(value_e) == delta_a.block.xor(delta_b.block).times(
                (t.x.bit() && t.y.bit()) != t.z.bit(),
            )
        }),
    ensures
        ({
            let flip = value_g.low_bit() != value_e.low_bit();
            let flips = seq![flip];
            let g2 = flipped_values(seq![g], flips)[0];
            let e2 = flipped_keys(seq![e], delta_b.block, flips)[0];
            &&& triple_of(g2, e2).is_valid(delta_a, delta_b)
            &&& value_g.xor(delta_a.block.times(flip)) == value_e.xor(delta_b.block.times(flip))
        }),
{
    let (da, db) = (delta_a.block, delta_b.block);
    let both = da.xor(db);
    let t = triple_of(g, e);
    let flip = value_g.low_bit() != value_e.low_bit();
    let zero = Block { bits: 0 };
    lemma_low_bit(value_g, value_e);
    assert(flip == ((t.x.bit() && t.y.bit()) != t.z.bit()));
    lemma_xor(e.z.key.block, db, db);
    lemma_xor(e.z.key.block.xor(db), db, db);
    lemma_xor(g.z.mac.block, db, db);
    lemma_xor(value_g, value_e, value_e);
    let (vg, ve, a, b) = (value_g.bits, value_e.bits, da.bits, db.bits);
    assert(vg ^ a == ve ^ b || !(vg ^ ve == a ^ b)) by (bit_vector);
    assert(vg == ve || !(vg ^ ve == 0)) by (bit_vector);
}

/// Merging two valid triples gives a valid one.
pub proof fn lemma_merged(
    g: AuthTripleShare,
    e: AuthTripleShare,
    g2: AuthTripleShare,
    e2: AuthTripleShare,
    delta_a: Delta,
    delta_b: Delta,
)
    requires
        triple_of(g, e).is_valid(delta_a, delta_b),
        triple_of(g2, e2).is_valid(delta_a, delta_b),
    ensures
        ({
            let d = shared_bit(g.y, e.y) != shared_bit(g2.y, e2.y);
            let t = triple_of(merged(g, g2, d), merged(e, e2, d));
            &&& t.is_valid(delta_a, delta_b)
            &&& t.y == triple_of(g, e).y
        }),
{
    lemma_sum_paired(g.x, e.x, g2.x, e2.x, delta_a, delta_b);
    lemma_sum_paired(g.z, e.z, g2.z, e2.z, delta_a, delta_b);
    lemma_sum_paired(sum(g.z, g2.z), sum(e.z, e2.z), g2.x, e2.x, delta_a, delta_b);
}

/// Every triple of the two parties is valid.
pub open spec fn all_valid(
    gens: Seq<AuthTripleShare>,
    evals: Seq<AuthTripleShare>,
    delta_a: Delta,
    delta_b: Delta,
) -> bool {
    &&& gens.len() == evals.len()
    &&& forall|i: int|
        0 <= i < gens.len() ==> #[trigger] triple_of(gens[i], evals[i]).is_valid(delta_a, delta_b)
}

/// Every triple of the two parties is authenticated.
pub open spec fn all_paired(
    gens: Seq<AuthTripleShare>,
    evals: Seq<AuthTripleShare>,
    delta_a: Delta,
    delta_b: Delta,
) -> bool {
    &&& gens.len() == evals.len()
    &&& forall|i: int|
        0 <= i < gens.len() ==> #[trigger] triple_paired(gens[i], evals[i], delta_a, delta_b)
}

/// The three rounds of the check make every triple valid and leave the parties with equal values.
///
/// `c`, `sent`, `values` and `flips` are what the rounds compute from authenticated triples of
/// whatever product.
pub proof fn lemma_checked_triples(
    f: BlockFn,
    gens: Seq<AuthTripleShare>,
    evals: Seq<AuthTripleShare>,
    delta_a: Delta,
    delta_b: Delta,
)
    requires
        all_paired(gens, evals, delta_a, delta_b),
        delta_a.block.xor(delta_b.block).low_bit(),
    ensures
        ({
            let (da, db) = (delta_a.block, delta_b.block);
            let (c_g, c_e) = (y_openings(gens, da), y_openings(evals, db));
            let sent_g = xor_all(c_g, key_masks(f, gens, da));
            let sent_e = xor_all(c_e, key_masks(f, evals, db));
            let values_g = check_values(gens, da, pair_masks(f, gens), c_g, sent_e);
            let values_e = check_values(evals, db, pair_masks(f, evals), c_e, sent_g);
            let flips = differing(low_bits(values_g), low_bits(values_e), gens.len());
            &&& all_valid(
                flipped_values(gens, flips),
                flipped_keys(evals, db, flips),
                delta_a,
                delta_b,
            )
            &&& corrected(values_g, da, flips) == corrected(values_e, db, flips)
        }),
{
    let (da, db) = (delta_a.block, delta_b.block);
    let (c_g, c_e) = (y_openings(gens, da), y_openings(evals, db));
    let sent_g = xor_all(c_g, key_masks(f, gens, da));
    let sent_e = xor_all(c_e, key_masks(f, evals, db));
    let values_g = check_values(gens, da, pair_masks(f, gens), c_g, sent_e);
    let values_e = check_values(evals, db, pair_masks(f, evals), c_e, sent_g);
    let flips = differing(low_bits(values_g), low_bits(values_e), gens.len());
    let (gens2, evals2) = (flipped_values(gens, flips), flipped_keys(evals, db, flips));
    assert forall|i: int| 0 <= i < gens.len() implies #[trigger] triple_of(
        gens2[i],
        evals2[i],
    ).is_valid(delta_a, delta_b) by {
        lemma_checked_triple(f, gens, evals, delta_a, delta_b, i);
    }
    assert forall|i: int| 0 <= i < gens.len() implies #[trigger] corrected(values_g, da, flips)[i]
        == corrected(values_e, db, flips)[i] by {
        lemma_checked_triple(f, gens, evals, delta_a, delta_b, i);
    }
    assert(corrected(values_g, da, flips) =~= corrected(values_e, db, flips));
}

proof fn lemma_checked_triple(
    f: BlockFn,
    gens: Seq<AuthTripleShare>,
    evals: Seq<AuthTripleShare>,
    delta_a: Delta,
    delta_b: Delta,
    i: int,
)
    requires
        all_paired(gens, evals, delta_a, delta_b),
        delta_a.block.xor(delta_b.block).low_bit(),
        0 <= i < gens.len(),
    ensures
        ({
            let (da, db) = (delta_a.block, delta_b.block);
            let (c_g, c_e) = (y_openings(gens, da), y_openings(evals, db));
            let sent_g = xor_all(c_g, key_masks(f, gens, da));
            let sent_e = xor_all(c_e, key_masks(f, evals, db));
            let values_g = check_values(gens, da, pair_masks(f, gens), c_g, sent_e);
            let values_e = check_values(evals, db, pair_masks(f, evals), c_e, sent_g);
            let flips = differing(low_bits(values_g), low_bits(values_e), gens.len());
            &&& triple_of(flipped_values(gens, flips)[i], flipped_keys(evals, db, flips)[i]).is_valid(
                delta_a,
                delta_b,
            )
            &&& corrected(values_g, da, flips)[i] == corrected(values_e, db, flips)[i]
        }),
{
    let (da, db) = (delta_a.block, delta_b.block);
    let (c_g, c_e) = (y_openings(gens, da), y_openings(evals, db));
    let sent_g = xor_all(c_g, key_masks(f, gens, da));
    let sent_e = xor_all(c_e, key_masks(f, evals, db));
    let values_g = check_values(gens, da, pair_masks(f, gens), c_g, sent_e);
    let values_e = check_values(evals, db, pair_masks(f, evals), c_e, sent_g);
    let flips = differing(low_bits(values_g), low_bits(values_e), gens.len());
    assert(triple_paired(gens[i], evals[i], delta_a, delta_b));
    lemma_check_values(f, gens[i], evals[i], delta_a, delta_b);
    lemma_corrected_triple(gens[i], evals[i], delta_a, delta_b, values_g[i], values_e[i]);
    let one = seq![flips[i]];
    assert(flipped_values(gens, flips)[i] == flipped_values(seq![gens[i]], one)[0]);
    assert(flipped_keys(evals, db, flips)[i] == flipped_keys(seq![evals[i]], db, one)[0]);
    lemma_xor(values_g[i], values_g[i], values_g[i]);
    lemma_xor(values_e[i], values_e[i], values_e[i]);
}

/// Combining buckets of valid triples, with the opened bits of both parties, gives valid triples.
pub proof fn lemma_combined_triples(
    gens: Seq<AuthTripleShare>,
    evals: Seq<AuthTripleShare>,
    location: Seq<usize>,
    size: int,
    delta_a: Delta,
    delta_b: Delta,
)
    requires
        all_valid(gens, evals, delta_a, delta_b),
        size > 0,
        gens.len() as int % size == 0,
        location.len() >= gens.len(),
        forall|i: int| 0 <= i < gens.len() ==> #[trigger] location[i] < gens.len(),
    ensures
        ({
            let bits = differing(
                bucket_bits(gens, location, size),
                bucket_bits(evals, location, size),
                gens.len(),
            );
            all_valid(
                merged_buckets(gens, location, size, bits),
                merged_buckets(evals, location, size, bits),
                delta_a,
                delta_b,
            )
        }),
{
    let bits = differing(
        bucket_bits(gens, location, size),
        bucket_bits(evals, location, size),
        gens.len(),
    );
    let (m_g, m_e) = (
        merged_buckets(gens, location, size, bits),
        merged_buckets(evals, location, size, bits),
    );
    assert forall|i: int| 0 <= i < m_g.len() implies #[trigger] triple_of(m_g[i], m_e[i]).is_valid(
        delta_a,
        delta_b,
    ) by {
        lemma_combined_bucket(gens, evals, location, size, delta_a, delta_b, i, size);
    }
}

proof fn lemma_combined_bucket(
    gens: Seq<AuthTripleShare>,
    evals: Seq<AuthTripleShare>,
    location: Seq<usize>,
    size: int,
    delta_a: Delta,
    delta_b: Delta,
    i: int,
    n: int,
)
    requires
        all_valid(gens, evals, delta_a, delta_b),
        size > 0,
        gens.len() as int % size == 0,
        location.len() >= gens.len(),
        forall|k: int| 0 <= k < gens.len() ==> #[trigger] location[k] < gens.len(),
        0 <= i < gens.len() as int / size,
        1 <= n <= size,
    ensures
        ({
            let bits = differing(
                bucket_bits(gens, location, size),
                bucket_bits(evals, location, size),
                gens.len(),
            );
            let t = triple_of(
                merged_bucket(gens, location, size, bits, i, n),
                merged_bucket(evals, location, size, bits, i, n),
            );
            let base = location[i * size] as int;
            &&& t.is_valid(delta_a, delta_b)
            &&& t.y == triple_of(gens[base], evals[base]).y
        }),
    decreases n,
{
    let bits = differing(
        bucket_bits(gens, location, size),
        bucket_bits(evals, location, size),
        gens.len(),
    );
    lemma_bucket(gens.len() as int, size, i, 0);
    let base = location[i * size] as int;
    assert(location[i * size] < gens.len());
    assert(triple_of(gens[base], evals[base]).is_valid(delta_a, delta_b));
    if n > 1 {
        lemma_combined_bucket(gens, evals, location, size, delta_a, delta_b, i, n - 1);
        lemma_bucket(gens.len() as int, size, i, n - 1);
        let k = i * size + (n - 1);
        assert(location[k] < gens.len());
        let u = location[k] as int;
        assert(triple_of(gens[u], evals[u]).is_valid(delta_a, delta_b));
        assert(k - k % size == i * size);
        assert(bits[k] == (shared_bit(gens[base].y, evals[base].y) != shared_bit(
            gens[u].y,
            evals[u].y,
        )));
        let (t_g, t_e) = (
            merged_bucket(gens, location, size, bits, i, n - 1),
            merged_bucket(evals, location, size, bits, i, n - 1),
        );
        lemma_merged(t_g, t_e, gens[u], evals[u], delta_a, delta_b);
    }
}

} // verus!
