//! The equations that the generation of triples meets: what each check, order and combined triple is
//! made of.

use vstd::prelude::*;

use crate::block::{lemma_xor, Block};
use crate::hash::BlockFn;
use crate::rng::SeededRng;
use crate::shares::{AuthBitShare, AuthTripleShare};
use crate::triples::{
    bucket_bits, check_values, grouped, key_masks, merged_bucket, merged_buckets, pair_masks,
    shuffled, shuffled_from, swapped, xor_all, y_openings,
};

verus! {

/// Whether an odd number of the bits below `n` is set.
pub open spec fn parity(bits: spec_fn(int) -> bool, n: nat) -> bool
    decreases n,
{
    if n == 0 {
        false
    } else {
        parity(bits, (n - 1) as nat) != bits(n - 1)
    }
}

/// The sum of the blocks below `n`.
pub open spec fn total(blocks: spec_fn(int) -> Block, n: nat) -> Block
    decreases n,
{
    if n == 0 {
        Block { bits: 0 }
    } else {
        total(blocks, (n - 1) as nat).xor(blocks(n - 1))
    }
}

/// The share is the sum of the shares below `n`: so are its bit, its key and its MAC.
pub open spec fn is_total(share: AuthBitShare, shares: spec_fn(int) -> AuthBitShare, n: nat) -> bool {
    &&& share.value == parity(|j: int| shares(j).value, n)
    &&& share.key.block == total(|j: int| shares(j).key.block, n)
    &&& share.mac.block == total(|j: int| shares(j).mac.block, n)
}

/// A combined triple is made of all triples of its bucket. Its first component is the sum of all
/// first components, its second one is that of the base, and its third one is the sum of all third
/// components and of the first components of those whose opened bits differ.
pub proof fn lemma_combined_parts(
    triples: Seq<AuthTripleShare>,
    location: Seq<usize>,
    size: int,
    bits: Seq<bool>,
    i: int,
)
    requires
        size > 0,
        0 <= i < triples.len() as int / size,
    ensures
        ({
            let t = merged_buckets(triples, location, size, bits)[i];
            let member = |j: int| triples[location[i * size + j] as int];
            let differs = |j: int| j > 0 && bits[i * size + j];
            &&& merged_buckets(triples, location, size, bits).len() == triples.len() as int / size
            &&& is_total(t.x, |j: int| member(j).x, size as nat)
            &&& t.y == member(0).y
            &&& t.z.value == (parity(|j: int| member(j).z.value, size as nat) != parity(
                |j: int| differs(j) && member(j).x.value,
                size as nat,
            ))
            &&& t.z.key.block == total(|j: int| member(j).z.key.block, size as nat).xor(
                total(|j: int| member(j).x.key.block.times(differs(j)), size as nat),
            )
            &&& t.z.mac.block == total(|j: int| member(j).z.mac.block, size as nat).xor(
                total(|j: int| member(j).x.mac.block.times(differs(j)), size as nat),
            )
        }),
{
    lemma_bucket_parts(triples, location, size, bits, i, size as nat);
}

/// The same of the first `n` triples of a bucket.
proof fn lemma_bucket_parts(
    triples: Seq<AuthTripleShare>,
    location: Seq<usize>,
    size: int,
    bits: Seq<bool>,
    i: int,
    n: nat,
)
    requires
        n > 0,
    ensures
        ({
            let t = merged_bucket(triples, location, size, bits, i, n as int);
            let member = |j: int| triples[location[i * size + j] as int];
            let differs = |j: int| j > 0 && bits[i * size + j];
            &&& is_total(t.x, |j: int| member(j).x, n)
            &&& t.y == member(0).y
            &&& t.z.value == (parity(|j: int| member(j).z.value, n) != parity(
                |j: int| differs(j) && member(j).x.value,
                n,
            ))
            &&& t.z.key.block == total(|j: int| member(j).z.key.block, n).xor(
                total(|j: int| member(j).x.key.block.times(differs(j)), n),
            )
            &&& t.z.mac.block == total(|j: int| member(j).z.mac.block, n).xor(
                total(|j: int| member(j).x.mac.block.times(differs(j)), n),
            )
        }),
    decreases n,
{
    let member = |j: int| triples[location[i * size + j] as int];
    let differs = |j: int| j > 0 && bits[i * size + j];
    let x = |j: int| member(j).x;
    let (xv, xk, xm) = (
        |j: int| x(j).value,
        |j: int| x(j).key.block,
        |j: int| x(j).mac.block,
    );
    let (zv, zk, zm) = (
        |j: int| member(j).z.value,
        |j: int| member(j).z.key.block,
        |j: int| member(j).z.mac.block,
    );
    let (dv, dk, dm) = (
        |j: int| differs(j) && member(j).x.value,
        |j: int| member(j).x.key.block.times(differs(j)),
        |j: int| member(j).x.mac.block.times(differs(j)),
    );
    let zero = Block { bits: 0 };
    let m = (n - 1) as nat;
    let u = member(n - 1);
    lemma_xor(zero, zero, zero);
    if n == 1 {
        lemma_start(xk(0));
        lemma_start(xm(0));
        lemma_start(zk(0));
        lemma_start(zm(0));
        reveal_with_fuel(parity, 2);
        reveal_with_fuel(total, 2);
        assert(i * size + 0 == i * size);
    } else {
        lemma_bucket_parts(triples, location, size, bits, i, m);
        let t = merged_bucket(triples, location, size, bits, i, m as int);
        let d = bits[i * size + (n - 1)];
        lemma_added(total(zk, m), total(dk, m), u.z.key.block, u.x.key.block, d);
        lemma_added(total(zm, m), total(dm, m), u.z.mac.block, u.x.mac.block, d);
    }
}

/// Adding to zero.
proof fn lemma_start(a: Block)
    ensures
        (Block { bits: 0 }).xor(a) == a,
        a.xor(Block { bits: 0 }) == a,
{
    lemma_xor(a, Block { bits: 0 }, a);
}

/// Two sums grow by what is added to their sum.
proof fn lemma_added(a: Block, b: Block, u: Block, v: Block, d: bool)
    ensures
        a.xor(u).xor(b.xor(v.times(d))) == if d {
            a.xor(b).xor(u).xor(v)
        } else {
            a.xor(b).xor(u)
        },
{
    let w = v.times(d);
    lemma_xor(a, u, b.xor(w));
    lemma_xor(u, b, w);
    lemma_xor(b, u, w);
    lemma_xor(a, b, u.xor(w));
    lemma_xor(a.xor(b), u, w);
    lemma_xor(a.xor(b).xor(u), w, w);
}

/// The bits that a party opens: for each triple of a bucket but the base, its second component plus
/// that of the base.
pub proof fn lemma_opened_bits(
    triples: Seq<AuthTripleShare>,
    location: Seq<usize>,
    size: int,
    i: int,
    j: int,
)
    requires
        size > 0,
        triples.len() as int % size == 0,
        0 <= i < triples.len() as int / size,
        0 <= j < size,
    ensures
        bucket_bits(triples, location, size).len() == triples.len(),
        bucket_bits(triples, location, size)[i * size + j] == (j > 0 && triples[location[i
            * size] as int].y.value != triples[location[i * size + j] as int].y.value),
{
    crate::triples::lemma_bucket(triples.len() as int, size, i, j);
}

/// The triples take up the shares in order: each share is a component of one triple.
pub proof fn lemma_grouped(shares: Seq<AuthBitShare>, k: int)
    requires
        0 <= k < 3 * (shares.len() / 3),
    ensures
        grouped(shares).len() == shares.len() / 3,
        ({
            let t = grouped(shares)[k / 3];
            shares[k] == if k % 3 == 0 {
                t.x
            } else if k % 3 == 1 {
                t.y
            } else {
                t.z
            }
        }),
{
}

/// What the parties exchange and compare in the check, in terms of the hashes.
///
/// In the first round a party sends its opening of the second component, hidden by the hashes of its
/// key of the first one and of that key plus its correlation. What it compares in the end holds the
/// hashes of its MAC and of its key of the first component.
pub proof fn lemma_check_hashes_parts(
    f: BlockFn,
    triples: Seq<AuthTripleShare>,
    delta: Block,
    received: Seq<Block>,
    i: int,
)
    requires
        0 <= i < triples.len(),
    ensures
        ({
            let t = triples[i];
            let c = y_openings(triples, delta);
            let g = xor_all(c, key_masks(f, triples, delta));
            let v = check_values(triples, delta, pair_masks(f, triples), c, received);
            let k = t.x.key.block;
            &&& c.len() == triples.len() && g.len() == triples.len() && v.len() == triples.len()
            &&& c[i] == t.y.mac.block.xor(t.y.key.block).xor(delta.times(t.y.value))
            &&& g[i].xor(c[i]) == f(k).xor(f(k.xor(delta))).xor(delta)
            &&& v[i].xor(delta.times(t.z.value)).xor(
                received[i].xor(c[i]).times(t.x.value),
            ).xor(t.z.key.block).xor(t.z.mac.block) == f(t.x.mac.block).xor(f(k)).xor(
                t.x.mac.block,
            ).xor(k)
        }),
{
    let t = triples[i];
    let c = y_openings(triples, delta);
    let k = t.x.key.block;
    let mask = f(k).xor(f(k.xor(delta))).xor(delta);
    lemma_xor(c[i], mask, c[i]);
    lemma_xor(mask, c[i], c[i]);
    let pair = f(t.x.mac.block).xor(f(k)).xor(t.x.mac.block).xor(k);
    let (a, b, d, e) = (
        t.z.mac.block,
        t.z.key.block,
        received[i].xor(c[i]).times(t.x.value),
        delta.times(t.z.value),
    );
    lemma_xor(pair, a, a);
    lemma_xor(pair.xor(a), b, a);
    lemma_xor(pair.xor(a).xor(b), d, a);
    lemma_xor(pair.xor(a).xor(b).xor(d), e, a);
}

/// Every number that a shuffle of `n` elements draws is the place of one of those that are left.
pub open spec fn draws_fit(rng: SeededRng, n: nat) -> bool
    decreases n,
{
    n == 0 || {
        let (index, rest) = rng.index_drawn((n - 1) as usize);
        index < n && draws_fit(rest, (n - 1) as nat)
    }
}

/// A shuffle of `n` elements puts the one whose place is drawn last and shuffles the others with what
/// is drawn next. Elements behind the first `n` stay.
pub proof fn lemma_shuffle_draws(rng: SeededRng, s: Seq<usize>, n: nat)
    requires
        n <= s.len(),
    ensures
        draws_fit(rng, n) ==> {
            let r = shuffled_from(rng, s, n);
            &&& r.len() == s.len()
            &&& forall|k: int| n <= k < s.len() ==> #[trigger] r[k] == s[k]
            &&& n > 0 ==> {
                let (index, rest) = rng.index_drawn((n - 1) as usize);
                let left = s.update(index as int, s[n - 1]);
                &&& r[n - 1] == s[index as int]
                &&& forall|k: int|
                    0 <= k < n - 1 ==> #[trigger] r[k] == shuffled_from(
                        rest,
                        left,
                        (n - 1) as nat,
                    )[k]
            }
        },
    decreases n,
{
    if n > 0 && draws_fit(rng, n) {
        let (index, rest) = rng.index_drawn((n - 1) as usize);
        let m = (n - 1) as nat;
        let next = swapped(s, n - 1, index as int);
        lemma_shuffle_draws(rest, next, m);
        let left = s.update(index as int, s[n - 1]);
        assert(next[n - 1] == s[index as int]);
        let r = shuffled_from(rng, s, n);
        assert(r[n - 1] == next[n - 1]);
        assert forall|k: int| n <= k < s.len() implies #[trigger] r[k] == s[k] by {
            assert(next[k] == s[k]);
        }
        lemma_shuffle_front(rest, next, left, m);
    }
}

/// What a shuffle does to the first `n` elements depends on them alone.
proof fn lemma_shuffle_front(rng: SeededRng, s: Seq<usize>, t: Seq<usize>, n: nat)
    requires
        n <= s.len(),
        n <= t.len(),
        forall|k: int| 0 <= k < n ==> #[trigger] s[k] == t[k],
        draws_fit(rng, n),
    ensures
        forall|k: int|
            0 <= k < n ==> #[trigger] shuffled_from(rng, s, n)[k] == shuffled_from(rng, t, n)[k],
    decreases n,
{
    if n > 0 {
        let (index, rest) = rng.index_drawn((n - 1) as usize);
        let m = (n - 1) as nat;
        let (s1, t1) = (swapped(s, n - 1, index as int), swapped(t, n - 1, index as int));
        assert forall|k: int| 0 <= k < m implies #[trigger] s1[k] == t1[k] by {
            assert(s[k] == t[k]);
            assert(s[n - 1] == t[n - 1]);
        }
        lemma_shuffle_front(rest, s1, t1, m);
        lemma_shuffle_draws(rest, s1, m);
        lemma_shuffle_draws(rest, t1, m);
        assert(s[index as int] == t[index as int]);
        assert(shuffled_from(rng, s, n)[n - 1] == s1[n - 1]);
        assert(shuffled_from(rng, t, n)[n - 1] == t1[n - 1]);
    }
}

/// The order that a seed determines starts from the numbers in order and from the start of the
/// seed's stream: the last place takes the number that is drawn first.
pub proof fn lemma_order_of_seed(seed: u64, n: nat)
    requires
        0 < n <= usize::MAX,
    ensures
        ({
            let rng = SeededRng { seed, position: 0 };
            draws_fit(rng, n) ==> shuffled(seed, n)[n - 1] == rng.index_drawn(
                (n - 1) as usize,
            ).0
        }),
{
    let rng = SeededRng { seed, position: 0 };
    lemma_shuffle_draws(rng, Seq::new(n, |i: int| i as usize), n);
}

} // verus!
