//! Authenticated bits and triples, shared between a generator and an evaluator.

use vstd::prelude::*;

use crate::block::{lemma_xor, lemma_xor_offset, Block};
use crate::correlated::{mac_of, Delta, Key, Mac};

verus! {

/// AuthBitShare consisting of a bool and a (key, mac) pair
#[derive(Clone, Copy, Debug, PartialEq, Eq, Structural)]
pub struct AuthBitShare {
    /// Key
    pub key: Key,
    /// MAC
    pub mac: Mac,
    /// Value
    pub value: bool,
}

/// The share of zeros.
pub open spec fn zero_share() -> AuthBitShare {
    AuthBitShare {
        key: Key { block: Block { bits: 0 } },
        mac: Mac { block: Block { bits: 0 } },
        value: false,
    }
}

/// The sum of two shares.
pub open spec fn sum(a: AuthBitShare, b: AuthBitShare) -> AuthBitShare {
    AuthBitShare {
        key: Key { block: a.key.block.xor(b.key.block) },
        mac: Mac { block: a.mac.block.xor(b.mac.block) },
        value: a.value != b.value,
    }
}

impl AuthBitShare {
    /// The MAC is that of the bit under the share's own key.
    pub open spec fn is_valid(&self, delta: Delta) -> bool {
        self.mac == mac_of(self.key, self.value, delta)
    }

    /// What a party adds to an opened sum: its key, its MAC and its bit times its correlation.
    pub open spec fn opening(&self, delta: Block) -> Block {
        self.mac.block.xor(self.key.block).xor(delta.times(self.value))
    }

    /// Computes what a party adds to an opened sum.
    pub fn open_with(&self, delta: &Block) -> (r: Block)
        ensures
            r == self.opening(*delta),
    {
        *self.mac.as_block() ^ *self.key.as_block() ^ delta.mul_bool(self.value)
    }

    /// Retrieves the bit.
    pub fn bit(&self) -> (r: bool)
        ensures
            r == self.value,
    {
        self.value
    }

    /// Checks that `share.mac == share.key.auth(share.bit, delta)`.
    pub fn verify(&self, delta: &Delta) -> (r: bool)
        ensures
            r == self.is_valid(*delta),
    {
        let want = self.key.auth(self.bit(), delta);
        self.mac == want
    }
}

impl Default for AuthBitShare {
    fn default() -> (r: AuthBitShare)
        ensures
            r == zero_share(),
    {
        AuthBitShare { key: Key::default(), mac: Mac::default(), value: false }
    }
}

impl std::ops::Add for AuthBitShare {
    type Output = AuthBitShare;

    fn add(self, rhs: AuthBitShare) -> (r: AuthBitShare) {
        AuthBitShare {
            key: self.key + rhs.key,
            mac: self.mac + rhs.mac,
            value: self.value ^ rhs.value,
        }
    }
}

impl vstd::std_specs::ops::AddSpecImpl for AuthBitShare {
    open spec fn obeys_add_spec() -> bool {
        true
    }

    open spec fn add_req(self, rhs: AuthBitShare) -> bool {
        true
    }

    open spec fn add_spec(self, rhs: AuthBitShare) -> AuthBitShare {
        sum(self, rhs)
    }
}

/// Represents an auth bit [x] = [r]+[s] where [r] is known to gen, auth by eval and [s] is known
/// to eval, auth by gen.
#[derive(Clone, Copy, Debug, PartialEq, Eq, Structural)]
pub struct AuthBit {
    /// Generator's share of the auth bit
    pub gen_share: AuthBitShare,
    /// Evaluator's share of the auth bit
    pub eval_share: AuthBitShare,
}

/// The bit that two shares add up to.
pub open spec fn shared_bit(gen_share: AuthBitShare, eval_share: AuthBitShare) -> bool {
    gen_share.value != eval_share.value
}

/// The shares authenticate each other: each party's MAC is that of its bit under the other's key.
pub open spec fn paired(
    gen_share: AuthBitShare,
    eval_share: AuthBitShare,
    delta_a: Delta,
    delta_b: Delta,
) -> bool {
    &&& gen_share.mac == mac_of(eval_share.key, gen_share.value, delta_b)
    &&& eval_share.mac == mac_of(gen_share.key, eval_share.value, delta_a)
}

impl AuthBit {
    /// The bit that the two shares add up to.
    pub open spec fn bit(&self) -> bool {
        shared_bit(self.gen_share, self.eval_share)
    }

    /// The shares authenticate each other.
    pub open spec fn is_valid(&self, delta_a: Delta, delta_b: Delta) -> bool {
        paired(self.gen_share, self.eval_share, delta_a, delta_b)
    }

    /// Recover the full bit x = r ^ s
    pub fn full_bit(&self) -> (r: bool)
        ensures
            r == self.bit(),
    {
        self.gen_share.bit() ^ self.eval_share.bit()
    }

    /// verify auth bits
    pub fn verify(&self, delta_a: &Delta, delta_b: &Delta) -> (ok: bool)
        ensures
            ok == self.is_valid(*delta_a, *delta_b),
    {
        // Reconstruct shares for testing
        let r = AuthBitShare {
            key: self.eval_share.key,
            mac: self.gen_share.mac,
            value: self.gen_share.bit(),
        };
        let s = AuthBitShare {
            key: self.gen_share.key,
            mac: self.eval_share.mac,
            value: self.eval_share.bit(),
        };
        r.verify(delta_b) && s.verify(delta_a)
    }
}

/// A triple ([x], [y], [z]) of auth bits such that z = x & y.
#[derive(Clone, Copy, Debug, PartialEq, Eq, Structural)]
pub struct AuthTriple {
    /// x component of the triple
    pub x: AuthBit,
    /// y component of the triple
    pub y: AuthBit,
    /// z component of the triple
    pub z: AuthBit,
}

impl AuthTriple {
    /// The three bits are authenticated and the third is the product of the others.
    pub open spec fn is_valid(&self, delta_a: Delta, delta_b: Delta) -> bool {
        &&& self.z.bit() == (self.x.bit() && self.y.bit())
        &&& self.x.is_valid(delta_a, delta_b)
        &&& self.y.is_valid(delta_a, delta_b)
        &&& self.z.is_valid(delta_a, delta_b)
    }

    /// verify auth triples
    pub fn verify(&self, delta_a: &Delta, delta_b: &Delta) -> (ok: bool)
        ensures
            ok == self.is_valid(*delta_a, *delta_b),
    {
        let x = self.x.full_bit();
        let y = self.y.full_bit();
        let z = self.z.full_bit();
        z == (x && y) && self.x.verify(delta_a, delta_b) && self.y.verify(delta_a, delta_b)
            && self.z.verify(delta_a, delta_b)
    }
}

/// Per-party triple share: x,y,z each an `AuthBitShare`.
#[derive(Clone, Copy, Debug, PartialEq, Eq, Structural)]
pub struct AuthTripleShare {
    /// x component of the triple
    pub x: AuthBitShare,
    /// y component of the triple
    pub y: AuthBitShare,
    /// z component of the triple
    pub z: AuthBitShare,
}

/// The triple that two shares make.
pub open spec fn triple_of(gen_share: AuthTripleShare, eval_share: AuthTripleShare) -> AuthTriple {
    AuthTriple {
        x: AuthBit { gen_share: gen_share.x, eval_share: eval_share.x },
        y: AuthBit { gen_share: gen_share.y, eval_share: eval_share.y },
        z: AuthBit { gen_share: gen_share.z, eval_share: eval_share.z },
    }
}

/// The three bits of the triple are authenticated; their product may be wrong.
pub open spec fn triple_paired(
    gen_share: AuthTripleShare,
    eval_share: AuthTripleShare,
    delta_a: Delta,
    delta_b: Delta,
) -> bool {
    &&& paired(gen_share.x, eval_share.x, delta_a, delta_b)
    &&& paired(gen_share.y, eval_share.y, delta_a, delta_b)
    &&& paired(gen_share.z, eval_share.z, delta_a, delta_b)
}

/// The sums of shares that authenticate each other authenticate each other.
pub proof fn lemma_sum_paired(
    g: AuthBitShare,
    e: AuthBitShare,
    g2: AuthBitShare,
    e2: AuthBitShare,
    delta_a: Delta,
    delta_b: Delta,
)
    requires
        paired(g, e, delta_a, delta_b),
        paired(g2, e2, delta_a, delta_b),
    ensures
        paired(sum(g, g2), sum(e, e2), delta_a, delta_b),
        shared_bit(sum(g, g2), sum(e, e2)) == (shared_bit(g, e) != shared_bit(g2, e2)),
{
    lemma_xor_offset(e.key.block, e2.key.block, delta_b.block, g.value, g2.value);
    lemma_xor_offset(g.key.block, g2.key.block, delta_a.block, e.value, e2.value);
}

/// The openings of two shares that authenticate each other differ by the sum of the correlations
/// if the bit is set, and are equal if it is not.
pub proof fn lemma_openings(
    g: AuthBitShare,
    e: AuthBitShare,
    delta_a: Delta,
    delta_b: Delta,
)
    requires
        paired(g, e, delta_a, delta_b),
    ensures
        g.opening(delta_a.block).xor(e.opening(delta_b.block)) == delta_a.block.xor(
            delta_b.block,
        ).times(shared_bit(g, e)),
{
    let (da, db) = (delta_a.block.bits, delta_b.block.bits);
    let (kg, ke) = (g.key.block.bits, e.key.block.bits);
    let (ga, gb) = (delta_a.block.times(g.value).bits, delta_b.block.times(g.value).bits);
    let (ea, eb) = (delta_a.block.times(e.value).bits, delta_b.block.times(e.value).bits);
    assert(((ke ^ gb) ^ kg ^ ga) ^ ((kg ^ ea) ^ ke ^ eb) == (ga ^ ea) ^ (gb ^ eb)) by (bit_vector);
    crate::block::lemma_xor_times(delta_a.block, g.value, e.value);
    crate::block::lemma_xor_times(delta_b.block, g.value, e.value);
    lemma_xor(Block { bits: 0 }, Block { bits: 0 }, Block { bits: 0 });
}

/// Adding shares adds their bits, keys and MACs; it is commutative and associative, the share of zeros
/// is neutral, and a share cancels itself.
pub proof fn lemma_sum(a: AuthBitShare, b: AuthBitShare, c: AuthBitShare)
    ensures
        sum(a, b).value == (a.value != b.value),
        sum(a, b).key.block == a.key.block.xor(b.key.block),
        sum(a, b).mac.block == a.mac.block.xor(b.mac.block),
        sum(a, b) == sum(b, a),
        sum(sum(a, b), c) == sum(a, sum(b, c)),
        sum(a, zero_share()) == a,
        sum(sum(a, b), b) == a,
{
    lemma_xor(a.key.block, b.key.block, c.key.block);
    lemma_xor(a.mac.block, b.mac.block, c.mac.block);
}

/// What a party opens of a sum is the sum of what it opens.
pub proof fn lemma_opening_of_sum(a: AuthBitShare, b: AuthBitShare, delta: Block)
    ensures
        sum(a, b).opening(delta) == a.opening(delta).xor(b.opening(delta)),
        a.opening(delta).xor(delta.times(a.value)) == a.mac.block.xor(a.key.block),
{
    let (ma, ka, mb, kb) = (a.mac.block, a.key.block, b.mac.block, b.key.block);
    crate::block::lemma_xor_times(delta, a.value, b.value);
    lemma_xor(ma.xor(ka), delta.times(a.value), delta);
    lemma_xor(ma, mb, ka.xor(kb));
    lemma_xor(mb, ka, kb);
    lemma_xor(ka, mb, kb);
    lemma_xor(ma, ka, mb.xor(kb));
    let (p, q) = (ma.xor(ka), mb.xor(kb));
    lemma_xor(p, q, delta.times(a.value != b.value));
    let (da, db) = (delta.times(a.value), delta.times(b.value));
    lemma_xor(p, da, q.xor(db));
    lemma_xor(da, q, db);
    lemma_xor(q, da, db);
}

/// A valid triple, in terms of its bits, keys and MACs: the product is right, and each party's MACs are
/// those of its bits under the other's keys and correlation.
pub proof fn lemma_valid_triple(t: AuthTriple, delta_a: Delta, delta_b: Delta)
    ensures
        t.is_valid(delta_a, delta_b) <==> {
            let (g, e) = (
                |b: AuthBit| b.gen_share.mac.block == b.eval_share.key.block.xor(
                    delta_b.block.times(b.gen_share.value),
                ),
                |b: AuthBit| b.eval_share.mac.block == b.gen_share.key.block.xor(
                    delta_a.block.times(b.eval_share.value),
                ),
            );
            &&& (t.z.gen_share.value != t.z.eval_share.value) == ((t.x.gen_share.value
                != t.x.eval_share.value) && (t.y.gen_share.value != t.y.eval_share.value))
            &&& g(t.x) && g(t.y) && g(t.z)
            &&& e(t.x) && e(t.y) && e(t.z)
        },
{
}

} // verus!
