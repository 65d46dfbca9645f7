//! Function independent preprocessing of authenticated garbling.

use vstd::prelude::*;

use crate::block::{lemma_low_bit, lemma_with_low_bit, Block};
use crate::correlated::{mac_of, Delta, Key, Mac};
use crate::hash::BlockFn;
use crate::rng::SeededRng;
pub use crate::shares::{AuthBit, AuthBitShare, AuthTriple, AuthTripleShare};
use crate::shares::{paired, triple_of, triple_paired};
use crate::triples::{
    all_paired, all_valid, bucket_bits, check_round_1, check_round_2, check_round_3_eval,
    check_round_3_gen, check_values, combine_buckets, corrected, differing, flipped_keys,
    flipped_values, grouped, is_order, key_mask, key_masks, lemma_checked_triples,
    lemma_combined_triples, low_bits, merged_buckets, open_buckets, overlaid, pair_mask,
    pair_masks, push_grouped, shuffle, shuffled, xor_all, y_openings,
};

verus! {

/// Errors of preprocessing.
#[derive(Clone, Copy, Debug, PartialEq, Eq, Structural)]
pub enum FpreError {
    /// Nothing was generated yet.
    NotGenerated,
    /// The number of wire shares is wrong.
    InvalidWireCount(usize, usize),
    /// The number of triple shares is wrong.
    InvalidTripleCount(usize, usize),
}

/// The hash function of this module, which keeps its argument: it is not secure.
pub open spec fn plain() -> BlockFn {
    |x: Block| x
}

// insecure hash function
fn h2d(a: Block, b: Block) -> (r: Block)
    ensures
        r == key_mask(plain(), a, b),
{
    a ^ (a ^ b) ^ b
}

// insecure hash function
fn h2(a: Block, b: Block) -> (r: Block)
    ensures
        r == pair_mask(plain(), a, b),
{
    a ^ b ^ a ^ b
}

/// The masks of the first round of the triple check.
fn key_hashes(triples: &Vec<AuthTripleShare>, delta: &Delta) -> (r: Vec<Block>)
    ensures
        r@ == key_masks(plain(), triples@, delta.block),
{
    let mut masks: Vec<Block> = Vec::with_capacity(triples.len());
    let ghost want = key_masks(plain(), triples@, delta.block);
    for i in 0..triples.len()
        invariant
            want == key_masks(plain(), triples@, delta.block),
            masks@ == want.take(i as int),
    {
        masks.push(h2d(*triples[i].x.key.as_block(), delta.into_inner()));
        assert(masks@ =~= want.take(i + 1));
    }
    assert(want.take(triples.len() as int) =~= want);
    masks
}

/// The masks of the second round of the triple check.
fn pair_hashes(triples: &Vec<AuthTripleShare>) -> (r: Vec<Block>)
    ensures
        r@ == pair_masks(plain(), triples@),
{
    let mut masks: Vec<Block> = Vec::with_capacity(triples.len());
    let ghost want = pair_masks(plain(), triples@);
    for i in 0..triples.len()
        invariant
            want == pair_masks(plain(), triples@),
            masks@ == want.take(i as int),
    {
        masks.push(h2(*triples[i].x.mac.as_block(), *triples[i].x.key.as_block()));
        assert(masks@ =~= want.take(i + 1));
    }
    assert(want.take(triples.len() as int) =~= want);
    masks
}

/// The share of a bit under a key that is made of a block: the block with its least significant
/// bit cleared.
pub open spec fn keyed_share(block: Block, bit: bool, delta: Delta) -> AuthBitShare {
    let key = Key { block: block.with_low_bit(false) };
    AuthBitShare { key, mac: mac_of(key, bit, delta), value: bit }
}

/// A share of a bit under a random key, and the generator behind it.
pub open spec fn share_built(rng: SeededRng, bit: bool, delta: Delta) -> (AuthBitShare, SeededRng) {
    let (block, rest) = rng.block_drawn();
    (keyed_share(block, bit, delta), rest)
}

/// Builds one `AuthBitShare` from a block for the key, a bit and delta, ensuring
/// `key.lsb()==false`.
pub fn build_keyed_share(block: Block, bit: bool, delta: &Delta) -> (r: AuthBitShare)
    ensures
        r == keyed_share(block, bit, *delta),
        r.value == bit,
        r.is_valid(*delta),
        !r.key.block.low_bit(),
{
    proof {
        lemma_with_low_bit(block, false, false);
    }
    let mut key_block = block;
    key_block.set_lsb(false);
    let key = Key::from(key_block);
    let mac = key.auth(bit, delta);
    AuthBitShare { key, mac, value: bit }
}

/// Builds one `AuthBitShare` from a bit and delta, ensuring `key.lsb()==false`.
pub fn build_share(rng: &mut SeededRng, bit: bool, delta: &Delta) -> (r: AuthBitShare)
    ensures
        (r, *final(rng)) == share_built(*old(rng), bit, *delta),
        r.value == bit,
        r.is_valid(*delta),
        !r.key.block.low_bit(),
{
    build_keyed_share(rng.next_block(), bit, delta)
}

/// The authenticated bit that is built from a bit, and the generator behind it.
pub open spec fn auth_bit_built(rng: SeededRng, x: bool, delta_a: Delta, delta_b: Delta) -> (
    AuthBit,
    SeededRng,
) {
    let (r, rng1) = rng.coin_drawn();
    let s = x != r;
    let (r_share, rng2) = share_built(rng1, r, delta_b);
    let (s_share, rng3) = share_built(rng2, s, delta_a);
    (
        AuthBit {
            gen_share: AuthBitShare { mac: r_share.mac, key: s_share.key, value: r },
            eval_share: AuthBitShare { mac: s_share.mac, key: r_share.key, value: s },
        },
        rng3,
    )
}

/// The triple of random bits that is built, and the generator behind it.
pub open spec fn auth_triple_built(rng: SeededRng, delta_a: Delta, delta_b: Delta) -> (
    AuthTriple,
    SeededRng,
) {
    let (x, rng1) = rng.coin_drawn();
    let (y, rng2) = rng1.coin_drawn();
    let (a, rng3) = auth_bit_built(rng2, x, delta_a, delta_b);
    let (b, rng4) = auth_bit_built(rng3, y, delta_a, delta_b);
    let (c, rng5) = auth_bit_built(rng4, x && y, delta_a, delta_b);
    (AuthTriple { x: a, y: b, z: c }, rng5)
}

/// The authenticated random bits that are built, and the generator behind them.
pub open spec fn auth_bits_built(rng: SeededRng, delta_a: Delta, delta_b: Delta, n: nat) -> (
    Seq<AuthBit>,
    SeededRng,
)
    decreases n,
{
    if n == 0 {
        (Seq::empty(), rng)
    } else {
        let (bits, rng1) = auth_bits_built(rng, delta_a, delta_b, (n - 1) as nat);
        let (x, rng2) = rng1.coin_drawn();
        let (bit, rng3) = auth_bit_built(rng2, x, delta_a, delta_b);
        (bits.push(bit), rng3)
    }
}

/// The triples that are built, and the generator behind them.
pub open spec fn auth_triples_built(rng: SeededRng, delta_a: Delta, delta_b: Delta, n: nat) -> (
    Seq<AuthTriple>,
    SeededRng,
)
    decreases n,
{
    if n == 0 {
        (Seq::empty(), rng)
    } else {
        let (triples, rng1) = auth_triples_built(rng, delta_a, delta_b, (n - 1) as nat);
        let (triple, rng2) = auth_triple_built(rng1, delta_a, delta_b);
        (triples.push(triple), rng2)
    }
}

/// What is built is valid, and as much as was asked for.
pub proof fn lemma_built(rng: SeededRng, delta_a: Delta, delta_b: Delta, n: nat)
    ensures
        ({
            let bits = auth_bits_built(rng, delta_a, delta_b, n).0;
            let triples = auth_triples_built(rng, delta_a, delta_b, n).0;
            &&& bits.len() == n
            &&& triples.len() == n
            &&& forall|i: int| 0 <= i < n ==> (#[trigger] bits[i]).is_valid(delta_a, delta_b)
            &&& forall|i: int| 0 <= i < n ==> (#[trigger] triples[i]).is_valid(delta_a, delta_b)
        }),
    decreases n,
{
    if n > 0 {
        lemma_built(rng, delta_a, delta_b, (n - 1) as nat);
    }
}

/// Insecure ideal Fpre that pre-generates auth bits for wires and auth triples for AND gates.
#[derive(Debug)]
pub struct Fpre {
    /// Source of randomness
    pub rng: SeededRng,
    /// Number of input wires
    pub num_input: usize,
    /// Number of AND gates
    pub num_and: usize,
    /// Generator's global correlation
    pub delta_a: Delta,
    /// Evaluator's global correlation
    pub delta_b: Delta,
    /// Bits for wires (input + AND-output)
    pub auth_bits: Vec<AuthBit>,
    /// Triples for AND gates
    pub auth_triples: Vec<AuthTriple>,
}

impl Fpre {
    /// Creates a new Fpre with random `delta_a`, `delta_b`.
    pub fn new(seed: u64, num_input: usize, num_and: usize) -> (r: Fpre)
        ensures
            ({
                let (a, rng1) = (SeededRng { seed, position: 0 }).block_drawn();
                let (b, rng2) = rng1.block_drawn();
                &&& r.delta_a.block == a.with_low_bit(true)
                &&& r.delta_b.block == b.with_low_bit(true)
                &&& r.rng == rng2
            }),
            r.num_input == num_input,
            r.num_and == num_and,
            r.auth_bits@ == Seq::<AuthBit>::empty(),
            r.auth_triples@ == Seq::<AuthTriple>::empty(),
    {
        let mut rng = SeededRng::seed_from_u64(seed);

        let delta_a = Delta::random(&mut rng);
        let delta_b = Delta::random(&mut rng);

        Fpre {
            rng,
            num_input,
            num_and,
            delta_a,
            delta_b,
            auth_bits: Vec::new(),
            auth_triples: Vec::new(),
        }
    }

    /// Builds an AuthBit [x] from a bit b such that x=b
    pub fn gen_auth_bit(&mut self, x: bool) -> (bit: AuthBit)
        ensures
            (bit, final(self).rng) == auth_bit_built(
                old(self).rng,
                x,
                old(self).delta_a,
                old(self).delta_b,
            ),
            bit.is_valid(old(self).delta_a, old(self).delta_b),
            bit.bit() == x,
            *final(self) == (Fpre { rng: final(self).rng, ..*old(self) }),
    {
        let r = self.rng.next_coin();
        let s = x ^ r;

        let r_share = build_share(&mut self.rng, r, &self.delta_b);
        let s_share = build_share(&mut self.rng, s, &self.delta_a);

        AuthBit {
            // Swapped key/mac for each share so that
            // gen knows mac from delta_b and key from delta_a, etc.
            gen_share: AuthBitShare { mac: r_share.mac, key: s_share.key, value: r },
            eval_share: AuthBitShare { mac: s_share.mac, key: r_share.key, value: s },
        }
    }

    /// Builds a random triple
    pub fn gen_auth_triple(&mut self) -> (triple: AuthTriple)
        ensures
            (triple, final(self).rng) == auth_triple_built(
                old(self).rng,
                old(self).delta_a,
                old(self).delta_b,
            ),
            triple.is_valid(old(self).delta_a, old(self).delta_b),
            *final(self) == (Fpre { rng: final(self).rng, ..*old(self) }),
    {
        let x = self.rng.next_coin();
        let y = self.rng.next_coin();
        let z = x && y;
        let a = self.gen_auth_bit(x);
        let b = self.gen_auth_bit(y);
        let c = self.gen_auth_bit(z);
        AuthTriple { x: a, y: b, z: c }
    }

    /// Main Fpre generation: auth bits for wires (input + AND) and triples for AND gates
    pub fn generate(&mut self)
        requires
            old(self).num_input + old(self).num_and <= usize::MAX,
        ensures
            ({
                let (a, b) = (old(self).delta_a, old(self).delta_b);
                let wires = (old(self).num_input + old(self).num_and) as nat;
                let (bits, rng1) = auth_bits_built(old(self).rng, a, b, wires);
                let (triples, rng2) = auth_triples_built(rng1, a, b, old(self).num_and as nat);
                &&& final(self).auth_bits@ == old(self).auth_bits@ + bits
                &&& final(self).auth_triples@ == old(self).auth_triples@ + triples
                &&& final(self).rng == rng2
                &&& bits.len() == wires
                &&& triples.len() == old(self).num_and
                &&& forall|i: int| 0 <= i < bits.len() ==> (#[trigger] bits[i]).is_valid(a, b)
                &&& forall|i: int| 0 <= i < triples.len() ==> (#[trigger] triples[i]).is_valid(a, b)
            }),
            *final(self) == (Fpre {
                rng: final(self).rng,
                auth_bits: final(self).auth_bits,
                auth_triples: final(self).auth_triples,
                ..*old(self)
            }),
    {
        let ghost (a, b) = (self.delta_a, self.delta_b);
        let total_wire_bits: usize = self.num_input + self.num_and;
        for i in 0..total_wire_bits
            invariant
                a == old(self).delta_a,
                b == old(self).delta_b,
                *self == (Fpre { rng: self.rng, auth_bits: self.auth_bits, ..*old(self) }),
                self.rng == auth_bits_built(old(self).rng, a, b, i as nat).1,
                self.auth_bits@ == old(self).auth_bits@ + auth_bits_built(
                    old(self).rng,
                    a,
                    b,
                    i as nat,
                ).0,
        {
            let x = self.rng.next_coin();
            let auth_bit = self.gen_auth_bit(x);
            self.auth_bits.push(auth_bit);
            assert(self.auth_bits@ =~= old(self).auth_bits@ + auth_bits_built(
                old(self).rng,
                a,
                b,
                (i + 1) as nat,
            ).0);
        }
        let ghost rng1 = self.rng;
        let ghost wire_bits = self.auth_bits;
        let num_and: usize = self.num_and;
        for i in 0..num_and
            invariant
                a == old(self).delta_a,
                b == old(self).delta_b,
                *self == (Fpre {
                    rng: self.rng,
                    auth_bits: wire_bits,
                    auth_triples: self.auth_triples,
                    ..*old(self)
                }),
                self.rng == auth_triples_built(rng1, a, b, i as nat).1,
                self.auth_triples@ == old(self).auth_triples@ + auth_triples_built(
                    rng1,
                    a,
                    b,
                    i as nat,
                ).0,
        {
            let triple = self.gen_auth_triple();
            self.auth_triples.push(triple);
            assert(self.auth_triples@ =~= old(self).auth_triples@ + auth_triples_built(
                rng1,
                a,
                b,
                (i + 1) as nat,
            ).0);
        }
        proof {
            lemma_built(old(self).rng, a, b, total_wire_bits as nat);
            lemma_built(rng1, a, b, self.num_and as nat);
        }
    }

    /// Returns a reference to the generator's global correlation.
    pub fn delta_a(&self) -> (r: &Delta)
        ensures
            *r == self.delta_a,
    {
        &self.delta_a
    }

    /// Returns a reference to the evaluator's global correlation.
    pub fn delta_b(&self) -> (r: &Delta)
        ensures
            *r == self.delta_b,
    {
        &self.delta_b
    }

    /// Consumes `self` to produce `(FpreGen, FpreEval)` ownership in one go.
    pub fn into_gen_eval(self) -> (r: (FpreGen, FpreEval))
        ensures
            r.0.num_input == self.num_input,
            r.0.num_and == self.num_and,
            r.0.delta_a == self.delta_a,
            r.0.wire_shares@ == Seq::new(
                self.auth_bits@.len(),
                |i: int| self.auth_bits@[i].gen_share,
            ),
            r.0.triple_shares@ == Seq::new(
                self.auth_triples@.len(),
                |i: int| gen_part(self.auth_triples@[i]),
            ),
            r.0.leaky_shares@ == Seq::<AuthTripleShare>::empty(),
            r.0.location@ == Seq::<usize>::empty(),
            r.1.num_input == self.num_input,
            r.1.num_and == self.num_and,
            r.1.delta_b == self.delta_b,
            r.1.wire_shares@ == Seq::new(
                self.auth_bits@.len(),
                |i: int| self.auth_bits@[i].eval_share,
            ),
            r.1.triple_shares@ == Seq::new(
                self.auth_triples@.len(),
                |i: int| eval_part(self.auth_triples@[i]),
            ),
            r.1.leaky_shares@ == Seq::<AuthTripleShare>::empty(),
            r.1.location@ == Seq::<usize>::empty(),
    {
        let mut gb = FpreGen::new(self.num_input, self.num_and, self.delta_a);
        let mut eval = FpreEval::new(self.num_input, self.num_and, self.delta_b);
        for i in 0..self.auth_bits.len()
            invariant
                gb.num_input == eval.num_input == self.num_input,
                gb.num_and == eval.num_and == self.num_and,
                gb.delta_a == self.delta_a,
                eval.delta_b == self.delta_b,
                gb.triple_shares@.len() == 0 && eval.triple_shares@.len() == 0,
                gb.leaky_shares@.len() == 0 && eval.leaky_shares@.len() == 0,
                gb.location@.len() == 0 && eval.location@.len() == 0,
                gb.wire_shares@ =~= Seq::new(i as nat, |k: int| self.auth_bits@[k].gen_share),
                eval.wire_shares@ =~= Seq::new(i as nat, |k: int| self.auth_bits@[k].eval_share),
        {
            gb.wire_shares.push(self.auth_bits[i].gen_share);
            eval.wire_shares.push(self.auth_bits[i].eval_share);
        }
        for i in 0..self.auth_triples.len()
            invariant
                gb.num_input == eval.num_input == self.num_input,
                gb.num_and == eval.num_and == self.num_and,
                gb.delta_a == self.delta_a,
                eval.delta_b == self.delta_b,
                gb.leaky_shares@.len() == 0 && eval.leaky_shares@.len() == 0,
                gb.location@.len() == 0 && eval.location@.len() == 0,
                gb.wire_shares@ =~= Seq::new(
                    self.auth_bits@.len(),
                    |k: int| self.auth_bits@[k].gen_share,
                ),
                eval.wire_shares@ =~= Seq::new(
                    self.auth_bits@.len(),
                    |k: int| self.auth_bits@[k].eval_share,
                ),
                gb.triple_shares@ =~= Seq::new(i as nat, |k: int| gen_part(self.auth_triples@[k])),
                eval.triple_shares@ =~= Seq::new(
                    i as nat,
                    |k: int| eval_part(self.auth_triples@[k]),
                ),
        {
            let t = self.auth_triples[i];
            gb.triple_shares.push(
                AuthTripleShare { x: t.x.gen_share, y: t.y.gen_share, z: t.z.gen_share },
            );
            eval.triple_shares.push(
                AuthTripleShare { x: t.x.eval_share, y: t.y.eval_share, z: t.z.eval_share },
            );
        }
        assert(gb.leaky_shares@ =~= Seq::<AuthTripleShare>::empty());
        assert(eval.leaky_shares@ =~= Seq::<AuthTripleShare>::empty());
        assert(gb.location@ =~= Seq::<usize>::empty());
        assert(eval.location@ =~= Seq::<usize>::empty());
        (gb, eval)
    }
}

/// The generator's part of a triple.
pub open spec fn gen_part(t: AuthTriple) -> AuthTripleShare {
    AuthTripleShare { x: t.x.gen_share, y: t.y.gen_share, z: t.z.gen_share }
}

/// The evaluator's part of a triple.
pub open spec fn eval_part(t: AuthTriple) -> AuthTripleShare {
    AuthTripleShare { x: t.x.eval_share, y: t.y.eval_share, z: t.z.eval_share }
}

/// Fpre data from the generator's perspective.
#[derive(Debug)]
pub struct FpreGen {
    /// number of input wires
    pub num_input: usize,
    /// number of AND gates
    pub num_and: usize,
    /// generator's global correlation
    pub delta_a: Delta,
    /// wire shares
    pub wire_shares: Vec<AuthBitShare>,
    /// triple shares
    pub triple_shares: Vec<AuthTripleShare>,
    /// leaky shares
    pub leaky_shares: Vec<AuthTripleShare>,
    /// location
    pub location: Vec<usize>,
}

impl FpreGen {
    /// Creates a new FpreGen with given `num_input`, `num_and`, and `delta_a`.
    pub fn new(num_input: usize, num_and: usize, delta_a: Delta) -> (r: FpreGen)
        ensures
            r.num_input == num_input,
            r.num_and == num_and,
            r.delta_a == delta_a,
            r.wire_shares@ == Seq::<AuthBitShare>::empty(),
            r.triple_shares@ == Seq::<AuthTripleShare>::empty(),
            r.leaky_shares@ == Seq::<AuthTripleShare>::empty(),
            r.location@ == Seq::<usize>::empty(),
    {
        FpreGen {
            num_input,
            num_and,
            delta_a,
            wire_shares: Vec::new(),
            triple_shares: Vec::new(),
            leaky_shares: Vec::new(),
            location: Vec::new(),
        }
    }

    /// Sets the wire shares for the FpreGen.
    pub fn set_bits(&mut self, auth_bits: Vec<AuthBitShare>)
        ensures
            *final(self) == (FpreGen { wire_shares: auth_bits, ..*old(self) }),
    {
        self.wire_shares = auth_bits;
    }

    /// Sets the faulty triples for the FpreGen.
    pub fn set_faulty_triples(&mut self, auth_bits: Vec<AuthBitShare>)
        ensures
            final(self).leaky_shares@ == old(self).leaky_shares@ + grouped(auth_bits@),
            *final(self) == (FpreGen { leaky_shares: final(self).leaky_shares, ..*old(self) }),
    {
        push_grouped(&mut self.leaky_shares, auth_bits.as_slice(), 0);
        assert(auth_bits@.skip(0) =~= auth_bits@);
    }

    /// The first round of the triple check.
    pub fn triple_check_1(&self) -> (r: (Vec<Block>, Vec<Block>))
        ensures
            r.0@ == y_openings(self.leaky_shares@, self.delta_a.block),
            r.1@ == xor_all(
                y_openings(self.leaky_shares@, self.delta_a.block),
                key_masks(plain(), self.leaky_shares@, self.delta_a.block),
            ),
    {
        let masks = key_hashes(&self.leaky_shares, &self.delta_a);
        check_round_1(&self.leaky_shares, &self.delta_a, &masks)
    }

    /// The second round of the triple check.
    pub fn triple_check_2(&self, c: Vec<Block>, g: &mut Vec<Block>, gr: Vec<Block>) -> (r: Vec<
        bool,
    >)
        requires
            c.len() >= self.leaky_shares.len(),
            old(g).len() >= self.leaky_shares.len(),
            gr.len() >= self.leaky_shares.len(),
        ensures
            ({
                let leaky = self.leaky_shares@;
                let values = check_values(
                    leaky,
                    self.delta_a.block,
                    pair_masks(plain(), leaky),
                    c@,
                    gr@,
                );
                &&& r@ == low_bits(values)
                &&& final(g)@ == overlaid(values, old(g)@)
            }),
    {
        let masks = pair_hashes(&self.leaky_shares);
        check_round_2(&self.leaky_shares, &self.delta_a, &masks, &c, g, &gr)
    }

    /// The third round of the triple check.
    pub fn triple_check_3(&mut self, g: &mut Vec<Block>, d: Vec<bool>, dr: Vec<bool>)
        requires
            old(g).len() >= old(self).leaky_shares.len(),
            d.len() >= old(self).leaky_shares.len(),
            dr.len() >= old(self).leaky_shares.len(),
        ensures
            ({
                let flips = differing(d@, dr@, old(self).leaky_shares.len() as nat);
                &&& final(self).leaky_shares@ == flipped_values(old(self).leaky_shares@, flips)
                &&& final(g)@ == corrected(old(g)@, old(self).delta_a.block, flips)
            }),
            *final(self) == (FpreGen { leaky_shares: final(self).leaky_shares, ..*old(self) }),
    {
        let delta_a = self.delta_a;
        check_round_3_gen(&mut self.leaky_shares, &delta_a, g, &d, &dr);
    }

    /// Shuffles the leaky triples into buckets and returns the bits to open.
    pub fn triple_combine_1(&mut self, seed: u64, bucket_size: usize) -> (r: Vec<bool>)
        requires
            bucket_size > 0,
            old(self).leaky_shares.len() as int % bucket_size as int == 0,
        ensures
            ({
                let order = shuffled(seed, old(self).leaky_shares.len() as nat);
                &&& final(self).location@ == order
                &&& is_order(order, old(self).leaky_shares.len() as nat)
                &&& r@ == bucket_bits(old(self).leaky_shares@, order, bucket_size as int)
            }),
            *final(self) == (FpreGen { location: final(self).location, ..*old(self) }),
    {
        self.location = shuffle(seed, self.leaky_shares.len());
        open_buckets(&self.leaky_shares, &self.location, bucket_size)
    }

    /// Combines the buckets.
    pub fn triple_combine_2(
        &mut self,
        _seed: u64,
        bucket_size: usize,
        data: Vec<bool>,
        data_recv: Vec<bool>,
    )
        requires
            bucket_size > 0,
            old(self).leaky_shares.len() as int % bucket_size as int == 0,
            is_order(old(self).location@, old(self).leaky_shares.len() as nat),
            data.len() >= old(self).leaky_shares.len(),
            data_recv.len() >= old(self).leaky_shares.len(),
        ensures
            final(self).triple_shares@ == old(self).triple_shares@ + merged_buckets(
                old(self).leaky_shares@,
                old(self).location@,
                bucket_size as int,
                differing(data@, data_recv@, old(self).leaky_shares.len() as nat),
            ),
            *final(self) == (FpreGen { triple_shares: final(self).triple_shares, ..*old(self) }),
    {
        combine_buckets(
            &self.leaky_shares,
            &self.location,
            bucket_size,
            &data,
            &data_recv,
            &mut self.triple_shares,
        );
    }
}

/// Fpre data from the evaluator's perspective.
#[derive(Debug)]
pub struct FpreEval {
    /// number of input wires
    pub num_input: usize,
    /// number of AND gates
    pub num_and: usize,
    /// evaluator's global correlation
    pub delta_b: Delta,
    /// wire shares
    pub wire_shares: Vec<AuthBitShare>,
    /// triple shares
    pub triple_shares: Vec<AuthTripleShare>,
    /// leaky shares
    pub leaky_shares: Vec<AuthTripleShare>,
    /// location
    pub location: Vec<usize>,
}

impl FpreEval {
    /// Creates a new FpreEval with given `num_input`, `num_and`, and `delta_b`.
    pub fn new(num_input: usize, num_and: usize, delta_b: Delta) -> (r: FpreEval)
        ensures
            r.num_input == num_input,
            r.num_and == num_and,
            r.delta_b == delta_b,
            r.wire_shares@ == Seq::<AuthBitShare>::empty(),
            r.triple_shares@ == Seq::<AuthTripleShare>::empty(),
            r.leaky_shares@ == Seq::<AuthTripleShare>::empty(),
            r.location@ == Seq::<usize>::empty(),
    {
        FpreEval {
            num_input,
            num_and,
            delta_b,
            wire_shares: Vec::new(),
            triple_shares: Vec::new(),
            leaky_shares: Vec::new(),
            location: Vec::new(),
        }
    }

    /// Sets the wire shares for the FpreEval.
    pub fn set_bits(&mut self, auth_bits: Vec<AuthBitShare>)
        ensures
            *final(self) == (FpreEval { wire_shares: auth_bits, ..*old(self) }),
    {
        self.wire_shares = auth_bits;
    }

    /// Sets the faulty triples for the FpreEval.
    pub fn set_faulty_triples(&mut self, auth_bits: Vec<AuthBitShare>)
        ensures
            final(self).leaky_shares@ == old(self).leaky_shares@ + grouped(auth_bits@),
            *final(self) == (FpreEval { leaky_shares: final(self).leaky_shares, ..*old(self) }),
    {
        push_grouped(&mut self.leaky_shares, auth_bits.as_slice(), 0);
        assert(auth_bits@.skip(0) =~= auth_bits@);
    }

    /// The first round of the triple check.
    pub fn triple_check_1(&self) -> (r: (Vec<Block>, Vec<Block>))
        ensures
            r.0@ == y_openings(self.leaky_shares@, self.delta_b.block),
            r.1@ == xor_all(
                y_openings(self.leaky_shares@, self.delta_b.block),
                key_masks(plain(), self.leaky_shares@, self.delta_b.block),
            ),
    {
        let masks = key_hashes(&self.leaky_shares, &self.delta_b);
        check_round_1(&self.leaky_shares, &self.delta_b, &masks)
    }

    /// The second round of the triple check.
    pub fn triple_check_2(&self, c: Vec<Block>, g: &mut Vec<Block>, gr: Vec<Block>) -> (r: Vec<
        bool,
    >)
        requires
            c.len() >= self.leaky_shares.len(),
            old(g).len() >= self.leaky_shares.len(),
            gr.len() >= self.leaky_shares.len(),
        ensures
            ({
                let leaky = self.leaky_shares@;
                let values = check_values(
                    leaky,
                    self.delta_b.block,
                    pair_masks(plain(), leaky),
                    c@,
                    gr@,
                );
                &&& r@ == low_bits(values)
                &&& final(g)@ == overlaid(values, old(g)@)
            }),
    {
        let masks = pair_hashes(&self.leaky_shares);
        check_round_2(&self.leaky_shares, &self.delta_b, &masks, &c, g, &gr)
    }

    /// The third round of the triple check.
    pub fn triple_check_3(&mut self, g: &mut Vec<Block>, d: Vec<bool>, dr: Vec<bool>)
        requires
            old(g).len() >= old(self).leaky_shares.len(),
            d.len() >= old(self).leaky_shares.len(),
            dr.len() >= old(self).leaky_shares.len(),
        ensures
            ({
                let flips = differing(d@, dr@, old(self).leaky_shares.len() as nat);
                let delta = old(self).delta_b.block;
                &&& final(self).leaky_shares@ == flipped_keys(old(self).leaky_shares@, delta, flips)
                &&& final(g)@ == corrected(old(g)@, delta, flips)
            }),
            *final(self) == (FpreEval { leaky_shares: final(self).leaky_shares, ..*old(self) }),
    {
        let delta_b = self.delta_b;
        check_round_3_eval(&mut self.leaky_shares, &delta_b, g, &d, &dr);
    }

    /// Shuffles the leaky triples into buckets and returns the bits to open.
    pub fn triple_combine_1(&mut self, seed: u64, bucket_size: usize) -> (r: Vec<bool>)
        requires
            bucket_size > 0,
            old(self).leaky_shares.len() as int % bucket_size as int == 0,
        ensures
            ({
                let order = shuffled(seed, old(self).leaky_shares.len() as nat);
                &&& final(self).location@ == order
                &&& is_order(order, old(self).leaky_shares.len() as nat)
                &&& r@ == bucket_bits(old(self).leaky_shares@, order, bucket_size as int)
            }),
            *final(self) == (FpreEval { location: final(self).location, ..*old(self) }),
    {
        self.location = shuffle(seed, self.leaky_shares.len());
        open_buckets(&self.leaky_shares, &self.location, bucket_size)
    }

    /// Combines the buckets.
    pub fn triple_combine_2(
        &mut self,
        _seed: u64,
        bucket_size: usize,
        data: Vec<bool>,
        data_recv: Vec<bool>,
    )
        requires
            bucket_size > 0,
            old(self).leaky_shares.len() as int % bucket_size as int == 0,
            is_order(old(self).location@, old(self).leaky_shares.len() as nat),
            data.len() >= old(self).leaky_shares.len(),
            data_recv.len() >= old(self).leaky_shares.len(),
        ensures
            final(self).triple_shares@ == old(self).triple_shares@ + merged_buckets(
                old(self).leaky_shares@,
                old(self).location@,
                bucket_size as int,
                differing(data@, data_recv@, old(self).leaky_shares.len() as nat),
            ),
            *final(self) == (FpreEval { triple_shares: final(self).triple_shares, ..*old(self) }),
    {
        combine_buckets(
            &self.leaky_shares,
            &self.location,
            bucket_size,
            &data,
            &data_recv,
            &mut self.triple_shares,
        );
    }
}

/// The messages of correlated oblivious transfer: each key, plus `delta` where the choice is set.
pub open spec fn cot_messages(choices: Seq<bool>, keys: Seq<Block>, delta: Block) -> Seq<Block> {
    Seq::new(keys.len(), |i: int| keys[i].xor(delta.times(choices[i])))
}

/// Ideal correlated oblivious transfer.
pub fn ideal_cot(choices: &Vec<bool>, keys: &Vec<Block>, delta: &Block) -> (r: Vec<Block>)
    requires
        choices.len() == keys.len(),
    ensures
        r@ == cot_messages(choices@, keys@, *delta),
{
    let mut out: Vec<Block> = Vec::with_capacity(keys.len());
    let ghost want = cot_messages(choices@, keys@, *delta);
    for i in 0..keys.len()
        invariant
            choices.len() == keys.len(),
            want == cot_messages(choices@, keys@, *delta),
            out@ == want.take(i as int),
    {
        out.push(keys[i] ^ delta.mul_bool(choices[i]));
        assert(out@ =~= want.take(i + 1));
    }
    assert(want.take(keys.len() as int) =~= want);
    out
}

/// The shares that keys, messages and bits make.
pub open spec fn shares_of(keys: Seq<Block>, macs: Seq<Block>, bits: Seq<bool>) -> Seq<
    AuthBitShare,
> {
    Seq::new(
        bits.len(),
        |i: int| AuthBitShare {
            key: Key { block: keys[i] },
            mac: Mac { block: macs[i] },
            value: bits[i],
        },
    )
}

/// The shares of random bits that ideal correlated oblivious transfer gives the two parties.
pub open spec fn cot_shares(length: nat, delta_a: Delta, delta_b: Delta) -> (
    Seq<AuthBitShare>,
    Seq<AuthBitShare>,
) {
    let rng = SeededRng { seed: 0, position: 0 };
    let (gen_bits, rng1) = rng.bits_drawn(length);
    let (eval_keys, rng2) = rng1.blocks_drawn(length);
    let (eval_bits, rng3) = rng2.bits_drawn(length);
    let (gen_keys, rng4) = rng3.blocks_drawn(length);
    (
        shares_of(gen_keys, cot_messages(gen_bits, eval_keys, delta_b.block), gen_bits),
        shares_of(eval_keys, cot_messages(eval_bits, gen_keys, delta_a.block), eval_bits),
    )
}

/// Shares of the two parties that authenticate each other.
pub open spec fn shares_paired(
    gens: Seq<AuthBitShare>,
    evals: Seq<AuthBitShare>,
    delta_a: Delta,
    delta_b: Delta,
) -> bool {
    &&& gens.len() == evals.len()
    &&& forall|i: int|
        0 <= i < gens.len() ==> #[trigger] paired(gens[i], evals[i], delta_a, delta_b)
}

/// Generate auth bit shares using ideal COT
pub fn bit_shares_from_cot(length: usize, delta_a: Delta, delta_b: Delta) -> (r: Result<
    (Vec<AuthBitShare>, Vec<AuthBitShare>),
    FpreError,
>)
    ensures
        r matches Ok((gens, evals)) && (gens@, evals@) == cot_shares(
            length as nat,
            delta_a,
            delta_b,
        ) && gens.len() == length && shares_paired(gens@, evals@, delta_a, delta_b),
{
    let mut rng = SeededRng::seed_from_u64(0);

    // Perform COT with delta_b and eval keys so that received messages are macs on bits known to
    // gen
    let gen_bits = rng.next_bools(length);
    let eval_keys = rng.next_blocks(length);
    let gen_macs = ideal_cot(&gen_bits, &eval_keys, delta_b.as_block());

    // Perform COT with delta_a and gen keys so that received messages are macs on bits known to
    // eval
    let eval_bits = rng.next_bools(length);
    let gen_keys = rng.next_blocks(length);
    let eval_macs = ideal_cot(&eval_bits, &gen_keys, delta_a.as_block());

    // Construct auth bit shares from COT outputs
    let mut gen_shares: Vec<AuthBitShare> = Vec::with_capacity(length);
    let mut eval_shares: Vec<AuthBitShare> = Vec::with_capacity(length);
    let ghost want = cot_shares(length as nat, delta_a, delta_b);
    for i in 0..length
        invariant
            gen_bits.len() == length,
            eval_bits.len() == length,
            gen_keys.len() == length,
            eval_keys.len() == length,
            gen_macs@ == cot_messages(gen_bits@, eval_keys@, delta_b.block),
            eval_macs@ == cot_messages(eval_bits@, gen_keys@, delta_a.block),
            want == (
                shares_of(gen_keys@, gen_macs@, gen_bits@),
                shares_of(eval_keys@, eval_macs@, eval_bits@),
            ),
            gen_shares@ == want.0.take(i as int),
            eval_shares@ == want.1.take(i as int),
    {
        gen_shares.push(
            AuthBitShare {
                key: Key::from(gen_keys[i]),
                mac: Mac::from(gen_macs[i]),
                value: gen_bits[i],
            },
        );
        eval_shares.push(
            AuthBitShare {
                key: Key::from(eval_keys[i]),
                mac: Mac::from(eval_macs[i]),
                value: eval_bits[i],
            },
        );
        assert(gen_shares@ =~= want.0.take(i + 1));
        assert(eval_shares@ =~= want.1.take(i + 1));
    }
    assert(want.0.take(length as int) =~= want.0);
    assert(want.1.take(length as int) =~= want.1);
    Ok((gen_shares, eval_shares))
}

/// The leaky triples that the two parties end with, once checked and corrected.
pub open spec fn checked_triples(
    gens: Seq<AuthTripleShare>,
    evals: Seq<AuthTripleShare>,
    delta_a: Delta,
    delta_b: Delta,
) -> (Seq<AuthTripleShare>, Seq<AuthTripleShare>) {
    let (da, db) = (delta_a.block, delta_b.block);
    let (c_g, c_e) = (y_openings(gens, da), y_openings(evals, db));
    let sent_g = xor_all(c_g, key_masks(plain(), gens, da));
    let sent_e = xor_all(c_e, key_masks(plain(), evals, db));
    let values_g = check_values(gens, da, pair_masks(plain(), gens), c_g, sent_e);
    let values_e = check_values(evals, db, pair_masks(plain(), evals), c_e, sent_g);
    let flips = differing(low_bits(values_g), low_bits(values_e), gens.len());
    (flipped_values(gens, flips), flipped_keys(evals, db, flips))
}

/// The triples that the two parties end with, once the leaky ones are combined.
pub open spec fn combined_triples(
    gens: Seq<AuthTripleShare>,
    evals: Seq<AuthTripleShare>,
    seed: u64,
    size: int,
) -> (Seq<AuthTripleShare>, Seq<AuthTripleShare>) {
    let order = shuffled(seed, gens.len());
    let bits = differing(
        bucket_bits(gens, order, size),
        bucket_bits(evals, order, size),
        gens.len(),
    );
    (merged_buckets(gens, order, size, bits), merged_buckets(evals, order, size, bits))
}

/// Whether the shares of wires and triples of the two parties are valid.
pub open spec fn is_verified(fpre_gen: FpreGen, fpre_eval: FpreEval) -> bool {
    let (a, b) = (fpre_gen.delta_a, fpre_eval.delta_b);
    &&& shares_paired(fpre_gen.wire_shares@, fpre_eval.wire_shares@, a, b)
    &&& all_valid(fpre_gen.triple_shares@, fpre_eval.triple_shares@, a, b)
}

/// Generate Fpre data
pub fn fpre(
    num_wires: usize,
    num_and: usize,
    bucket_size: usize,
    _seed: u64,
    rng: &mut SeededRng,
) -> (r: (FpreGen, FpreEval))
    requires
        bucket_size > 0,
        num_wires + num_and + num_and * (3 * bucket_size) <= usize::MAX,
    ensures
        ({
            let (a, rng1) = old(rng).block_drawn();
            let (b, rng2) = rng1.block_drawn();
            &&& *final(rng) == rng2
            &&& r.0.delta_a.block == a.with_low_bit(true)
            &&& r.1.delta_b.block == b.with_low_bit(false)
        }),
        is_fpre_run(r.0, r.1, num_wires, num_and, bucket_size),
{
    // need to set LSB of deltas to XOR to 1 for an optimization
    let delta_a = Delta::random(rng).set_lsb(true);
    let delta_b = Delta::random(rng).set_lsb(false);
    let ghost (a, rng1) = old(rng).block_drawn();
    let ghost (b, rng2) = rng1.block_drawn();
    proof {
        lemma_with_low_bit(a, true, true);
        lemma_with_low_bit(b, true, false);
        lemma_with_low_bit(b, false, false);
        lemma_low_bit(delta_a.block, delta_b.block);
    }
    fpre_with_deltas(num_wires, num_and, bucket_size, delta_a, delta_b)
}

/// What a run of the preprocessing gives the two parties: valid shares, which are those of the
/// oblivious transfer and of the triples that are made of them.
pub open spec fn is_fpre_run(
    fpre_gen: FpreGen,
    fpre_eval: FpreEval,
    num_wires: usize,
    num_and: usize,
    bucket_size: usize,
) -> bool {
    let (delta_a, delta_b) = (fpre_gen.delta_a, fpre_eval.delta_b);
    let wires = (num_wires + num_and) as int;
    let total = (wires + num_and * (3 * bucket_size)) as nat;
    let (gens, evals) = cot_shares(total, delta_a, delta_b);
    let leaky = checked_triples(
        grouped(gens.skip(wires)),
        grouped(evals.skip(wires)),
        delta_a,
        delta_b,
    );
    let triples = combined_triples(leaky.0, leaky.1, 0, bucket_size as int);
    &&& is_verified(fpre_gen, fpre_eval)
    &&& fpre_gen.wire_shares@ == gens.take(wires)
    &&& fpre_eval.wire_shares@ == evals.take(wires)
    &&& fpre_gen.leaky_shares@ == leaky.0
    &&& fpre_eval.leaky_shares@ == leaky.1
    &&& fpre_gen.location@ == shuffled(0, leaky.0.len())
    &&& fpre_eval.location@ == shuffled(0, leaky.0.len())
    &&& fpre_gen.triple_shares@ == triples.0
    &&& fpre_eval.triple_shares@ == triples.1
    &&& fpre_gen.num_input == num_wires
    &&& fpre_gen.num_and == num_and
    &&& fpre_eval.num_input == num_wires
    &&& fpre_eval.num_and == num_and
    &&& fpre_gen.wire_shares.len() == num_wires + num_and
    &&& fpre_gen.triple_shares.len() == num_and
}

/// Generate Fpre data under given correlations, whose least significant bits XOR to 1.
pub fn fpre_with_deltas(
    num_wires: usize,
    num_and: usize,
    bucket_size: usize,
    delta_a: Delta,
    delta_b: Delta,
) -> (r: (FpreGen, FpreEval))
    requires
        bucket_size > 0,
        num_wires + num_and + num_and * (3 * bucket_size) <= usize::MAX,
        delta_a.block.xor(delta_b.block).low_bit(),
    ensures
        r.0.delta_a == delta_a,
        r.1.delta_b == delta_b,
        is_fpre_run(r.0, r.1, num_wires, num_and, bucket_size),
{
    proof {
        assert(3 * bucket_size >= bucket_size);
        assert(num_and * (3 * bucket_size) >= 0) by (nonlinear_arith);
    }

    let mut fpre_gen = FpreGen::new(num_wires, num_and, delta_a);
    let mut fpre_eval = FpreEval::new(num_wires, num_and, delta_b);

    // Calculate total number of shares needed
    let num_wires_shares: usize = num_wires + num_and;
    let num_and_shares: usize = and_shares(num_and, bucket_size);
    let total_shares: usize = num_wires_shares + num_and_shares;

    // Get all shares in one call
    let (gen_all_shares, eval_all_shares) = match bit_shares_from_cot(
        total_shares,
        delta_a,
        delta_b,
    ) {
        Ok(shares) => shares,
        Err(_) => (Vec::new(), Vec::new()),
    };
    let ghost (gens, evals) = (gen_all_shares@, eval_all_shares@);

    // Split into input and AND shares
    let (gen_wire_shares, gen_and_shares) = split(gen_all_shares, num_wires_shares);
    let (eval_wire_shares, eval_and_shares) = split(eval_all_shares, num_wires_shares);

    fpre_gen.set_bits(gen_wire_shares);
    fpre_eval.set_bits(eval_wire_shares);

    fpre_gen.set_faulty_triples(gen_and_shares);
    fpre_eval.set_faulty_triples(eval_and_shares);
    let ghost (leaky_g, leaky_e) = (fpre_gen.leaky_shares@, fpre_eval.leaky_shares@);
    let ghost wires = num_wires_shares as int;
    proof {
        assert(leaky_g =~= grouped(gens.skip(wires)));
        assert(leaky_e =~= grouped(evals.skip(wires)));
        lemma_leaky_count(num_and as int, bucket_size as int, num_and_shares as int);
        assert(shares_paired(gens.take(wires), evals.take(wires), delta_a, delta_b)) by {
            assert forall|i: int| 0 <= i < wires implies #[trigger] paired(
                gens.take(wires)[i],
                evals.take(wires)[i],
                delta_a,
                delta_b,
            ) by {
                assert(paired(gens[i], evals[i], delta_a, delta_b));
            }
        }
        assert(all_paired(leaky_g, leaky_e, delta_a, delta_b)) by {
            assert forall|i: int| 0 <= i < leaky_g.len() implies #[trigger] triple_paired(
                leaky_g[i],
                leaky_e[i],
                delta_a,
                delta_b,
            ) by {
                let k = wires + 3 * i;
                assert(paired(gens[k], evals[k], delta_a, delta_b));
                assert(paired(gens[k + 1], evals[k + 1], delta_a, delta_b));
                assert(paired(gens[k + 2], evals[k + 2], delta_a, delta_b));
            }
        }
        lemma_checked_triples(plain(), leaky_g, leaky_e, delta_a, delta_b);
    }

    let (c_gen, mut g_gen) = fpre_gen.triple_check_1();
    let (c_eval, mut g_eval) = fpre_eval.triple_check_1();

    // Comm 1
    let gr_gen = g_eval.clone();
    let gr_eval = g_gen.clone();
    assert(gr_gen@ =~= g_eval@);
    assert(gr_eval@ =~= g_gen@);
    let ghost (sent_g, sent_e) = (g_gen@, g_eval@);

    let d_gen = fpre_gen.triple_check_2(c_gen, &mut g_gen, gr_gen);
    let d_eval = fpre_eval.triple_check_2(c_eval, &mut g_eval, gr_eval);

    // Comm 2
    let dr_gen = d_eval.clone();
    let dr_eval = d_gen.clone();
    assert(dr_gen@ =~= d_eval@);
    assert(dr_eval@ =~= d_gen@);
    proof {
        assert(differing(d_gen@, dr_gen@, leaky_g.len()) =~= differing(
            d_eval@,
            dr_eval@,
            leaky_g.len(),
        ));
    }

    fpre_gen.triple_check_3(&mut g_gen, d_gen, dr_gen);
    fpre_eval.triple_check_3(&mut g_eval, d_eval, dr_eval);
    let ghost (good_g, good_e) = (fpre_gen.leaky_shares@, fpre_eval.leaky_shares@);
    assert((good_g, good_e) == checked_triples(leaky_g, leaky_e, delta_a, delta_b));

    // Comm 3: the parties hold equal values
    proof {
        let (da, db) = (delta_a.block, delta_b.block);
        let (c_g, c_e) = (y_openings(leaky_g, da), y_openings(leaky_e, db));
        let values_g = check_values(leaky_g, da, pair_masks(plain(), leaky_g), c_g, sent_e);
        let values_e = check_values(leaky_e, db, pair_masks(plain(), leaky_e), c_e, sent_g);
        assert(overlaid(values_g, sent_g) =~= values_g);
        assert(overlaid(values_e, sent_e) =~= values_e);
        assert(g_gen@ == g_eval@);
    }

    // Comm 4: coin-tossing to agree on a seed
    let seed: u64 = 0;

    let data_gen = fpre_gen.triple_combine_1(seed, bucket_size);
    let data_eval = fpre_eval.triple_combine_1(seed, bucket_size);

    // Comm 5
    let data_recv_gen = data_eval.clone();
    let data_recv_eval = data_gen.clone();
    assert(data_recv_gen@ =~= data_eval@);
    assert(data_recv_eval@ =~= data_gen@);
    proof {
        assert(differing(data_gen@, data_recv_gen@, good_g.len()) =~= differing(
            data_eval@,
            data_recv_eval@,
            good_g.len(),
        ));
        lemma_combined_triples(
            good_g,
            good_e,
            fpre_gen.location@,
            bucket_size as int,
            delta_a,
            delta_b,
        );
    }

    fpre_gen.triple_combine_2(seed, bucket_size, data_gen, data_recv_gen);
    fpre_eval.triple_combine_2(seed, bucket_size, data_eval, data_recv_eval);
    proof {
        let triples = combined_triples(good_g, good_e, 0, bucket_size as int);
        assert(fpre_gen.triple_shares@ =~= triples.0);
        assert(fpre_eval.triple_shares@ =~= triples.1);
    }

    (fpre_gen, fpre_eval)
}

/// The number of shares that the leaky triples of `num_and` gates take.
fn and_shares(num_and: usize, bucket_size: usize) -> (r: usize)
    requires
        bucket_size > 0,
        num_and * (3 * bucket_size) <= usize::MAX,
    ensures
        r == num_and * (3 * bucket_size),
{
    if num_and == 0 {
        assert(0 * (3 * bucket_size) == 0);
        return 0;
    }
    assert(3 * bucket_size <= num_and * (3 * bucket_size)) by (nonlinear_arith)
        requires
            num_and >= 1,
            bucket_size > 0,
    ;
    num_and * (3 * bucket_size)
}

/// There are as many leaky triples as buckets times their size.
proof fn lemma_leaky_count(num_and: int, size: int, shares: int)
    requires
        num_and >= 0,
        size > 0,
        shares == num_and * (3 * size),
    ensures
        shares / 3 == num_and * size,
        (num_and * size) % size == 0,
        (num_and * size) / size == num_and,
        num_and * size >= 0,
{
    assert(num_and * (3 * size) == 3 * (num_and * size)) by (nonlinear_arith);
    vstd::arithmetic::div_mod::lemma_mod_multiples_basic(num_and, size);
    vstd::arithmetic::div_mod::lemma_div_by_multiple(num_and, size);
    assert(num_and * size >= 0) by (nonlinear_arith)
        requires
            num_and >= 0,
            size > 0,
    ;
}

/// Splits shares at an index.
fn split(shares: Vec<AuthBitShare>, at: usize) -> (r: (Vec<AuthBitShare>, Vec<AuthBitShare>))
    requires
        at <= shares.len(),
    ensures
        r.0@ == shares@.take(at as int),
        r.1@ == shares@.skip(at as int),
{
    let mut head = shares;
    let tail = head.split_off(at);
    assert(head@ =~= shares@.take(at as int));
    assert(tail@ =~= shares@.skip(at as int));
    (head, tail)
}

/// Checks the shares of wires and triples of the two parties.
pub fn verify_fpre(fpre_gen: &FpreGen, fpre_eval: &FpreEval) -> (r: bool)
    ensures
        r == is_verified(*fpre_gen, *fpre_eval),
{
    if fpre_gen.wire_shares.len() != fpre_eval.wire_shares.len() || fpre_gen.triple_shares.len()
        != fpre_eval.triple_shares.len() {
        return false;
    }
    let delta_a = fpre_gen.delta_a;
    let delta_b = fpre_eval.delta_b;
    for i in 0..fpre_gen.wire_shares.len()
        invariant
            delta_a == fpre_gen.delta_a,
            delta_b == fpre_eval.delta_b,
            fpre_gen.wire_shares.len() == fpre_eval.wire_shares.len(),
            forall|k: int|
                0 <= k < i ==> #[trigger] paired(
                    fpre_gen.wire_shares@[k],
                    fpre_eval.wire_shares@[k],
                    delta_a,
                    delta_b,
                ),
    {
        let bit = AuthBit {
            gen_share: fpre_gen.wire_shares[i],
            eval_share: fpre_eval.wire_shares[i],
        };
        if !bit.verify(&delta_a, &delta_b) {
            assert(!paired(
                fpre_gen.wire_shares@[i as int],
                fpre_eval.wire_shares@[i as int],
                delta_a,
                delta_b,
            ));
            return false;
        }
    }
    for i in 0..fpre_gen.triple_shares.len()
        invariant
            delta_a == fpre_gen.delta_a,
            delta_b == fpre_eval.delta_b,
            shares_paired(fpre_gen.wire_shares@, fpre_eval.wire_shares@, delta_a, delta_b),
            fpre_gen.triple_shares.len() == fpre_eval.triple_shares.len(),
            forall|k: int|
                0 <= k < i ==> #[trigger] triple_of(
                    fpre_gen.triple_shares@[k],
                    fpre_eval.triple_shares@[k],
                ).is_valid(delta_a, delta_b),
    {
        let g = fpre_gen.triple_shares[i];
        let e = fpre_eval.triple_shares[i];
        let triple = AuthTriple {
            x: AuthBit { gen_share: g.x, eval_share: e.x },
            y: AuthBit { gen_share: g.y, eval_share: e.y },
            z: AuthBit { gen_share: g.z, eval_share: e.z },
        };
        if !triple.verify(&delta_a, &delta_b) {
            assert(!triple_of(
                fpre_gen.triple_shares@[i as int],
                fpre_eval.triple_shares@[i as int],
            ).is_valid(delta_a, delta_b));
            return false;
        }
    }
    true
}

} // verus!
