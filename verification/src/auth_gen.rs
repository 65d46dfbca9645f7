//! The generator of authenticated garbling.

use vstd::prelude::*;

use crate::auth::{
    assign_bits, check_hash, compute_check_hash, compute_derand_bits, compute_free_gates,
    derand_bits, derand_count, grown, hash_keys, hash_pairs, start_bits, store_front,
    with_free_gates,
};
use crate::block::{tweak_of, Block};
use crate::circuit::{
    ands, empty_auth_gate, gate_ok, lemma_ands_bound, output_range, AuthHalfGate,
    AuthHalfGateBatch, Circuit, CircuitError, Gate,
};
use crate::correlated::{key_blocks, Delta, Key};
use crate::hash::{
    block_fn, block_hash, is_block_hash, is_tweak_hash, tweak_fn, tweak_hash, TweakFn,
};
use crate::shares::{sum, AuthBitShare, AuthTripleShare};
use crate::triples::{
    bucket_bits, check_round_1, check_round_2, check_round_3_gen, check_values, combine_buckets,
    corrected, differing, flipped_values, grouped, is_order, key_masks, low_bits, merged_buckets,
    open_buckets, overlaid, pair_masks, push_grouped, shuffle, shuffled, xor_all, y_openings,
};
use crate::DEFAULT_BATCH_SIZE;

verus! {

/// Errors that can occur during authenticated garbled circuit generation.
#[derive(Clone, Copy, Debug, PartialEq, Eq, Structural)]
pub enum AuthGeneratorError {
    /// The circuit is not valid.
    CircuitError(CircuitError),
    /// There are AND gates left to garble.
    NotFinished,
    /// The MAC of a gate is wrong.
    MacCheckFailed(usize),
    /// The number of shares is not that of the inputs.
    InvalidAuthBitCount {
        /// The number of inputs of the circuit.
        expected: usize,
        /// The number of shares.
        actual: usize,
    },
    /// There are fewer derandomization bits than AND gates.
    InvalidDerandCount {
        /// The number of AND gates of the circuit.
        expected: usize,
        /// The number of bits.
        actual: usize,
    },
    /// The number of keys is not that of the inputs.
    InvalidInputKeyCount {
        /// The number of inputs of the circuit.
        expected: usize,
        /// The number of keys.
        actual: usize,
    },
}

/// The generator's share of the product of two masks.
///
/// The triple's components differ from the masks by `px` and `py`.
pub open spec fn gen_sigma(t: AuthTripleShare, px: bool, py: bool, delta: Block) -> AuthBitShare {
    let a = if px {
        sum(t.z, t.y)
    } else {
        t.z
    };
    let b = if py {
        sum(a, t.x)
    } else {
        a
    };
    if px && py {
        AuthBitShare { key: Key { block: b.key.block.xor(delta) }, mac: b.mac, value: b.value }
    } else {
        b
    }
}

/// Computes the generator's share of the product of two masks.
pub fn sigma_share(triple: &AuthTripleShare, px: bool, py: bool, delta: &Block) -> (r: AuthBitShare)
    ensures
        r == gen_sigma(*triple, px, py, *delta),
{
    let mut sigma_share = triple.z;
    if px {
        sigma_share = sigma_share + triple.y;
    }
    if py {
        sigma_share = sigma_share + triple.x;
    }
    if px && py {
        sigma_share.key = sigma_share.key + Key::from(*delta);
    }
    sigma_share
}

/// The encrypted AND gate and the zero label of its result.
///
/// `lx` and `ly` are the zero labels of the operands; `sx`, `sy`, `sz` and `ss` are the shares of
/// the masks of the operands, of the result and of the product of the operands' masks.
pub open spec fn auth_garbled_and(
    h: TweakFn,
    lx: Block,
    ly: Block,
    sx: AuthBitShare,
    sy: AuthBitShare,
    sz: AuthBitShare,
    ss: AuthBitShare,
    delta: Block,
    gid: u128,
) -> (AuthHalfGate, Block) {
    let j = tweak_of(gid);
    let k = tweak_of((gid + 1) as u128);
    let hx = h(j, lx);
    let hx1 = h(j, lx.xor(delta));
    let hy = h(k, ly);
    let hy1 = h(k, ly.xor(delta));
    let g_0 = hx.xor(hx1).xor(sy.key.block).xor(delta.times(sy.value));
    let g_1 = hy.xor(hy1).xor(sx.key.block).xor(delta.times(sx.value)).xor(lx);
    let lz = hx.xor(hy).xor(sz.key.block).xor(delta.times(sz.value)).xor(ss.key.block).xor(
        delta.times(ss.value),
    );
    (AuthHalfGate { left_row: g_0, right_row: g_1, mask: lz.low_bit() }, lz)
}

/// Garbles an AND gate.
pub fn and_gate<H: Fn(Block, Block) -> Block>(
    lx: &Block,
    ly: &Block,
    sx: &AuthBitShare,
    sy: &AuthBitShare,
    sz: &AuthBitShare,
    ss: &AuthBitShare,
    delta: &Block,
    cipher: &H,
    gid: u128,
) -> (r: (AuthHalfGate, Block))
    requires
        is_tweak_hash(*cipher),
        gid < u128::MAX,
    ensures
        r == auth_garbled_and(tweak_fn(*cipher), *lx, *ly, *sx, *sy, *sz, *ss, *delta, gid),
{
    let lx1 = *lx ^ *delta;
    let ly1 = *ly ^ *delta;

    let j = Block::tweak(gid);
    let k = Block::tweak(gid + 1);

    let hx = tweak_hash(cipher, j, *lx);
    let hy = tweak_hash(cipher, k, *ly);
    let hx1 = tweak_hash(cipher, j, lx1);
    let hy1 = tweak_hash(cipher, k, ly1);

    let g_0 = hx ^ hx1 ^ *sy.key.as_block() ^ delta.mul_bool(sy.bit());

    let g_1 = hy ^ hy1 ^ *sx.key.as_block() ^ delta.mul_bool(sx.bit()) ^ *lx;

    let lz = hx ^ hy ^ *sz.key.as_block() ^ delta.mul_bool(sz.bit()) ^ *ss.key.as_block()
        ^ delta.mul_bool(ss.bit());

    let gates = [g_0, g_1];
    let mask = lz.lsb();

    (AuthHalfGate::new(gates, mask), lz)
}

/// The generator's shares of the products of masks, for the AND gates among the first `n` gates.
///
/// `px` and `py` are the bits that the evaluator sent.
pub open spec fn gen_sigmas(
    bits: Seq<AuthBitShare>,
    triples: Seq<AuthTripleShare>,
    px: Seq<bool>,
    py: Seq<bool>,
    delta: Block,
    gates: Seq<Gate>,
    n: int,
) -> Seq<AuthBitShare>
    decreases n,
{
    if n <= 0 {
        Seq::empty()
    } else {
        let before = gen_sigmas(bits, triples, px, py, delta, gates, n - 1);
        let gate = gates[n - 1];
        let c = ands(gates, n - 1) as int;
        let t = triples[c];
        if gate is And {
            before.push(
                gen_sigma(
                    t,
                    (bits[gate.left()].value != t.x.value) != px[c],
                    (bits[gate.right()].value != t.y.value) != py[c],
                    delta,
                ),
            )
        } else {
            before
        }
    }
}

/// The id of the AND gate that follows the first `n` gates.
pub open spec fn auth_gate_id(gates: Seq<Gate>, n: int) -> u128 {
    (1 + 2 * ands(gates, n)) as u128
}

/// The zero labels of the wires after the first `n` gates.
pub open spec fn auth_labels(
    h: TweakFn,
    delta: Block,
    gates: Seq<Gate>,
    bits: Seq<AuthBitShare>,
    sigmas: Seq<AuthBitShare>,
    init: Seq<Block>,
    n: int,
) -> Seq<Block>
    decreases n,
{
    if n <= 0 {
        init
    } else {
        let l = auth_labels(h, delta, gates, bits, sigmas, init, n - 1);
        let gate = gates[n - 1];
        let (x, y, z) = (gate.left(), gate.right(), gate.out());
        let label = match gate {
            Gate::Xor { .. } => l[x].xor(l[y]),
            Gate::Inv { .. } => l[x].xor(delta),
            Gate::Id { .. } => l[x],
            Gate::And { .. } => auth_garbled_and(
                h,
                l[x],
                l[y],
                bits[x],
                bits[y],
                bits[z],
                sigmas[ands(gates, n - 1) as int],
                delta,
                auth_gate_id(gates, n - 1),
            ).1,
        };
        l.update(z, label)
    }
}

/// The encrypted gates that stand for the AND gates among the first `n` gates.
pub open spec fn auth_table(
    h: TweakFn,
    delta: Block,
    gates: Seq<Gate>,
    bits: Seq<AuthBitShare>,
    sigmas: Seq<AuthBitShare>,
    init: Seq<Block>,
    n: int,
) -> Seq<AuthHalfGate>
    decreases n,
{
    if n <= 0 {
        Seq::empty()
    } else {
        let table = auth_table(h, delta, gates, bits, sigmas, init, n - 1);
        let l = auth_labels(h, delta, gates, bits, sigmas, init, n - 1);
        let gate = gates[n - 1];
        let (x, y, z) = (gate.left(), gate.right(), gate.out());
        if gate is And {
            table.push(
                auth_garbled_and(
                    h,
                    l[x],
                    l[y],
                    bits[x],
                    bits[y],
                    bits[z],
                    sigmas[ands(gates, n - 1) as int],
                    delta,
                    auth_gate_id(gates, n - 1),
                ).0,
            )
        } else {
            table
        }
    }
}

/// A table has one entry for each AND gate, and more gates only add entries.
pub proof fn lemma_auth_table(
    h: TweakFn,
    delta: Block,
    gates: Seq<Gate>,
    bits: Seq<AuthBitShare>,
    sigmas: Seq<AuthBitShare>,
    init: Seq<Block>,
    n: int,
    m: int,
)
    requires
        0 <= n <= m,
    ensures
        auth_table(h, delta, gates, bits, sigmas, init, n).len() == ands(gates, n),
        auth_table(h, delta, gates, bits, sigmas, init, m).len() == ands(gates, m),
        ands(gates, n) <= ands(gates, m),
        forall|i: int|
            0 <= i < ands(gates, n) ==> auth_table(h, delta, gates, bits, sigmas, init, m)[i]
                == auth_table(h, delta, gates, bits, sigmas, init, n)[i],
    decreases m,
{
    if n < m {
        lemma_auth_table(h, delta, gates, bits, sigmas, init, n, m - 1);
    } else if n > 0 {
        lemma_auth_table(h, delta, gates, bits, sigmas, init, n - 1, n - 1);
    }
}

/// Output of the authenticated generator.
#[derive(Debug)]
pub struct AuthGenOutput {
    /// Output labels of the circuit.
    pub output_labels: Vec<Key>,
    /// Output auth bits of the circuit.
    pub output_auth_bits: Vec<AuthBitShare>,
    /// Authentication hash of the circuit.
    pub auth_hash: Block,
}

/// Authenticated garbled circuit generator.
#[derive(Debug)]
pub struct AuthGen {
    /// Zero labels of the wires.
    pub labels: Vec<Block>,
    /// Shares of the masks of the wires.
    pub auth_bits: Vec<AuthBitShare>,
    /// Shares of the products of masks.
    pub sigma_bits: Vec<AuthBitShare>,
    /// Masked values of the wires.
    pub masked_values: Vec<bool>,
    /// Shares of triples.
    pub triples: Vec<AuthTripleShare>,
    /// Shares of triples that are not combined yet.
    pub leaky_triples: Vec<AuthTripleShare>,
    /// Order in which the leaky triples fill buckets.
    pub permutation: Vec<usize>,
    /// Seed of the order, via secure coin toss.
    pub seed: u64,
    /// Number of leaky triples that make one triple.
    pub bucket_size: usize,
}

/// The last of some blocks, hashed, and the hash of that under a salt.
///
/// This is what the parties compare to see that their checked values are equal.
pub fn salted_digest<C: Fn(Block) -> Block, H: Fn(Block, Block) -> Block>(
    g: &Vec<Block>,
    salt: Block,
    ccr: &C,
    tccr: &H,
) -> (r: (Block, Block))
    requires
        g.len() > 0,
        is_block_hash(*ccr),
        is_tweak_hash(*tccr),
    ensures
        r.0 == block_fn(*ccr)(g@.last()),
        r.1 == tweak_fn(*tccr)(salt, r.0),
{
    let digest = last_digest(g, ccr);
    (digest, tweak_hash(tccr, salt, digest))
}

/// The last of some blocks, hashed.
pub fn last_digest<C: Fn(Block) -> Block>(g: &Vec<Block>, ccr: &C) -> (r: Block)
    requires
        g.len() > 0,
        is_block_hash(*ccr),
    ensures
        r == block_fn(*ccr)(g@.last()),
{
    let mut digest = block_hash(ccr, g[0]);
    for i in 1..g.len()
        invariant
            is_block_hash(*ccr),
            digest == block_fn(*ccr)(g@[i - 1]),
    {
        digest = block_hash(ccr, g[i]);
    }
    digest
}

impl AuthGen {
    /// Create a new AuthGen with seed from coin-tossing
    pub fn new(seed: u64, bucket_size: usize) -> (r: AuthGen)
        ensures
            r.labels@ == Seq::<Block>::empty(),
            r.auth_bits@ == Seq::<AuthBitShare>::empty(),
            r.sigma_bits@ == Seq::<AuthBitShare>::empty(),
            r.masked_values@ == Seq::<bool>::empty(),
            r.triples@ == Seq::<AuthTripleShare>::empty(),
            r.leaky_triples@ == Seq::<AuthTripleShare>::empty(),
            r.permutation@ == Seq::<usize>::empty(),
            r.seed == seed,
            r.bucket_size == bucket_size,
    {
        AuthGen {
            labels: Vec::new(),
            auth_bits: Vec::new(),
            sigma_bits: Vec::new(),
            masked_values: Vec::new(),
            triples: Vec::new(),
            leaky_triples: Vec::new(),
            permutation: Vec::new(),
            seed,
            bucket_size,
        }
    }

    /// Set input auth bits, begin generation of triples
    pub fn generate_pre_1<C: Fn(Block) -> Block>(
        &mut self,
        circ: &Circuit,
        delta: Delta,
        input_auth_bits: &[AuthBitShare],
        shares: &[AuthBitShare],
        cr: &C,
    ) -> (r: Result<(Vec<Block>, Vec<Block>), AuthGeneratorError>)
        requires
            circ.wf(),
            is_block_hash(*cr),
            input_auth_bits.len() == circ.input_len() ==> shares.len() >= circ.and_len(),
        ensures
            if input_auth_bits.len() != circ.input_len() {
                &&& r == Err::<(Vec<Block>, Vec<Block>), AuthGeneratorError>(
                    AuthGeneratorError::InvalidAuthBitCount {
                        expected: circ.input_len() as usize,
                        actual: input_auth_bits.len(),
                    },
                )
                &&& *final(self) == *old(self)
            } else {
                let leaky = old(self).leaky_triples@ + grouped(shares@.skip(circ.and_len() as int));
                let c = y_openings(leaky, delta.block);
                &&& r matches Ok((c_out, g_out)) && c_out@ == c && g_out@ == xor_all(
                    c,
                    key_masks(block_fn(*cr), leaky, delta.block),
                )
                &&& final(self).auth_bits@ == start_bits(
                    old(self).auth_bits@,
                    circ,
                    input_auth_bits@,
                    shares@,
                )
                &&& final(self).auth_bits.len() >= circ.feeds()
                &&& final(self).leaky_triples@ == leaky
                &&& *final(self) == (AuthGen {
                    auth_bits: final(self).auth_bits,
                    leaky_triples: final(self).leaky_triples,
                    ..*old(self)
                })
            },
    {
        if input_auth_bits.len() != circ.input_count() {
            return Err(
                AuthGeneratorError::InvalidAuthBitCount {
                    expected: circ.input_count(),
                    actual: input_auth_bits.len(),
                },
            );
        }
        let count: usize = assign_bits(&mut self.auth_bits, circ, input_auth_bits, shares);
        push_grouped(&mut self.leaky_triples, shares, count);
        let masks = hash_keys(&self.leaky_triples, &delta, cr);
        Ok(check_round_1(&self.leaky_triples, &delta, &masks))
    }

    /// Triple generation, Round 2
    pub fn generate_pre_2<C: Fn(Block) -> Block>(
        &mut self,
        delta: Delta,
        c: Vec<Block>,
        g: &mut Vec<Block>,
        gr: Vec<Block>,  // received
        cr: &C,
    ) -> (r: Result<Vec<bool>, AuthGeneratorError>)
        requires
            is_block_hash(*cr),
            c.len() >= old(self).leaky_triples.len(),
            old(g).len() >= old(self).leaky_triples.len(),
            gr.len() >= old(self).leaky_triples.len(),
        ensures
            *final(self) == *old(self),
            ({
                let leaky = old(self).leaky_triples@;
                let values = check_values(
                    leaky,
                    delta.block,
                    pair_masks(block_fn(*cr), leaky),
                    c@,
                    gr@,
                );
                &&& r matches Ok(d) && d@ == low_bits(values)
                &&& final(g)@ == overlaid(values, old(g)@)
            }),
    {
        let masks = hash_pairs(&self.leaky_triples, cr);
        Ok(check_round_2(&self.leaky_triples, &delta, &masks, &c, g, &gr))
    }

    /// Triple generation, Round 3
    pub fn generate_pre_3(
        &mut self,
        delta: Delta,
        g: &mut Vec<Block>,
        d: Vec<bool>,
        dr: Vec<bool>,  // received
    ) -> (r: Result<Vec<bool>, AuthGeneratorError>)
        requires
            old(g).len() >= old(self).leaky_triples.len(),
            d.len() >= old(self).leaky_triples.len(),
            dr.len() >= old(self).leaky_triples.len(),
            old(self).bucket_size > 0,
            old(self).leaky_triples.len() as int % old(self).bucket_size as int == 0,
        ensures
            ({
                let total = old(self).leaky_triples.len() as nat;
                let flips = differing(d@, dr@, total);
                let leaky = flipped_values(old(self).leaky_triples@, flips);
                let order = shuffled(old(self).seed, total);
                &&& final(self).leaky_triples@ == leaky
                &&& final(g)@ == corrected(old(g)@, delta.block, flips)
                &&& final(self).permutation@ == order
                &&& is_order(order, total)
                &&& r matches Ok(data) && data@ == bucket_bits(
                    leaky,
                    order,
                    old(self).bucket_size as int,
                )
            }),
            *final(self) == (AuthGen {
                leaky_triples: final(self).leaky_triples,
                permutation: final(self).permutation,
                ..*old(self)
            }),
    {
        check_round_3_gen(&mut self.leaky_triples, &delta, g, &d, &dr);
        self.permutation = shuffle(self.seed, self.leaky_triples.len());
        Ok(open_buckets(&self.leaky_triples, &self.permutation, self.bucket_size))
    }

    /// Generates digest, hash for equality check
    ///
    /// The salt is drawn at random.
    pub fn check_equality<C: Fn(Block) -> Block, H: Fn(Block, Block) -> Block>(
        &self,
        g: Vec<Block>,
        ccr: &C,
        tccr: &H,
    ) -> (r: Result<(Block, Block, Block), AuthGeneratorError>)
        requires
            g.len() > 0,
            is_block_hash(*ccr),
            is_tweak_hash(*tccr),
        ensures
            r matches Ok((digest, salt, hash)) && digest == block_fn(*ccr)(g@.last()) && hash
                == tweak_fn(*tccr)(salt, digest),
    {
        let salt = Block::tweak(crate::rng::random_u128());
        let (digest, hash) = salted_digest(&g, salt, ccr, tccr);
        Ok((digest, salt, hash))
    }

    /// Triple generation, Round 4
    pub fn generate_pre_4(
        &mut self,
        data: Vec<bool>,
        data_recv: Vec<bool>,  // received
    ) -> (r: Result<(), AuthGeneratorError>)
        requires
            old(self).bucket_size > 0,
            old(self).leaky_triples.len() as int % old(self).bucket_size as int == 0,
            is_order(old(self).permutation@, old(self).leaky_triples.len() as nat),
            data.len() >= old(self).leaky_triples.len(),
            data_recv.len() >= old(self).leaky_triples.len(),
        ensures
            r is Ok,
            final(self).triples@ == old(self).triples@ + merged_buckets(
                old(self).leaky_triples@,
                old(self).permutation@,
                old(self).bucket_size as int,
                differing(data@, data_recv@, old(self).leaky_triples.len() as nat),
            ),
            *final(self) == (AuthGen { triples: final(self).triples, ..*old(self) }),
    {
        combine_buckets(
            &self.leaky_triples,
            &self.permutation,
            self.bucket_size,
            &data,
            &data_recv,
            &mut self.triples,
        );
        Ok(())
    }

    /// Circuit dependent local preprocessing.
    pub fn generate_free(&mut self, circ: &Circuit) -> (r: Result<(), AuthGeneratorError>)
        requires
            circ.wf(),
            old(self).auth_bits.len() >= circ.feeds(),
        ensures
            r is Ok,
            final(self).auth_bits@ == with_free_gates(
                old(self).auth_bits@,
                circ.gate_seq(),
                circ.gate_seq().len() as int,
            ),
            final(self).auth_bits.len() == old(self).auth_bits.len(),
            *final(self) == (AuthGen { auth_bits: final(self).auth_bits, ..*old(self) }),
    {
        compute_free_gates(&mut self.auth_bits, circ);
        Ok(())
    }

    /// Generates the derandomized bits for circuit-dependent AND gate preprocessing.
    pub fn generate_de(&self, circ: &Circuit) -> (r: Result<
        (Vec<bool>, Vec<bool>),
        AuthGeneratorError,
    >)
        requires
            circ.wf(),
            self.auth_bits.len() >= circ.feeds(),
            self.triples.len() >= circ.and_len(),
        ensures
            r matches Ok((px, py)) && (px@, py@) == derand_bits(
                self.auth_bits@,
                self.triples@,
                circ.gate_seq(),
                circ.gate_seq().len() as int,
            ),
    {
        Ok(compute_derand_bits(&self.auth_bits, &self.triples, circ))
    }

    /// Generates an iterator over the encrypted gates of a circuit, finish circuit dependent
    /// preprocessing
    ///
    /// The iterator works on the generator's buffers of labels and masked values.
    pub fn generate<'a, H: Fn(Block, Block) -> Block>(
        &'a mut self,
        circ: &'a Circuit,
        delta: Delta,
        input_labels: &[Key],
        px: Vec<bool>,  // received
        py: Vec<bool>,  // received
        cipher: &'a H,
    ) -> (r: Result<AuthEncryptedGateIter<'a, H>, AuthGeneratorError>)
        requires
            circ.wf(),
            is_tweak_hash(*cipher),
            input_labels.len() == circ.input_len() && px.len() >= circ.and_len() && py.len()
                >= circ.and_len() ==> old(self).auth_bits.len() >= circ.feeds()
                && old(self).triples.len() >= circ.and_len(),
        ensures
            generation(
                *old(self),
                *final(self),
                circ,
                delta,
                input_labels@,
                px@,
                py@,
                tweak_fn(*cipher),
                r,
            ),
            r matches Ok(iter) ==> final(self).labels == *final(iter.labels)
                && final(self).masked_values == *final(iter.masked_values),
    {
        proof {
            circ.lemma_wf();
        }
        if input_labels.len() != circ.input_count() {
            return Err(
                AuthGeneratorError::InvalidInputKeyCount {
                    expected: circ.input_count(),
                    actual: input_labels.len(),
                },
            );
        }
        let blocks = Key::as_blocks(input_labels);
        store_front(&mut self.labels, blocks.as_slice(), circ.feed_count(), Block::zero());
        let count: usize = derand_count(&px, &py);
        if count < circ.and_count() {
            return Err(
                AuthGeneratorError::InvalidDerandCount {
                    expected: circ.and_count(),
                    actual: count,
                },
            );
        }
        let gates = circ.gates();
        let mut and_count: usize = 0;
        for i in 0..gates.len()
            invariant
                circ.wf(),
                gates@ == circ.gate_seq(),
                and_count == ands(gates@, i as int),
                self.auth_bits.len() >= circ.feeds(),
                self.triples.len() >= circ.and_len(),
                px.len() >= circ.and_len(),
                py.len() >= circ.and_len(),
                self.sigma_bits@ == old(self).sigma_bits@ + gen_sigmas(
                    self.auth_bits@,
                    self.triples@,
                    px@,
                    py@,
                    delta.block,
                    gates@,
                    i as int,
                ),
                *self == (AuthGen {
                    labels: self.labels,
                    sigma_bits: self.sigma_bits,
                    ..*old(self)
                }),
                self.labels@ == overlaid(
                    key_blocks(input_labels@),
                    grown(old(self).labels@, circ.feeds(), Block { bits: 0 }),
                ),
        {
            proof {
                circ.lemma_wf();
                assert(gate_ok(circ.input_len(), circ.feeds(), gates@, i as int));
                lemma_ands_bound(gates@, i + 1, gates@.len() as int);
            }
            let ghost sigmas = self.sigma_bits@;
            match gates[i] {
                Gate::And { x, y, z: _ } => {
                    let sx = self.auth_bits[x];
                    let sy = self.auth_bits[y];
                    let triple = self.triples[and_count];
                    let px = sx.bit() ^ triple.x.bit() ^ px[and_count];
                    let py = sy.bit() ^ triple.y.bit() ^ py[and_count];
                    // Compute auth_bit for output wire of this AND gate
                    let ss = sigma_share(&triple, px, py, delta.as_block());
                    self.sigma_bits.push(ss);
                    and_count = and_count + 1;
                },
                _ => {},
            }
            assert(self.sigma_bits@ =~= old(self).sigma_bits@ + gen_sigmas(
                self.auth_bits@,
                self.triples@,
                px@,
                py@,
                delta.block,
                gates@,
                i + 1,
            ));
        }
        proof {
            lemma_gen_sigmas_len(
                self.auth_bits@,
                self.triples@,
                px@,
                py@,
                delta.block,
                gates@,
                gates@.len() as int,
            );
        }
        self.masked_values.resize(circ.feed_count(), false);
        assert(self.masked_values@ =~= grown(old(self).masked_values@, circ.feeds(), false).take(
            circ.feeds() as int,
        ));
        Ok(
            AuthEncryptedGateIter::new(
                delta,
                circ,
                &mut self.labels,
                &self.auth_bits,
                &self.sigma_bits,
                &mut self.masked_values,
                cipher,
            ),
        )
    }

    /// Generates an iterator over the batched encrypted gates of a circuit, finish circuit
    /// dependent preprocessing
    pub fn generate_batched<'a, H: Fn(Block, Block) -> Block>(
        &'a mut self,
        circ: &'a Circuit,
        delta: Delta,
        input_labels: &[Key],
        px: Vec<bool>,
        py: Vec<bool>,
        cipher: &'a H,
    ) -> (r: Result<AuthEncryptedGateBatchIter<'a, H, DEFAULT_BATCH_SIZE>, AuthGeneratorError>)
        requires
            circ.wf(),
            is_tweak_hash(*cipher),
            input_labels.len() == circ.input_len() && px.len() >= circ.and_len() && py.len()
                >= circ.and_len() ==> old(self).auth_bits.len() >= circ.feeds()
                && old(self).triples.len() >= circ.and_len(),
        ensures
            generation(
                *old(self),
                *final(self),
                circ,
                delta,
                input_labels@,
                px@,
                py@,
                tweak_fn(*cipher),
                match r {
                    Ok(batched) => Ok::<AuthEncryptedGateIter<'a, H>, AuthGeneratorError>(
                        batched.iter,
                    ),
                    Err(err) => Err::<AuthEncryptedGateIter<'a, H>, AuthGeneratorError>(err),
                },
            ),
            r matches Ok(batched) ==> final(self).labels == *final(batched.iter.labels)
                && final(self).masked_values == *final(batched.iter.masked_values),
    {
        match self.generate(circ, delta, input_labels, px, py, cipher) {
            Ok(iter) => Ok(AuthEncryptedGateBatchIter { iter }),
            Err(err) => Err(err),
        }
    }
}

/// There is a share for each AND gate.
proof fn lemma_gen_sigmas_len(
    bits: Seq<AuthBitShare>,
    triples: Seq<AuthTripleShare>,
    px: Seq<bool>,
    py: Seq<bool>,
    delta: Block,
    gates: Seq<Gate>,
    n: int,
)
    ensures
        gen_sigmas(bits, triples, px, py, delta, gates, n).len() == ands(gates, n),
    decreases n,
{
    if n > 0 {
        lemma_gen_sigmas_len(bits, triples, px, py, delta, gates, n - 1);
    }
}

/// The smaller of two lengths.
pub open spec fn shorter(a: nat, b: nat) -> nat {
    if a <= b {
        a
    } else {
        b
    }
}

/// What garbling a circuit does to the generator and what it returns. The iterator holds the buffers
/// of labels and masked values from then on.
pub open spec fn generation<'a, H: Fn(Block, Block) -> Block>(
    before: AuthGen,
    after: AuthGen,
    circ: &Circuit,
    delta: Delta,
    keys: Seq<Key>,
    px: Seq<bool>,
    py: Seq<bool>,
    h: TweakFn,
    r: Result<AuthEncryptedGateIter<'a, H>, AuthGeneratorError>,
) -> bool {
    let labels = overlaid(
        key_blocks(keys),
        grown(before.labels@, circ.feeds(), Block { bits: 0 }),
    );
    if keys.len() != circ.input_len() {
        &&& after == before
        &&& r == Err::<AuthEncryptedGateIter<'a, H>, AuthGeneratorError>(
            AuthGeneratorError::InvalidInputKeyCount {
                expected: circ.input_len() as usize,
                actual: keys.len() as usize,
            },
        )
    } else if shorter(px.len(), py.len()) < circ.and_len() {
        &&& after.labels@ == labels
        &&& after == (AuthGen { labels: after.labels, ..before })
        &&& r == Err::<AuthEncryptedGateIter<'a, H>, AuthGeneratorError>(
            AuthGeneratorError::InvalidDerandCount {
                expected: circ.and_len() as usize,
                actual: shorter(px.len(), py.len()) as usize,
            },
        )
    } else {
        &&& after.sigma_bits@ == before.sigma_bits@ + gen_sigmas(
            before.auth_bits@,
            before.triples@,
            px,
            py,
            delta.block,
            circ.gate_seq(),
            circ.gate_seq().len() as int,
        )
        &&& after == (AuthGen {
            labels: after.labels,
            sigma_bits: after.sigma_bits,
            masked_values: after.masked_values,
            ..before
        })
        &&& r matches Ok(iter)
        &&& iter.wf()
        &&& iter.generated() == 0
        &&& iter.circuit() == circ
        &&& iter.hash_fn() == h
        &&& iter.offset() == delta.block
        &&& iter.start() == labels
        &&& iter.bits() == before.auth_bits@
        &&& iter.sigmas() == after.sigma_bits@
        &&& iter.held() == (
            labels,
            grown(before.masked_values@, circ.feeds(), false).take(circ.feeds() as int),
        )
    }
}

/// Iterator over the encrypted gates of a circuit.
///
/// It writes labels and masked values to the buffers of the generator that made it.
pub struct AuthEncryptedGateIter<'a, H> {
    /// Cipher to use to encrypt the gates.
    pub cipher: &'a H,
    /// Global offset.
    pub delta: Delta,
    /// Buffer for the 0-bit labels.
    pub labels: &'a mut Vec<Block>,
    /// Buffer for the auth bits.
    pub auth_bits: &'a Vec<AuthBitShare>,
    /// Buffer for the sigma bits.
    pub sigma_bits: &'a Vec<AuthBitShare>,
    /// Buffer for the masked values.
    pub masked_values: &'a mut Vec<bool>,
    /// The circuit.
    pub circ: &'a Circuit,
    /// Number of gates that are done.
    pub position: usize,
    /// Current gate id.
    pub gid: u128,
    /// Number of AND gates generated.
    pub counter: usize,
    /// Whether the entire circuit has been garbled.
    pub complete: bool,
    /// The labels that the iterator started from.
    pub init: Ghost<Seq<Block>>,
}

impl<'a, H: Fn(Block, Block) -> Block> AuthEncryptedGateIter<'a, H> {
    /// The circuit.
    pub closed spec fn circuit(&self) -> &Circuit {
        self.circ
    }

    /// The function that the cipher computes.
    pub closed spec fn hash_fn(&self) -> TweakFn {
        tweak_fn(*self.cipher)
    }

    /// The global offset.
    pub closed spec fn offset(&self) -> Block {
        self.delta.block
    }

    /// The labels that the iterator started from.
    pub closed spec fn start(&self) -> Seq<Block> {
        self.init@
    }

    /// The shares of the masks of the wires.
    pub closed spec fn bits(&self) -> Seq<AuthBitShare> {
        self.auth_bits@
    }

    /// The shares of the products of masks.
    pub closed spec fn sigmas(&self) -> Seq<AuthBitShare> {
        self.sigma_bits@
    }

    /// The number of AND gates generated.
    pub closed spec fn generated(&self) -> nat {
        self.counter as nat
    }

    /// The number of gates that are left to do.
    pub closed spec fn gates_left(&self) -> int {
        self.circ.gate_seq().len() - self.position
    }

    /// All encrypted gates of the circuit.
    pub open spec fn table(&self) -> Seq<AuthHalfGate> {
        auth_table(
            self.hash_fn(),
            self.offset(),
            self.circuit().gate_seq(),
            self.bits(),
            self.sigmas(),
            self.start(),
            self.circuit().gate_seq().len() as int,
        )
    }

    /// The zero labels of all wires.
    pub open spec fn labels_at_end(&self) -> Seq<Block> {
        auth_labels(
            self.hash_fn(),
            self.offset(),
            self.circuit().gate_seq(),
            self.bits(),
            self.sigmas(),
            self.start(),
            self.circuit().gate_seq().len() as int,
        )
    }

    /// The labels and masked values that the buffers hold.
    pub open spec fn held(&self) -> (Seq<Block>, Seq<bool>) {
        (self.labels@, self.masked_values@)
    }

    /// The iterator stands behind the last AND gate that it generated, or behind the last gate if no
    /// AND gate is left, and its buffer holds the labels up to there.
    pub open spec fn has_paused(&self) -> bool {
        let gates = self.circuit().gate_seq();
        let done = gates.len() - self.gates_left();
        &&& 0 <= done
        &&& ands(gates, done) == self.generated()
        &&& if self.generated() < self.circuit().and_len() {
            done > 0 && gates[done - 1] is And
        } else {
            done == gates.len()
        }
        &&& self.held().0 == auth_labels(
            self.hash_fn(),
            self.offset(),
            gates,
            self.bits(),
            self.sigmas(),
            self.start(),
            done,
        )
    }

    /// The two iterators garble the same circuit in the same way.
    pub open spec fn same_job(&self, other: &Self) -> bool {
        &&& self.circuit() == other.circuit()
        &&& self.hash_fn() == other.hash_fn()
        &&& self.offset() == other.offset()
        &&& self.start() == other.start()
        &&& self.bits() == other.bits()
        &&& self.sigmas() == other.sigmas()
    }

    /// What every iterator satisfies.
    pub closed spec fn wf(&self) -> bool {
        let gates = self.circ.gate_seq();
        &&& self.circ.wf()
        &&& is_tweak_hash(*self.cipher)
        &&& self.position <= gates.len()
        &&& self.counter == ands(gates, self.position as int)
        &&& self.gid == 1 + 2 * self.counter
        &&& self.init@.len() >= self.circ.feeds()
        &&& self.labels.len() == self.init@.len()
        &&& self.auth_bits.len() >= self.circ.feeds()
        &&& self.sigma_bits.len() >= self.circ.and_len()
        &&& self.masked_values.len() == self.circ.feeds()
        &&& self.labels@ == auth_labels(
            tweak_fn(*self.cipher),
            self.delta.block,
            gates,
            self.auth_bits@,
            self.sigma_bits@,
            self.init@,
            self.position as int,
        )
        &&& self.complete ==> self.position == gates.len()
    }

    fn new(
        delta: Delta,
        circ: &'a Circuit,
        labels: &'a mut Vec<Block>,
        auth_bits: &'a Vec<AuthBitShare>,
        sigma_bits: &'a Vec<AuthBitShare>,
        masked_values: &'a mut Vec<bool>,
        cipher: &'a H,
    ) -> (r: Self)
        requires
            circ.wf(),
            is_tweak_hash(*cipher),
            old(labels).len() >= circ.feeds(),
            old(masked_values).len() == circ.feeds(),
            auth_bits.len() >= circ.feeds(),
            sigma_bits.len() >= circ.and_len(),
        ensures
            r.wf(),
            r.generated() == 0,
            r.circuit() == circ,
            r.hash_fn() == tweak_fn(*cipher),
            r.offset() == delta.block,
            r.start() == old(labels)@,
            r.held() == (old(labels)@, old(masked_values)@),
            r.bits() == auth_bits@,
            r.sigmas() == sigma_bits@,
            *final(labels) == *final(r.labels),
            *final(masked_values) == *final(r.masked_values),
    {
        let ghost init = labels@;
        AuthEncryptedGateIter {
            cipher,
            delta,
            labels,
            auth_bits,
            sigma_bits,
            masked_values,
            circ,
            position: 0,
            gid: 1,
            counter: 0,
            complete: false,
            init: Ghost(init),
        }
    }

    /// No more gates are generated than the circuit has.
    pub proof fn lemma_generated(&self)
        requires
            self.wf(),
        ensures
            self.generated() <= self.circuit().and_len(),
    {
        lemma_ands_bound(
            self.circ.gate_seq(),
            self.position as int,
            self.circ.gate_seq().len() as int,
        );
    }

    /// Returns `true` if the generator has more encrypted gates to generate.
    pub fn has_gates(&self) -> (r: bool)
        requires
            self.wf(),
        ensures
            r == (self.generated() != self.circuit().and_len()),
    {
        self.counter != self.circ.and_count()
    }

    /// Generates the next encrypted gate.
    pub fn next(&mut self) -> (r: Option<AuthHalfGate>)
        requires
            old(self).wf(),
        ensures
            final(self).wf(),
            final(self).same_job(old(self)),
            *final(final(self).labels) == *final(old(self).labels),
            *final(final(self).masked_values) == *final(old(self).masked_values),
            final(self).held().1 == old(self).held().1,
            final(self).has_paused(),
            if old(self).generated() < old(self).circuit().and_len() {
                &&& r == Some(old(self).table()[old(self).generated() as int])
                &&& final(self).generated() == old(self).generated() + 1
            } else {
                &&& r is None
                &&& final(self).generated() == old(self).generated()
            },
        decreases old(self).gates_left(),
    {
        let ghost gates = self.circ.gate_seq();
        let ghost h = tweak_fn(*self.cipher);
        let ghost count = self.counter as int;
        let ghost len = gates.len() as int;
        proof {
            self.lemma_generated();
        }
        while self.position < self.circ.gates().len()
            invariant
                self.wf(),
                self.circ == old(self).circ,
                self.cipher == old(self).cipher,
                self.delta == old(self).delta,
                self.init == old(self).init,
                self.auth_bits == old(self).auth_bits,
                self.sigma_bits == old(self).sigma_bits,
                self.masked_values@ == old(self).masked_values@,
                *final(self.labels) == *final(old(self).labels),
                *final(self.masked_values) == *final(old(self).masked_values),
                self.counter == old(self).counter,
                self.position >= old(self).position,
                gates == self.circ.gate_seq(),
                len == gates.len(),
                h == tweak_fn(*self.cipher),
                count == self.counter,
                count <= ands(gates, len),
            decreases self.circ.gate_seq().len() - self.position,
        {
            proof {
                self.circ.lemma_wf();
                lemma_ands_bound(gates, self.position + 1, len);
                assert(gate_ok(
                    self.circ.input_len(),
                    self.circ.feeds(),
                    gates,
                    self.position as int,
                ));
            }
            let gate = self.circ.gates()[self.position];
            match gate {
                Gate::Xor { x, y, z } => {
                    let label = self.labels[x] ^ self.labels[y];
                    self.labels[z] = label;
                    self.position = self.position + 1;
                },
                Gate::Inv { x, z } => {
                    let label = self.labels[x] ^ *self.delta.as_block();
                    self.labels[z] = label;
                    self.position = self.position + 1;
                },
                Gate::Id { x, z } => {
                    let label = self.labels[x];
                    self.labels[z] = label;
                    self.position = self.position + 1;
                },
                Gate::And { x, y, z } => {
                    // Get labels for input wires
                    let lx = self.labels[x];
                    let ly = self.labels[y];

                    // Get input auth_bits
                    let sx = self.auth_bits[x];
                    let sy = self.auth_bits[y];

                    // Get AND of input auth_bits
                    let ss = self.sigma_bits[self.counter];

                    // Get output auth_bit for wire
                    let sz = self.auth_bits[z];

                    // Garble and compute output label
                    let (half_gate, lz) = and_gate(
                        &lx,
                        &ly,
                        &sx,
                        &sy,
                        &sz,
                        &ss,
                        self.delta.as_block(),
                        self.cipher,
                        self.gid,
                    );
                    self.labels[z] = lz;
                    self.position = self.position + 1;

                    self.gid = self.gid + 2;
                    self.counter = self.counter + 1;
                    proof {
                        let at = self.position as int;
                        let (bits, sigmas) = (self.auth_bits@, self.sigma_bits@);
                        let d = self.delta.block;
                        lemma_auth_table(h, d, gates, bits, sigmas, self.init@, at, len);
                        lemma_auth_table(h, d, gates, bits, sigmas, self.init@, at - 1, at);
                    }

                    // If we have generated all AND gates, we can compute
                    // the rest of the "free" gates.
                    if !self.has_gates() {
                        let _ = self.next();
                        self.complete = true;
                    }
                    return Some(half_gate);
                },
            }
        }
        None
    }

    /// Returns the encoded outputs of the circuit
    pub fn finish(self, masked_values: Vec<bool>) -> (r: Result<AuthGenOutput, AuthGeneratorError>)
        requires
            self.wf(),
            self.generated() == self.circuit().and_len() ==> masked_values.len()
                == self.circuit().feeds(),
        ensures
            if self.generated() != self.circuit().and_len() {
                &&& r == Err::<AuthGenOutput, AuthGeneratorError>(AuthGeneratorError::NotFinished)
                &&& (final(self.labels)@, final(self.masked_values)@) == self.held()
            } else {
                let circ = self.circuit();
                &&& final(self.labels)@ == self.labels_at_end()
                &&& final(self.masked_values)@ == masked_values@
                &&& r matches Ok(output)
                &&& key_blocks(output.output_labels@) == self.labels_at_end().subrange(
                    circ.out_start(),
                    circ.out_end(),
                )
                &&& output.output_auth_bits@ == self.bits().subrange(
                    circ.out_start(),
                    circ.out_end(),
                )
                &&& output.auth_hash == check_hash(
                    self.hash_fn(),
                    circ.gate_seq(),
                    self.sigmas(),
                    self.bits(),
                    masked_values@,
                    self.offset(),
                    circ.gate_seq().len() as int,
                )
            },
    {
        let mut this = self;
        if this.has_gates() {
            return Err(AuthGeneratorError::NotFinished);
        }
        // Finish computing any "free" gates.

        if !this.complete {
            let _ = this.next();
        }
        let output_labels = Key::from_blocks(output_range(&*this.labels, this.circ));
        let output_auth_bits = output_range(this.auth_bits, this.circ);
        *this.masked_values = masked_values;
        let auth_hash = compute_check_hash(
            this.cipher,
            this.circ,
            this.sigma_bits,
            this.auth_bits,
            &*this.masked_values,
            &this.delta,
        );
        Ok(AuthGenOutput { output_labels, output_auth_bits, auth_hash })
    }
}

/// Iterator returned by [`AuthGen::generate_batched`].
pub struct AuthEncryptedGateBatchIter<'a, H, const N: usize> {
    /// The iterator over single gates.
    pub iter: AuthEncryptedGateIter<'a, H>,
}

impl<'a, H: Fn(Block, Block) -> Block, const N: usize> AuthEncryptedGateBatchIter<'a, H, N> {
    /// Returns `true` if the generator has more encrypted gates to generate.
    pub fn has_gates(&self) -> (r: bool)
        requires
            self.iter.wf(),
        ensures
            r == (self.iter.generated() != self.iter.circuit().and_len()),
    {
        self.iter.has_gates()
    }

    /// Returns the encoded outputs of the circuit.
    pub fn finish(self, masked_values: Vec<bool>) -> (r: Result<AuthGenOutput, AuthGeneratorError>)
        requires
            self.iter.wf(),
            self.iter.generated() == self.iter.circuit().and_len() ==> masked_values.len()
                == self.iter.circuit().feeds(),
        ensures
            if self.iter.generated() != self.iter.circuit().and_len() {
                &&& r == Err::<AuthGenOutput, AuthGeneratorError>(AuthGeneratorError::NotFinished)
                &&& (final(self.iter.labels)@, final(self.iter.masked_values)@)
                    == self.iter.held()
            } else {
                let circ = self.iter.circuit();
                &&& final(self.iter.labels)@ == self.iter.labels_at_end()
                &&& final(self.iter.masked_values)@ == masked_values@
                &&& r matches Ok(output)
                &&& key_blocks(output.output_labels@) == self.iter.labels_at_end().subrange(
                    circ.out_start(),
                    circ.out_end(),
                )
                &&& output.output_auth_bits@ == self.iter.bits().subrange(
                    circ.out_start(),
                    circ.out_end(),
                )
                &&& output.auth_hash == check_hash(
                    self.iter.hash_fn(),
                    circ.gate_seq(),
                    self.iter.sigmas(),
                    self.iter.bits(),
                    masked_values@,
                    self.iter.offset(),
                    circ.gate_seq().len() as int,
                )
            },
    {
        self.iter.finish(masked_values)
    }

    /// Generates the next batch of encrypted gates; zeros pad the last one.
    pub fn next(&mut self) -> (r: Option<AuthHalfGateBatch<N>>)
        requires
            N > 0,
            old(self).iter.wf(),
        ensures
            final(self).iter.wf(),
            final(self).iter.same_job(&old(self).iter),
            *final(final(self).iter.labels) == *final(old(self).iter.labels),
            *final(final(self).iter.masked_values) == *final(old(self).iter.masked_values),
            final(self).iter.held().1 == old(self).iter.held().1,
            ({
                let count = old(self).iter.circuit().and_len();
                let done = old(self).iter.generated();
                if done < count {
                    &&& r matches Some(batch)
                    &&& batch.gates@ == auth_batch_of(old(self).iter.table(), done, N as nat)
                    &&& final(self).iter.has_paused()
                    &&& final(self).iter.generated() == if done + N < count {
                        done + N
                    } else {
                        count as int
                    }
                } else {
                    &&& r is None
                    &&& *final(self) == *old(self)
                }
            }),
    {
        proof {
            self.iter.lemma_generated();
        }
        if !self.has_gates() {
            return None;
        }
        let mut batch = [AuthHalfGate::default();N];
        let ghost table = self.iter.table();
        let ghost count = self.iter.circuit().and_len();
        let ghost done = self.iter.generated();
        proof {
            lemma_auth_table(
                self.iter.hash_fn(),
                self.iter.offset(),
                self.iter.circuit().gate_seq(),
                self.iter.bits(),
                self.iter.sigmas(),
                self.iter.start(),
                0,
                self.iter.circuit().gate_seq().len() as int,
            );
        }
        let mut i: usize = 0;
        while i < N && self.iter.has_gates()
            invariant
                self.iter.wf(),
                self.iter.same_job(&old(self).iter),
                *final(self.iter.labels) == *final(old(self).iter.labels),
                *final(self.iter.masked_values) == *final(old(self).iter.masked_values),
                self.iter.held().1 == old(self).iter.held().1,
                i > 0 ==> self.iter.has_paused(),
                i == 0 ==> done < count,
                table == old(self).iter.table(),
                count == old(self).iter.circuit().and_len(),
                table.len() == count,
                i <= N,
                self.iter.generated() == done + i,
                done + i <= count,
                forall|j: int|
                    0 <= j < N ==> batch@[j] == if j < i {
                        table[done + j]
                    } else {
                        empty_auth_gate()
                    },
            decreases N - i,
        {
            match self.iter.next() {
                Some(gate) => {
                    batch[i] = gate;
                },
                None => {},
            }
            i = i + 1;
        }
        assert(batch@ =~= auth_batch_of(table, done, N as nat));
        Some(AuthHalfGateBatch::new(batch))
    }
}

/// The `n` gates of a table from `start` on, with zeros behind the end.
pub open spec fn auth_batch_of(table: Seq<AuthHalfGate>, start: nat, n: nat) -> Seq<AuthHalfGate> {
    Seq::new(
        n,
        |i: int|
            if start + i < table.len() {
                table[start + i]
            } else {
                empty_auth_gate()
            },
    )
}

} // verus!
