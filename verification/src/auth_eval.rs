//! The evaluator of authenticated garbling.

use vstd::prelude::*;

use crate::auth::{
    assign_bits, check_hash, compute_check_hash, compute_derand_bits, compute_free_gates,
    derand_bits, derand_count, grown, hash_keys, hash_pairs, start_bits, store_front,
    with_free_gates,
};
use crate::auth_gen::{auth_gate_id, last_digest, shorter};
use crate::block::{tweak_of, Block};
use crate::circuit::{
    ands, gate_ok, lemma_ands_bound, output_range, AuthHalfGate, AuthHalfGateBatch, Circuit,
    CircuitError, Gate,
};
use crate::correlated::{mac_blocks, Delta, Mac};
use crate::hash::{block_fn, is_block_hash, is_tweak_hash, tweak_fn, tweak_hash, TweakFn};
use crate::shares::{sum, AuthBitShare, AuthTripleShare};
use crate::triples::{
    bucket_bits, check_round_1, check_round_2, check_round_3_eval, check_values, combine_buckets,
    corrected, differing, flipped_keys, grouped, is_order, key_masks, low_bits, merged_buckets,
    open_buckets, overlaid, pair_masks, push_grouped, shuffle, shuffled, xor_all, y_openings,
};
use crate::DEFAULT_BATCH_SIZE;

verus! {

/// Errors that can occur during garbled circuit evaluation.
#[derive(Clone, Copy, Debug, PartialEq, Eq, Structural)]
pub enum AuthEvaluatorError {
    /// The circuit is not valid.
    CircuitError(CircuitError),
    /// There are AND gates left to evaluate.
    NotFinished,
    /// The MAC of a gate is wrong.
    MacCheckFailed(usize),
    /// The number of shares is not that of the inputs.
    InvalidAuthBitCount {
        /// The number of inputs of the circuit.
        expected: usize,
        /// The number of shares.
        actual: usize,
    },
    /// There are fewer derandomization bits than AND gates.
    InvalidDerandCount {
        /// The number of AND gates of the circuit.
        expected: usize,
        /// The number of bits.
        actual: usize,
    },
    /// The number of MACs is not that of the inputs.
    InvalidInputMacCount {
        /// The number of inputs of the circuit.
        expected: usize,
        /// The number of MACs.
        actual: usize,
    },
    /// The number of masked values is not that of the inputs.
    InvalidMaskedInputCount {
        /// The number of inputs of the circuit.
        expected: usize,
        /// The number of masked values.
        actual: usize,
    },
    /// The number of MACs is not that of the outputs.
    InvalidOutputMacCount {
        /// The number of outputs of the circuit.
        expected: usize,
        /// The number of MACs.
        actual: usize,
    },
}

/// The active label of an AND gate's result and its masked value.
///
/// `lx` and `ly` are the active labels of the operands, `za` and `zb` their masked values.
pub open spec fn auth_evaluated_and(
    h: TweakFn,
    lx: Block,
    ly: Block,
    sx: AuthBitShare,
    sy: AuthBitShare,
    sz: AuthBitShare,
    ss: AuthBitShare,
    gate: AuthHalfGate,
    za: bool,
    zb: bool,
    gid: u128,
) -> (Block, bool) {
    let g_0 = gate.left_row.xor(sy.mac.block);
    let g_1 = gate.right_row.xor(sx.mac.block);
    let hx = h(tweak_of(gid), lx);
    let hy = h(tweak_of((gid + 1) as u128), ly);
    let lz = hx.xor(hy).xor(sz.mac.block).xor(ss.mac.block).xor(g_0.times(za)).xor(
        g_1.xor(lx).times(zb),
    );
    (lz, lz.low_bit() != gate.mask)
}

/// Evaluates an AND gate.
pub fn and_gate<H: Fn(Block, Block) -> Block>(
    lx: Block,
    ly: Block,
    sx: AuthBitShare,
    sy: AuthBitShare,
    sz: AuthBitShare,
    ss: AuthBitShare,
    encrypted_gate: AuthHalfGate,
    za: bool,
    zb: bool,
    cipher: &H,
    gid: u128,
) -> (r: (Block, bool))
    requires
        is_tweak_hash(*cipher),
        gid < u128::MAX,
    ensures
        r == auth_evaluated_and(
            tweak_fn(*cipher),
            lx,
            ly,
            sx,
            sy,
            sz,
            ss,
            encrypted_gate,
            za,
            zb,
            gid,
        ),
{
    let g_0 = encrypted_gate.left_row ^ *sy.mac.as_block();
    let g_1 = encrypted_gate.right_row ^ *sx.mac.as_block();

    let j = Block::tweak(gid);
    let k = Block::tweak(gid + 1);

    let hx = tweak_hash(cipher, j, lx);
    let hy = tweak_hash(cipher, k, ly);

    let sz_mac = *sz.mac.as_block();
    let ss_mac = *ss.mac.as_block();

    let lz = hx ^ hy ^ sz_mac ^ ss_mac ^ g_0.mul_bool(za) ^ (g_1 ^ lx).mul_bool(zb);
    let zc = lz.lsb() ^ encrypted_gate.mask;

    (lz, zc)
}

/// The evaluator's share of the product of two masks.
///
/// The triple's components differ from the masks by `px` and `py`.
pub open spec fn eval_sigma(t: AuthTripleShare, px: bool, py: bool) -> AuthBitShare {
    let a = if px {
        sum(t.z, t.y)
    } else {
        t.z
    };
    let b = if py {
        sum(a, t.x)
    } else {
        a
    };
    AuthBitShare { key: b.key, mac: b.mac, value: b.value != (px && py) }
}

/// Computes the evaluator's share of the product of two masks.
pub fn sigma_share(triple: &AuthTripleShare, px: bool, py: bool) -> (r: AuthBitShare)
    ensures
        r == eval_sigma(*triple, px, py),
{
    let mut sigma_share = triple.z;
    if px {
        sigma_share = sigma_share + triple.y;
    }
    if py {
        sigma_share = sigma_share + triple.x;
    }
    if px && py {
        sigma_share.value = !sigma_share.value;
    }
    sigma_share
}

/// The evaluator's shares of the products of masks, for the AND gates among the first `n` gates.
///
/// `px` and `py` are the bits that the generator sent.
pub open spec fn eval_sigmas(
    bits: Seq<AuthBitShare>,
    triples: Seq<AuthTripleShare>,
    px: Seq<bool>,
    py: Seq<bool>,
    gates: Seq<Gate>,
    n: int,
) -> Seq<AuthBitShare>
    decreases n,
{
    if n <= 0 {
        Seq::empty()
    } else {
        let before = eval_sigmas(bits, triples, px, py, gates, n - 1);
        let gate = gates[n - 1];
        let c = ands(gates, n - 1) as int;
        let t = triples[c];
        if gate is And {
            before.push(
                eval_sigma(
                    t,
                    (bits[gate.left()].value != t.x.value) != px[c],
                    (bits[gate.right()].value != t.y.value) != py[c],
                ),
            )
        } else {
            before
        }
    }
}

/// The active labels and the masked values of the wires after the first `n` gates.
pub open spec fn auth_evaluated(
    h: TweakFn,
    gates: Seq<Gate>,
    bits: Seq<AuthBitShare>,
    sigmas: Seq<AuthBitShare>,
    table: Seq<AuthHalfGate>,
    labels: Seq<Block>,
    masked: Seq<bool>,
    n: int,
) -> (Seq<Block>, Seq<bool>)
    decreases n,
{
    if n <= 0 {
        (labels, masked)
    } else {
        let (l, v) = auth_evaluated(h, gates, bits, sigmas, table, labels, masked, n - 1);
        let gate = gates[n - 1];
        let (x, y, z) = (gate.left(), gate.right(), gate.out());
        let c = ands(gates, n - 1) as int;
        let (label, value) = match gate {
            Gate::Xor { .. } => (l[x].xor(l[y]), v[x] != v[y]),
            Gate::Inv { .. } => (l[x], !v[x]),
            Gate::Id { .. } => (l[x], v[x]),
            Gate::And { .. } => auth_evaluated_and(
                h,
                l[x],
                l[y],
                bits[x],
                bits[y],
                bits[z],
                sigmas[c],
                table[c],
                v[x],
                v[y],
                auth_gate_id(gates, n - 1),
            ),
        };
        (l.update(z, label), v.update(z, value))
    }
}

/// The labels depend only on the encrypted gates of the AND gates that were passed.
pub proof fn lemma_auth_prefix(
    h: TweakFn,
    gates: Seq<Gate>,
    bits: Seq<AuthBitShare>,
    sigmas: Seq<AuthBitShare>,
    s: Seq<AuthHalfGate>,
    t: Seq<AuthHalfGate>,
    labels: Seq<Block>,
    masked: Seq<bool>,
    n: int,
)
    requires
        forall|i: int| 0 <= i < ands(gates, n) ==> s[i] == t[i],
    ensures
        auth_evaluated(h, gates, bits, sigmas, s, labels, masked, n) == auth_evaluated(
            h,
            gates,
            bits,
            sigmas,
            t,
            labels,
            masked,
            n,
        ),
    decreases n,
{
    if n > 0 {
        lemma_auth_prefix(h, gates, bits, sigmas, s, t, labels, masked, n - 1);
    }
}

/// Output of the authenticated evaluator.
#[derive(Debug)]
pub struct AuthEvalOutput {
    /// Output labels of the circuit.
    pub output_labels: Vec<Mac>,
    /// Output auth bits of the circuit.
    pub output_auth_bits: Vec<AuthBitShare>,
    /// Authentication hash of the circuit.
    pub auth_hash: Block,
    /// Output values of the circuit.
    pub masked_output_values: Vec<bool>,
    /// All masked values of the circuit.
    pub masked_values: Vec<bool>,
}

/// Authenticated garbled circuit evaluator.
#[derive(Debug)]
pub struct AuthEval {
    /// Active labels of the wires.
    pub labels: Vec<Block>,
    /// Shares of the masks of the wires.
    pub auth_bits: Vec<AuthBitShare>,
    /// Shares of the products of masks.
    pub sigma_bits: Vec<AuthBitShare>,
    /// Masked values of the wires.
    pub masked_values: Vec<bool>,
    /// Shares of triples.
    pub triples: Vec<AuthTripleShare>,
    /// Shares of triples that are not combined yet.
    pub leaky_triples: Vec<AuthTripleShare>,
    /// Order in which the leaky triples fill buckets.
    pub permutation: Vec<usize>,
    /// Seed of the order, via secure coin toss.
    pub seed: u64,
    /// Number of leaky triples that make one triple.
    pub bucket_size: usize,
}

/// The buffer with exactly `n` elements.
pub open spec fn resized<T>(buffer: Seq<T>, n: nat, filler: T) -> Seq<T> {
    grown(buffer, n, filler).take(n as int)
}

/// The buffers of labels and of masked values, with room for `n` wires.
pub open spec fn roomy(labels: Seq<Block>, masked: Seq<bool>, n: nat) -> (Seq<Block>, Seq<bool>) {
    if n > labels.len() || n > masked.len() {
        (resized(labels, n, Block { bits: 0 }), resized(masked, n, false))
    } else {
        (labels, masked)
    }
}

impl AuthEval {
    /// Create a new AuthEval with seed from coin-tossing
    pub fn new(seed: u64, bucket_size: usize) -> (r: AuthEval)
        ensures
            r.labels@ == Seq::<Block>::empty(),
            r.auth_bits@ == Seq::<AuthBitShare>::empty(),
            r.sigma_bits@ == Seq::<AuthBitShare>::empty(),
            r.masked_values@ == Seq::<bool>::empty(),
            r.triples@ == Seq::<AuthTripleShare>::empty(),
            r.leaky_triples@ == Seq::<AuthTripleShare>::empty(),
            r.permutation@ == Seq::<usize>::empty(),
            r.seed == seed,
            r.bucket_size == bucket_size,
    {
        AuthEval {
            labels: Vec::new(),
            auth_bits: Vec::new(),
            sigma_bits: Vec::new(),
            masked_values: Vec::new(),
            triples: Vec::new(),
            leaky_triples: Vec::new(),
            permutation: Vec::new(),
            seed,
            bucket_size,
        }
    }

    /// Set input auth bits, begin generation of triples
    pub fn evaluate_pre_1<C: Fn(Block) -> Block>(
        &mut self,
        circ: &Circuit,
        delta: Delta,
        input_auth_bits: &[AuthBitShare],
        shares: &[AuthBitShare],
        cr: &C,
    ) -> (r: Result<(Vec<Block>, Vec<Block>), AuthEvaluatorError>)
        requires
            circ.wf(),
            is_block_hash(*cr),
            input_auth_bits.len() == circ.input_len() ==> shares.len() >= circ.and_len(),
        ensures
            if input_auth_bits.len() != circ.input_len() {
                &&& r == Err::<(Vec<Block>, Vec<Block>), AuthEvaluatorError>(
                    AuthEvaluatorError::InvalidAuthBitCount {
                        expected: circ.input_len() as usize,
                        actual: input_auth_bits.len(),
                    },
                )
                &&& *final(self) == *old(self)
            } else {
                let leaky = old(self).leaky_triples@ + grouped(shares@.skip(circ.and_len() as int));
                let c = y_openings(leaky, delta.block);
                &&& r matches Ok((c_out, g_out)) && c_out@ == c && g_out@ == xor_all(
                    c,
                    key_masks(block_fn(*cr), leaky, delta.block),
                )
                &&& final(self).auth_bits@ == start_bits(
                    old(self).auth_bits@,
                    circ,
                    input_auth_bits@,
                    shares@,
                )
                &&& final(self).auth_bits.len() >= circ.feeds()
                &&& final(self).leaky_triples@ == leaky
                &&& *final(self) == (AuthEval {
                    auth_bits: final(self).auth_bits,
                    leaky_triples: final(self).leaky_triples,
                    ..*old(self)
                })
            },
    {
        if input_auth_bits.len() != circ.input_count() {
            return Err(
                AuthEvaluatorError::InvalidAuthBitCount {
                    expected: circ.input_count(),
                    actual: input_auth_bits.len(),
                },
            );
        }
        let count: usize = assign_bits(&mut self.auth_bits, circ, input_auth_bits, shares);
        push_grouped(&mut self.leaky_triples, shares, count);
        let masks = hash_keys(&self.leaky_triples, &delta, cr);
        Ok(check_round_1(&self.leaky_triples, &delta, &masks))
    }

    /// Triple generation, Round 2
    pub fn evaluate_pre_2<C: Fn(Block) -> Block>(
        &mut self,
        delta: Delta,
        c: Vec<Block>,
        g: &mut Vec<Block>,
        gr: Vec<Block>,  // received
        cr: &C,
    ) -> (r: Result<Vec<bool>, AuthEvaluatorError>)
        requires
            is_block_hash(*cr),
            c.len() >= old(self).leaky_triples.len(),
            old(g).len() >= old(self).leaky_triples.len(),
            gr.len() >= old(self).leaky_triples.len(),
        ensures
            *final(self) == *old(self),
            ({
                let leaky = old(self).leaky_triples@;
                let values = check_values(
                    leaky,
                    delta.block,
                    pair_masks(block_fn(*cr), leaky),
                    c@,
                    gr@,
                );
                &&& r matches Ok(d) && d@ == low_bits(values)
                &&& final(g)@ == overlaid(values, old(g)@)
            }),
    {
        let masks = hash_pairs(&self.leaky_triples, cr);
        Ok(check_round_2(&self.leaky_triples, &delta, &masks, &c, g, &gr))
    }

    /// Triple generation, Round 3
    pub fn evaluate_pre_3(
        &mut self,
        delta: Delta,
        g: &mut Vec<Block>,
        d: Vec<bool>,
        dr: Vec<bool>,  // received
    ) -> (r: Result<Vec<bool>, AuthEvaluatorError>)
        requires
            old(g).len() >= old(self).leaky_triples.len(),
            d.len() >= old(self).leaky_triples.len(),
            dr.len() >= old(self).leaky_triples.len(),
            old(self).bucket_size > 0,
            old(self).leaky_triples.len() as int % old(self).bucket_size as int == 0,
        ensures
            ({
                let total = old(self).leaky_triples.len() as nat;
                let flips = differing(d@, dr@, total);
                let leaky = flipped_keys(old(self).leaky_triples@, delta.block, flips);
                let order = shuffled(old(self).seed, total);
                &&& final(self).leaky_triples@ == leaky
                &&& final(g)@ == corrected(old(g)@, delta.block, flips)
                &&& final(self).permutation@ == order
                &&& is_order(order, total)
                &&& r matches Ok(data) && data@ == bucket_bits(
                    leaky,
                    order,
                    old(self).bucket_size as int,
                )
            }),
            *final(self) == (AuthEval {
                leaky_triples: final(self).leaky_triples,
                permutation: final(self).permutation,
                ..*old(self)
            }),
    {
        check_round_3_eval(&mut self.leaky_triples, &delta, g, &d, &dr);
        self.permutation = shuffle(self.seed, self.leaky_triples.len());
        Ok(open_buckets(&self.leaky_triples, &self.permutation, self.bucket_size))
    }

    /// Generates digest for equality check
    pub fn check_equality<C: Fn(Block) -> Block>(&self, g: Vec<Block>, ccr: &C) -> (r: Result<
        Block,
        AuthEvaluatorError,
    >)
        requires
            g.len() > 0,
            is_block_hash(*ccr),
        ensures
            r matches Ok(digest) && digest == block_fn(*ccr)(g@.last()),
    {
        Ok(last_digest(&g, ccr))
    }

    /// Uses received salt to generate expected hash for equality check
    pub fn check_salt<H: Fn(Block, Block) -> Block>(
        &self,
        salt: Block,
        digest: Block,
        tccr: &H,
    ) -> (r: Result<Block, AuthEvaluatorError>)
        requires
            is_tweak_hash(*tccr),
        ensures
            r matches Ok(hash) && hash == tweak_fn(*tccr)(salt, digest),
    {
        Ok(tweak_hash(tccr, salt, digest))
    }

    /// Triple generation, Round 4
    pub fn evaluate_pre_4(
        &mut self,
        data: Vec<bool>,
        data_recv: Vec<bool>,  // received
    ) -> (r: Result<(), AuthEvaluatorError>)
        requires
            old(self).bucket_size > 0,
            old(self).leaky_triples.len() as int % old(self).bucket_size as int == 0,
            is_order(old(self).permutation@, old(self).leaky_triples.len() as nat),
            data.len() >= old(self).leaky_triples.len(),
            data_recv.len() >= old(self).leaky_triples.len(),
        ensures
            r is Ok,
            final(self).triples@ == old(self).triples@ + merged_buckets(
                old(self).leaky_triples@,
                old(self).permutation@,
                old(self).bucket_size as int,
                differing(data@, data_recv@, old(self).leaky_triples.len() as nat),
            ),
            *final(self) == (AuthEval { triples: final(self).triples, ..*old(self) }),
    {
        combine_buckets(
            &self.leaky_triples,
            &self.permutation,
            self.bucket_size,
            &data,
            &data_recv,
            &mut self.triples,
        );
        Ok(())
    }

    /// Circuit dependent local preprocessing.
    pub fn evaluate_free(&mut self, circ: &Circuit) -> (r: Result<(), AuthEvaluatorError>)
        requires
            circ.wf(),
            old(self).auth_bits.len() >= circ.feeds(),
        ensures
            r is Ok,
            final(self).auth_bits@ == with_free_gates(
                old(self).auth_bits@,
                circ.gate_seq(),
                circ.gate_seq().len() as int,
            ),
            final(self).auth_bits.len() == old(self).auth_bits.len(),
            *final(self) == (AuthEval { auth_bits: final(self).auth_bits, ..*old(self) }),
    {
        compute_free_gates(&mut self.auth_bits, circ);
        Ok(())
    }

    /// Generates the derandomized bits for circuit-dependent AND gate preprocessing.
    pub fn evaluate_de(&self, circ: &Circuit) -> (r: Result<
        (Vec<bool>, Vec<bool>),
        AuthEvaluatorError,
    >)
        requires
            circ.wf(),
            self.auth_bits.len() >= circ.feeds(),
            self.triples.len() >= circ.and_len(),
        ensures
            r matches Ok((px, py)) && (px@, py@) == derand_bits(
                self.auth_bits@,
                self.triples@,
                circ.gate_seq(),
                circ.gate_seq().len() as int,
            ),
    {
        Ok(compute_derand_bits(&self.auth_bits, &self.triples, circ))
    }

    /// Generates a consumer over the encrypted gates of a circuit, finish circuit dependent
    /// preprocessing
    ///
    /// The consumer works on the evaluator's buffers of labels and masked values.
    pub fn evaluate<'a, H: Fn(Block, Block) -> Block>(
        &'a mut self,
        circ: &'a Circuit,
        delta: Delta,
        input_labels: &[Mac],
        masked_inputs: Vec<bool>,
        px: Vec<bool>,  // received
        py: Vec<bool>,  // received
        cipher: &'a H,
    ) -> (r: Result<AuthEncryptedGateConsumer<'a, H>, AuthEvaluatorError>)
        requires
            circ.wf(),
            is_tweak_hash(*cipher),
            input_labels.len() == circ.input_len() && masked_inputs.len() == circ.input_len()
                && px.len() >= circ.and_len() && py.len() >= circ.and_len()
                ==> old(self).auth_bits.len() >= circ.feeds() && old(self).triples.len()
                >= circ.and_len(),
        ensures
            evaluation(
                *old(self),
                *final(self),
                circ,
                delta,
                input_labels@,
                masked_inputs@,
                px@,
                py@,
                tweak_fn(*cipher),
                r,
            ),
            r matches Ok(consumer) ==> final(self).labels == *final(consumer.labels)
                && final(self).masked_values == *final(consumer.masked_values),
    {
        proof {
            circ.lemma_wf();
        }
        if input_labels.len() != circ.input_count() {
            return Err(
                AuthEvaluatorError::InvalidInputMacCount {
                    expected: circ.input_count(),
                    actual: input_labels.len(),
                },
            );
        }
        if masked_inputs.len() != circ.input_count() {
            return Err(
                AuthEvaluatorError::InvalidMaskedInputCount {
                    expected: circ.input_count(),
                    actual: masked_inputs.len(),
                },
            );
        }
        if circ.feed_count() > self.labels.len() || circ.feed_count() > self.masked_values.len() {
            self.labels.resize(circ.feed_count(), Block::zero());
            self.masked_values.resize(circ.feed_count(), false);
            assert(self.labels@ =~= resized(old(self).labels@, circ.feeds(), Block { bits: 0 }));
            assert(self.masked_values@ =~= resized(
                old(self).masked_values@,
                circ.feeds(),
                false,
            ));
        }
        let blocks = Mac::as_blocks(input_labels);
        store_front(&mut self.labels, blocks.as_slice(), circ.feed_count(), Block::zero());
        store_front(&mut self.masked_values, masked_inputs.as_slice(), circ.feed_count(), false);
        let count: usize = derand_count(&px, &py);
        if count < circ.and_count() {
            return Err(
                AuthEvaluatorError::InvalidDerandCount {
                    expected: circ.and_count(),
                    actual: count,
                },
            );
        }
        let ghost rooms = roomy(old(self).labels@, old(self).masked_values@, circ.feeds());
        let gates = circ.gates();
        let mut and_count: usize = 0;
        for i in 0..gates.len()
            invariant
                circ.wf(),
                gates@ == circ.gate_seq(),
                and_count == ands(gates@, i as int),
                self.auth_bits.len() >= circ.feeds(),
                self.triples.len() >= circ.and_len(),
                px.len() >= circ.and_len(),
                py.len() >= circ.and_len(),
                self.sigma_bits@ == old(self).sigma_bits@ + eval_sigmas(
                    self.auth_bits@,
                    self.triples@,
                    px@,
                    py@,
                    gates@,
                    i as int,
                ),
                *self == (AuthEval {
                    labels: self.labels,
                    masked_values: self.masked_values,
                    sigma_bits: self.sigma_bits,
                    ..*old(self)
                }),
                self.labels@ == overlaid(mac_blocks(input_labels@), rooms.0),
                self.masked_values@ == overlaid(masked_inputs@, rooms.1),
        {
            proof {
                circ.lemma_wf();
                assert(gate_ok(circ.input_len(), circ.feeds(), gates@, i as int));
                lemma_ands_bound(gates@, i + 1, gates@.len() as int);
            }
            match gates[i] {
                Gate::And { x, y, z: _ } => {
                    let sx = self.auth_bits[x];
                    let sy = self.auth_bits[y];
                    let triple = self.triples[and_count];
                    let px = sx.bit() ^ triple.x.bit() ^ px[and_count];
                    let py = sy.bit() ^ triple.y.bit() ^ py[and_count];
                    // Compute auth_bit for output wire of this AND gate
                    let ss = sigma_share(&triple, px, py);
                    self.sigma_bits.push(ss);
                    and_count = and_count + 1;
                },
                _ => {},
            }
            assert(self.sigma_bits@ =~= old(self).sigma_bits@ + eval_sigmas(
                self.auth_bits@,
                self.triples@,
                px@,
                py@,
                gates@,
                i + 1,
            ));
        }
        proof {
            lemma_eval_sigmas_len(
                self.auth_bits@,
                self.triples@,
                px@,
                py@,
                gates@,
                gates@.len() as int,
            );
        }
        Ok(
            AuthEncryptedGateConsumer::new(
                delta,
                circ,
                &mut self.labels,
                &self.auth_bits,
                &self.sigma_bits,
                &mut self.masked_values,
                cipher,
            ),
        )
    }

    /// Generates a consumer over the batched encrypted gates of a circuit, finish circuit
    /// dependent preprocessing
    pub fn evaluate_batched<'a, H: Fn(Block, Block) -> Block>(
        &'a mut self,
        circ: &'a Circuit,
        delta: Delta,
        input_labels: &[Mac],
        masked_inputs: Vec<bool>,
        px: Vec<bool>,
        py: Vec<bool>,
        cipher: &'a H,
    ) -> (r: Result<AuthEncryptedGateBatchConsumer<'a, H, DEFAULT_BATCH_SIZE>, AuthEvaluatorError>)
        requires
            circ.wf(),
            is_tweak_hash(*cipher),
            input_labels.len() == circ.input_len() && masked_inputs.len() == circ.input_len()
                && px.len() >= circ.and_len() && py.len() >= circ.and_len()
                ==> old(self).auth_bits.len() >= circ.feeds() && old(self).triples.len()
                >= circ.and_len(),
        ensures
            evaluation(
                *old(self),
                *final(self),
                circ,
                delta,
                input_labels@,
                masked_inputs@,
                px@,
                py@,
                tweak_fn(*cipher),
                match r {
                    Ok(batched) => Ok::<AuthEncryptedGateConsumer<'a, H>, AuthEvaluatorError>(
                        batched.consumer,
                    ),
                    Err(err) => Err::<AuthEncryptedGateConsumer<'a, H>, AuthEvaluatorError>(err),
                },
            ),
            r matches Ok(batched) ==> final(self).labels == *final(batched.consumer.labels)
                && final(self).masked_values == *final(batched.consumer.masked_values),
    {
        match self.evaluate(circ, delta, input_labels, masked_inputs, px, py, cipher) {
            Ok(consumer) => Ok(AuthEncryptedGateBatchConsumer { consumer }),
            Err(err) => Err(err),
        }
    }
}

/// There is a share for each AND gate.
proof fn lemma_eval_sigmas_len(
    bits: Seq<AuthBitShare>,
    triples: Seq<AuthTripleShare>,
    px: Seq<bool>,
    py: Seq<bool>,
    gates: Seq<Gate>,
    n: int,
)
    ensures
        eval_sigmas(bits, triples, px, py, gates, n).len() == ands(gates, n),
    decreases n,
{
    if n > 0 {
        lemma_eval_sigmas_len(bits, triples, px, py, gates, n - 1);
    }
}

/// What starting to evaluate a circuit does to the evaluator and what it returns. The consumer holds
/// the buffers of labels and masked values from then on.
pub open spec fn evaluation<'a, H: Fn(Block, Block) -> Block>(
    before: AuthEval,
    after: AuthEval,
    circ: &Circuit,
    delta: Delta,
    macs: Seq<Mac>,
    masked: Seq<bool>,
    px: Seq<bool>,
    py: Seq<bool>,
    h: TweakFn,
    r: Result<AuthEncryptedGateConsumer<'a, H>, AuthEvaluatorError>,
) -> bool {
    let rooms = roomy(before.labels@, before.masked_values@, circ.feeds());
    let labels = overlaid(mac_blocks(macs), rooms.0);
    let values = overlaid(masked, rooms.1);
    if macs.len() != circ.input_len() {
        &&& after == before
        &&& r == Err::<AuthEncryptedGateConsumer<'a, H>, AuthEvaluatorError>(
            AuthEvaluatorError::InvalidInputMacCount {
                expected: circ.input_len() as usize,
                actual: macs.len() as usize,
            },
        )
    } else if masked.len() != circ.input_len() {
        &&& after == before
        &&& r == Err::<AuthEncryptedGateConsumer<'a, H>, AuthEvaluatorError>(
            AuthEvaluatorError::InvalidMaskedInputCount {
                expected: circ.input_len() as usize,
                actual: masked.len() as usize,
            },
        )
    } else if shorter(px.len(), py.len()) < circ.and_len() {
        &&& after.labels@ == labels
        &&& after.masked_values@ == values
        &&& after == (AuthEval {
            labels: after.labels,
            masked_values: after.masked_values,
            ..before
        })
        &&& r == Err::<AuthEncryptedGateConsumer<'a, H>, AuthEvaluatorError>(
            AuthEvaluatorError::InvalidDerandCount {
                expected: circ.and_len() as usize,
                actual: shorter(px.len(), py.len()) as usize,
            },
        )
    } else {
        &&& after.sigma_bits@ == before.sigma_bits@ + eval_sigmas(
            before.auth_bits@,
            before.triples@,
            px,
            py,
            circ.gate_seq(),
            circ.gate_seq().len() as int,
        )
        &&& after == (AuthEval {
            labels: after.labels,
            masked_values: after.masked_values,
            sigma_bits: after.sigma_bits,
            ..before
        })
        &&& r matches Ok(consumer)
        &&& consumer.wf()
        &&& consumer.consumed() == Seq::<AuthHalfGate>::empty()
        &&& consumer.circuit() == circ
        &&& consumer.hash_fn() == h
        &&& consumer.offset() == delta.block
        &&& consumer.start() == (labels, values)
        &&& consumer.bits() == before.auth_bits@
        &&& consumer.sigmas() == after.sigma_bits@
        &&& consumer.held() == (labels, values)
    }
}

/// Consumer over the encrypted gates of a circuit.
///
/// It writes labels and masked values to the buffers of the evaluator that made it.
pub struct AuthEncryptedGateConsumer<'a, H> {
    /// Cipher to use to decrypt the gates.
    pub cipher: &'a H,
    /// Global offset.
    pub delta: Delta,
    /// Buffer for the active labels.
    pub labels: &'a mut Vec<Block>,
    /// Buffer for the auth bits.
    pub auth_bits: &'a Vec<AuthBitShare>,
    /// Buffer for the sigma bits.
    pub sigma_bits: &'a Vec<AuthBitShare>,
    /// Buffer for the masked values.
    pub masked_values: &'a mut Vec<bool>,
    /// The circuit.
    pub circ: &'a Circuit,
    /// Number of gates that are done.
    pub position: usize,
    /// Current gate id.
    pub gid: u128,
    /// Number of AND gates evaluated.
    pub counter: usize,
    /// Whether the entire circuit has been evaluated.
    pub complete: bool,
    /// The labels and masked values that the consumer started from.
    pub init: Ghost<(Seq<Block>, Seq<bool>)>,
    /// The encrypted gates that were evaluated.
    pub table: Ghost<Seq<AuthHalfGate>>,
}

impl<'a, H: Fn(Block, Block) -> Block> AuthEncryptedGateConsumer<'a, H> {
    /// The circuit.
    pub closed spec fn circuit(&self) -> &Circuit {
        self.circ
    }

    /// The function that the cipher computes.
    pub closed spec fn hash_fn(&self) -> TweakFn {
        tweak_fn(*self.cipher)
    }

    /// The global offset.
    pub closed spec fn offset(&self) -> Block {
        self.delta.block
    }

    /// The labels and masked values that the consumer started from.
    pub closed spec fn start(&self) -> (Seq<Block>, Seq<bool>) {
        self.init@
    }

    /// The shares of the masks of the wires.
    pub closed spec fn bits(&self) -> Seq<AuthBitShare> {
        self.auth_bits@
    }

    /// The shares of the products of masks.
    pub closed spec fn sigmas(&self) -> Seq<AuthBitShare> {
        self.sigma_bits@
    }

    /// The encrypted gates that were evaluated.
    pub closed spec fn consumed(&self) -> Seq<AuthHalfGate> {
        self.table@
    }

    /// The number of gates that are left to do.
    pub closed spec fn gates_left(&self) -> int {
        self.circ.gate_seq().len() - self.position
    }

    /// The active labels and masked values of all wires, with the encrypted gates that were
    /// evaluated.
    pub open spec fn state_at_end(&self) -> (Seq<Block>, Seq<bool>) {
        auth_evaluated(
            self.hash_fn(),
            self.circuit().gate_seq(),
            self.bits(),
            self.sigmas(),
            self.consumed(),
            self.start().0,
            self.start().1,
            self.circuit().gate_seq().len() as int,
        )
    }

    /// The labels and masked values that the buffers hold.
    pub open spec fn held(&self) -> (Seq<Block>, Seq<bool>) {
        (self.labels@, self.masked_values@)
    }

    /// The consumer stands behind the last AND gate that it evaluated, or behind the last gate if no
    /// AND gate is left, and its buffers hold what was evaluated up to there.
    pub open spec fn has_paused(&self) -> bool {
        let gates = self.circuit().gate_seq();
        let done = gates.len() - self.gates_left();
        &&& 0 <= done
        &&& ands(gates, done) == self.consumed().len()
        &&& if self.consumed().len() < self.circuit().and_len() {
            done > 0 && gates[done - 1] is And
        } else {
            done == gates.len()
        }
        &&& self.held() == auth_evaluated(
            self.hash_fn(),
            gates,
            self.bits(),
            self.sigmas(),
            self.consumed(),
            self.start().0,
            self.start().1,
            done,
        )
    }

    /// The two consumers evaluate the same circuit from the same state.
    pub open spec fn same_job(&self, other: &Self) -> bool {
        &&& self.circuit() == other.circuit()
        &&& self.hash_fn() == other.hash_fn()
        &&& self.offset() == other.offset()
        &&& self.start() == other.start()
        &&& self.bits() == other.bits()
        &&& self.sigmas() == other.sigmas()
    }

    /// What every consumer satisfies.
    pub closed spec fn wf(&self) -> bool {
        let gates = self.circ.gate_seq();
        &&& self.circ.wf()
        &&& is_tweak_hash(*self.cipher)
        &&& self.position <= gates.len()
        &&& self.counter == ands(gates, self.position as int)
        &&& self.table@.len() == self.counter
        &&& self.gid == 1 + 2 * self.counter
        &&& self.init@.0.len() >= self.circ.feeds()
        &&& self.init@.1.len() >= self.circ.feeds()
        &&& self.labels.len() == self.init@.0.len()
        &&& self.masked_values.len() == self.init@.1.len()
        &&& self.auth_bits.len() >= self.circ.feeds()
        &&& self.sigma_bits.len() >= self.circ.and_len()
        &&& (self.labels@, self.masked_values@) == auth_evaluated(
            tweak_fn(*self.cipher),
            gates,
            self.auth_bits@,
            self.sigma_bits@,
            self.table@,
            self.init@.0,
            self.init@.1,
            self.position as int,
        )
        &&& self.complete ==> self.position == gates.len()
    }

    fn new(
        delta: Delta,
        circ: &'a Circuit,
        labels: &'a mut Vec<Block>,
        auth_bits: &'a Vec<AuthBitShare>,
        sigma_bits: &'a Vec<AuthBitShare>,
        masked_values: &'a mut Vec<bool>,
        cipher: &'a H,
    ) -> (r: Self)
        requires
            circ.wf(),
            is_tweak_hash(*cipher),
            old(labels).len() >= circ.feeds(),
            old(masked_values).len() >= circ.feeds(),
            auth_bits.len() >= circ.feeds(),
            sigma_bits.len() >= circ.and_len(),
        ensures
            r.wf(),
            r.consumed() == Seq::<AuthHalfGate>::empty(),
            r.circuit() == circ,
            r.hash_fn() == tweak_fn(*cipher),
            r.offset() == delta.block,
            r.start() == (old(labels)@, old(masked_values)@),
            r.held() == r.start(),
            r.bits() == auth_bits@,
            r.sigmas() == sigma_bits@,
            *final(labels) == *final(r.labels),
            *final(masked_values) == *final(r.masked_values),
    {
        let ghost init = (labels@, masked_values@);
        AuthEncryptedGateConsumer {
            cipher,
            delta,
            labels,
            auth_bits,
            sigma_bits,
            masked_values,
            circ,
            position: 0,
            gid: 1,
            counter: 0,
            complete: false,
            init: Ghost(init),
            table: Ghost(Seq::empty()),
        }
    }

    /// No more gates are evaluated than the circuit has.
    pub proof fn lemma_consumed(&self)
        requires
            self.wf(),
        ensures
            self.consumed().len() <= self.circuit().and_len(),
    {
        lemma_ands_bound(
            self.circ.gate_seq(),
            self.position as int,
            self.circ.gate_seq().len() as int,
        );
    }

    /// Returns `true` if the evaluator wants more encrypted gates.
    pub fn wants_gates(&self) -> (r: bool)
        requires
            self.wf(),
        ensures
            r == (self.consumed().len() != self.circuit().and_len()),
    {
        self.counter != self.circ.and_count()
    }

    /// Evaluates the next encrypted gate in the circuit.
    pub fn next(&mut self, encrypted_gate: AuthHalfGate)
        requires
            old(self).wf(),
        ensures
            final(self).wf(),
            final(self).same_job(old(self)),
            *final(final(self).labels) == *final(old(self).labels),
            *final(final(self).masked_values) == *final(old(self).masked_values),
            if old(self).consumed().len() < old(self).circuit().and_len() {
                final(self).consumed() == old(self).consumed().push(encrypted_gate)
            } else {
                final(self).consumed() == old(self).consumed()
            },
            final(self).has_paused(),
    {
        let ghost gates = self.circ.gate_seq();
        let ghost h = tweak_fn(*self.cipher);
        let ghost len = gates.len() as int;
        let ghost before = self.table@;
        proof {
            self.lemma_consumed();
        }
        while self.position < self.circ.gates().len()
            invariant
                self.wf(),
                self.circ == old(self).circ,
                self.cipher == old(self).cipher,
                self.delta == old(self).delta,
                self.init == old(self).init,
                self.auth_bits == old(self).auth_bits,
                self.sigma_bits == old(self).sigma_bits,
                *final(self.labels) == *final(old(self).labels),
                *final(self.masked_values) == *final(old(self).masked_values),
                gates == self.circ.gate_seq(),
                len == gates.len(),
                h == tweak_fn(*self.cipher),
                before == old(self).table@,
                before.len() <= ands(gates, len),
                self.table@ == before || (before.len() + 1 == ands(gates, len) && self.table@
                    == before.push(encrypted_gate)),
            decreases self.circ.gate_seq().len() - self.position,
        {
            proof {
                self.circ.lemma_wf();
                lemma_ands_bound(gates, self.position + 1, len);
                assert(gate_ok(
                    self.circ.input_len(),
                    self.circ.feeds(),
                    gates,
                    self.position as int,
                ));
            }
            let gate = self.circ.gates()[self.position];
            match gate {
                Gate::Xor { x, y, z } => {
                    let label = self.labels[x] ^ self.labels[y];
                    self.labels[z] = label;
                    let value = self.masked_values[x] ^ self.masked_values[y];
                    self.masked_values[z] = value;
                    self.position = self.position + 1;
                },
                Gate::Inv { x, z } => {
                    let label = self.labels[x];
                    self.labels[z] = label;
                    let value = !self.masked_values[x];
                    self.masked_values[z] = value;
                    self.position = self.position + 1;
                },
                Gate::Id { x, z } => {
                    let label = self.labels[x];
                    self.labels[z] = label;
                    let value = self.masked_values[x];
                    self.masked_values[z] = value;
                    self.position = self.position + 1;
                },
                Gate::And { x, y, z } => {
                    // Evaluate the AND gate
                    let (lz, zc) = and_gate(
                        self.labels[x],
                        self.labels[y],
                        self.auth_bits[x],
                        self.auth_bits[y],
                        self.auth_bits[z],
                        self.sigma_bits[self.counter],
                        encrypted_gate,
                        self.masked_values[x],
                        self.masked_values[y],
                        self.cipher,
                        self.gid,
                    );
                    // Set output masked value and label
                    self.masked_values[z] = zc;
                    self.labels[z] = lz;
                    proof {
                        lemma_auth_prefix(
                            h,
                            gates,
                            self.auth_bits@,
                            self.sigma_bits@,
                            self.table@,
                            self.table@.push(encrypted_gate),
                            self.init@.0,
                            self.init@.1,
                            self.position as int,
                        );
                    }
                    self.table = Ghost(self.table@.push(encrypted_gate));
                    self.position = self.position + 1;

                    self.counter = self.counter + 1;
                    self.gid = self.gid + 2;

                    // If we have more AND gates to evaluate, return.
                    if self.wants_gates() {
                        return;
                    }
                },
            }
        }
        self.complete = true;
    }

    /// Returns the encoded outputs of the circuit.
    pub fn finish(self) -> (r: Result<AuthEvalOutput, AuthEvaluatorError>)
        requires
            self.wf(),
        ensures
            if self.consumed().len() != self.circuit().and_len() {
                &&& r == Err::<AuthEvalOutput, AuthEvaluatorError>(AuthEvaluatorError::NotFinished)
                &&& (final(self.labels)@, final(self.masked_values)@) == self.held()
            } else {
                let circ = self.circuit();
                let (labels, masked) = self.state_at_end();
                &&& final(self.labels)@ == labels
                &&& final(self.masked_values)@ == masked
                &&& r matches Ok(output)
                &&& mac_blocks(output.output_labels@) == labels.subrange(
                    circ.out_start(),
                    circ.out_end(),
                )
                &&& output.output_auth_bits@ == self.bits().subrange(
                    circ.out_start(),
                    circ.out_end(),
                )
                &&& output.masked_output_values@ == masked.subrange(
                    circ.out_start(),
                    circ.out_end(),
                )
                &&& output.masked_values@ == masked
                &&& output.auth_hash == check_hash(
                    self.hash_fn(),
                    circ.gate_seq(),
                    self.sigmas(),
                    self.bits(),
                    masked,
                    self.offset(),
                    circ.gate_seq().len() as int,
                )
            },
    {
        let mut this = self;
        if this.wants_gates() {
            return Err(AuthEvaluatorError::NotFinished);
        }
        // If there were 0 AND gates in the circuit, we need to evaluate the "free"
        // gates now.

        if !this.complete {
            this.next(AuthHalfGate::default());
        }
        let output_labels = Mac::from_blocks(output_range(&*this.labels, this.circ));
        let output_auth_bits = output_range(this.auth_bits, this.circ);
        let masked_output_values = output_range(&*this.masked_values, this.circ);
        let auth_hash = compute_check_hash(
            this.cipher,
            this.circ,
            this.sigma_bits,
            this.auth_bits,
            &*this.masked_values,
            &this.delta,
        );
        let masked_values = this.masked_values.clone();
        assert(masked_values@ =~= this.masked_values@);
        Ok(
            AuthEvalOutput {
                output_labels,
                output_auth_bits,
                masked_output_values,
                masked_values,
                auth_hash,
            },
        )
    }
}

/// Consumer returned by [`AuthEval::evaluate_batched`].
pub struct AuthEncryptedGateBatchConsumer<'a, H, const N: usize> {
    /// The consumer of single gates.
    pub consumer: AuthEncryptedGateConsumer<'a, H>,
}

/// The first gates of a batch: as many as are still wanted.
pub open spec fn wanted(batch: Seq<AuthHalfGate>, want: int) -> Seq<AuthHalfGate> {
    if want < batch.len() {
        batch.take(want)
    } else {
        batch
    }
}

impl<'a, H: Fn(Block, Block) -> Block, const N: usize> AuthEncryptedGateBatchConsumer<'a, H, N> {
    /// Returns `true` if the evaluator wants more encrypted gates.
    pub fn wants_gates(&self) -> (r: bool)
        requires
            self.consumer.wf(),
        ensures
            r == (self.consumer.consumed().len() != self.consumer.circuit().and_len()),
    {
        self.consumer.wants_gates()
    }

    /// Evaluates the next batch of gates in the circuit.
    pub fn next(&mut self, batch: AuthHalfGateBatch<N>)
        requires
            old(self).consumer.wf(),
        ensures
            final(self).consumer.wf(),
            final(self).consumer.same_job(&old(self).consumer),
            *final(final(self).consumer.labels) == *final(old(self).consumer.labels),
            *final(final(self).consumer.masked_values)
                == *final(old(self).consumer.masked_values),
            N > 0 ==> final(self).consumer.has_paused(),
            final(self).consumer.consumed() == old(self).consumer.consumed() + wanted(
                batch.gates@,
                old(self).consumer.circuit().and_len() - old(self).consumer.consumed().len(),
            ),
    {
        let gates = batch.into_array();
        let ghost before = self.consumer.consumed();
        let ghost count = self.consumer.circuit().and_len();
        proof {
            self.consumer.lemma_consumed();
        }
        let mut i: usize = 0;
        while i < N
            invariant
                i <= N,
                gates@ == batch.gates@,
                self.consumer.wf(),
                self.consumer.same_job(&old(self).consumer),
                *final(self.consumer.labels) == *final(old(self).consumer.labels),
                *final(self.consumer.masked_values) == *final(old(self).consumer.masked_values),
                i > 0 ==> self.consumer.has_paused(),
                before == old(self).consumer.consumed(),
                count == old(self).consumer.circuit().and_len(),
                before.len() <= count,
                self.consumer.consumed() == before + gates@.take(i as int),
                i > 0 ==> before.len() + i < count,
            decreases N - i,
        {
            self.consumer.next(gates[i]);
            i = i + 1;
            assert(gates@.take(i as int) =~= gates@.take(i - 1).push(gates@[i - 1]));
            proof {
                self.consumer.lemma_consumed();
            }
            if !self.consumer.wants_gates() {
                // Skipping any remaining gates which may have been used to pad the last batch.
                return;
            }
        }
    }

    /// Returns the encoded outputs of the circuit.
    pub fn finish(self) -> (r: Result<AuthEvalOutput, AuthEvaluatorError>)
        requires
            self.consumer.wf(),
        ensures
            if self.consumer.consumed().len() != self.consumer.circuit().and_len() {
                &&& r == Err::<AuthEvalOutput, AuthEvaluatorError>(AuthEvaluatorError::NotFinished)
                &&& (final(self.consumer.labels)@, final(self.consumer.masked_values)@)
                    == self.consumer.held()
            } else {
                let circ = self.consumer.circuit();
                let (labels, masked) = self.consumer.state_at_end();
                &&& final(self.consumer.labels)@ == labels
                &&& final(self.consumer.masked_values)@ == masked
                &&& r matches Ok(output)
                &&& mac_blocks(output.output_labels@) == labels.subrange(
                    circ.out_start(),
                    circ.out_end(),
                )
                &&& output.output_auth_bits@ == self.consumer.bits().subrange(
                    circ.out_start(),
                    circ.out_end(),
                )
                &&& output.masked_output_values@ == masked.subrange(
                    circ.out_start(),
                    circ.out_end(),
                )
                &&& output.masked_values@ == masked
                &&& output.auth_hash == check_hash(
                    self.consumer.hash_fn(),
                    circ.gate_seq(),
                    self.consumer.sigmas(),
                    self.consumer.bits(),
                    masked,
                    self.consumer.offset(),
                    circ.gate_seq().len() as int,
                )
            },
    {
        self.consumer.finish()
    }
}

} // verus!
