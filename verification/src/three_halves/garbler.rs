//! Garbler for Three Halves Scheme

use vstd::prelude::*;

use crate::block::Block;
use crate::circuit::{ands, gate_ok, lemma_ands_bound, with_inputs, Circuit, Gate};
use crate::correlated::{key_blocks, Delta, Key};
use crate::hash::{is_tweak_hash, tweak_fn, TweakFn};
use crate::rng::SeededRng;
use crate::three_halves::circuit::{empty_words, gate_words, EncryptedGate, EncryptedGateBatch, GateWords};
use crate::three_halves::gate::{garble_and, garbled_and, Choices};
use crate::three_halves::random_bits::{packed_bit, word_count, RandomBitSource};
use crate::DEFAULT_BATCH_SIZE;

verus! {

/// Errors that can occur during garbled circuit generation.
#[derive(Clone, Copy, Debug, PartialEq, Eq, Structural)]
pub enum GarblerError {
    /// The number of input labels is not that of the inputs.
    InputLength {
        /// The number of inputs of the circuit.
        expected: usize,
        /// The number of labels.
        actual: usize,
    },
    /// There are AND gates left to garble.
    NotFinished,
}

/// Output of the garbler.
#[derive(Debug)]
pub struct GarblerOutput {
    /// Output labels for each output wire (0-label only).
    pub outputs: Vec<Key>,
}

/// The labels of the wires with color bit 0, and their permute bits.
pub struct Wires {
    /// The labels.
    pub labels: Seq<Block>,
    /// The permute bits.
    pub permute: Seq<bool>,
}

/// The label with color bit 0 that belongs to a 0-label: W = K ⊕ (π·Δ), where π = lsb(K).
pub open spec fn color_label(key: Block, delta: Block) -> Block {
    key.xor(delta.times(key.low_bit()))
}

/// The wires before any gate.
pub open spec fn start_wires(keys: Seq<Key>, delta: Block, feeds: nat) -> Wires {
    Wires {
        labels: with_inputs(
            Seq::new(keys.len(), |i: int| color_label(keys[i].block, delta)),
            feeds,
            Block { bits: 0 },
        ),
        permute: with_inputs(
            Seq::new(keys.len(), |i: int| keys[i].block.low_bit()),
            feeds,
            false,
        ),
    }
}

/// The choices for the AND gate that follows `count` others.
pub open spec fn choices_at(pi_a: bool, pi_b: bool, data: Seq<u64>, count: int) -> Choices {
    Choices {
        pi_a,
        pi_b,
        r0: packed_bit(data, 2 * count),
        r1: packed_bit(data, 2 * count + 1),
    }
}

/// What garbling the AND gate at place `n` gives.
pub open spec fn garbled_at(
    h: TweakFn,
    delta: Block,
    gates: Seq<Gate>,
    w: Wires,
    data: Seq<u64>,
    n: int,
) -> (Block, bool, GateWords) {
    let (x, y) = (gates[n].left(), gates[n].right());
    let count = ands(gates, n) as int;
    garbled_and(
        h,
        w.labels[x],
        w.labels[y],
        choices_at(w.permute[x], w.permute[y], data, count),
        delta,
        (1 + count) as u128,
    )
}

/// The wires after the first `n` gates.
pub open spec fn garbled_wires(
    h: TweakFn,
    delta: Block,
    gates: Seq<Gate>,
    init: Wires,
    data: Seq<u64>,
    n: int,
) -> Wires
    decreases n,
{
    if n <= 0 {
        init
    } else {
        let w = garbled_wires(h, delta, gates, init, data, n - 1);
        let gate = gates[n - 1];
        let (x, y) = (gate.left(), gate.right());
        let (label, pi) = match gate {
            Gate::Xor { .. } => (w.labels[x].xor(w.labels[y]), w.permute[x] != w.permute[y]),
            Gate::And { .. } => {
                let (c, pi_c, _) = garbled_at(h, delta, gates, w, data, n - 1);
                (c, pi_c)
            },
            Gate::Inv { .. } => (w.labels[x], !w.permute[x]),
            Gate::Id { .. } => (w.labels[x], w.permute[x]),
        };
        Wires {
            labels: w.labels.update(gate.out(), label),
            permute: w.permute.update(gate.out(), pi),
        }
    }
}

/// The encrypted gates that stand for the AND gates among the first `n` gates.
pub open spec fn garbled_table(
    h: TweakFn,
    delta: Block,
    gates: Seq<Gate>,
    init: Wires,
    data: Seq<u64>,
    n: int,
) -> Seq<GateWords>
    decreases n,
{
    if n <= 0 {
        Seq::empty()
    } else {
        let table = garbled_table(h, delta, gates, init, data, n - 1);
        let w = garbled_wires(h, delta, gates, init, data, n - 1);
        match gates[n - 1] {
            Gate::And { .. } => table.push(garbled_at(h, delta, gates, w, data, n - 1).2),
            _ => table,
        }
    }
}

/// A table has one entry for each AND gate, and more gates only add entries.
pub proof fn lemma_table(
    h: TweakFn,
    delta: Block,
    gates: Seq<Gate>,
    init: Wires,
    data: Seq<u64>,
    n: int,
    m: int,
)
    requires
        0 <= n <= m,
    ensures
        garbled_table(h, delta, gates, init, data, n).len() == ands(gates, n),
        garbled_table(h, delta, gates, init, data, m).len() == ands(gates, m),
        ands(gates, n) <= ands(gates, m),
        forall|i: int|
            0 <= i < ands(gates, n) ==> garbled_table(h, delta, gates, init, data, m)[i]
                == garbled_table(h, delta, gates, init, data, n)[i],
    decreases m,
{
    if n < m {
        lemma_table(h, delta, gates, init, data, n, m - 1);
    } else if n > 0 {
        lemma_table(h, delta, gates, init, data, n - 1, n - 1);
    }
}

/// The 0-labels of outputs: K = W ⊕ (π·Δ).
pub open spec fn output_keys(w: Wires, delta: Block, start: int, end: int) -> Seq<Block> {
    Seq::new(
        (end - start) as nat,
        |i: int| w.labels[start + i].xor(delta.times(w.permute[start + i])),
    )
}

/// Garbler for Three Halves scheme.
#[derive(Debug)]
pub struct Garbler {}

impl Default for Garbler {
    fn default() -> (r: Garbler)
        ensures
            r == (Garbler {  }),
    {
        Garbler {  }
    }
}

impl Garbler {
    /// Returns an iterator over the encrypted gates of a circuit.
    ///
    /// # Arguments
    ///
    /// * `circ` - The circuit to garble.
    /// * `delta` - The delta value to use for garbling.
    /// * `inputs` - The input labels to the circuit.
    /// * `rng` - Random number generator for control matrix randomization.
    /// * `cipher` - The hash.
    pub fn generate<'a, H: Fn(Block, Block) -> Block>(
        &self,
        circ: &'a Circuit,
        delta: Delta,
        inputs: &[Key],
        rng: &mut SeededRng,
        cipher: H,
    ) -> (r: Result<EncryptedGateIter<'a, H>, GarblerError>)
        requires
            circ.wf(),
            is_tweak_hash(cipher),
            2 * circ.and_len() + 63 <= usize::MAX,
        ensures
            if inputs.len() != circ.input_len() {
                &&& r matches Err(err)
                &&& err == (GarblerError::InputLength {
                    expected: circ.input_len() as usize,
                    actual: inputs.len(),
                })
                &&& *final(rng) == *old(rng)
            } else {
                &&& r matches Ok(iter)
                &&& iter.wf()
                &&& iter.generated() == 0
                &&& iter.circuit() == circ
                &&& iter.hash_fn() == tweak_fn(cipher)
                &&& iter.offset() == delta.block
                &&& iter.start() == start_wires(inputs@, delta.block, circ.feeds())
                &&& (iter.random(), *final(rng)) == old(rng).words_drawn(
                    word_count(2 * circ.and_len()),
                )
            },
    {
        proof {
            circ.lemma_wf();
        }
        if inputs.len() != circ.input_count() {
            return Err(
                GarblerError::InputLength {
                    expected: circ.input_count(),
                    actual: inputs.len(),
                },
            );
        }
        // Pre-generate random bits for control matrix randomization (2 bits per AND
        // gate)
        let random_bits = RandomBitSource::new(2 * circ.and_count(), rng);
        self.generate_with(circ, delta, inputs, random_bits, cipher)
    }

    /// Returns an iterator over the encrypted gates of a circuit, with given random bits.
    ///
    /// # Arguments
    ///
    /// * `circ` - The circuit to garble.
    /// * `delta` - The delta value to use for garbling.
    /// * `inputs` - The input labels to the circuit.
    /// * `random_bits` - Unused random bits for control matrix randomization, two per AND gate.
    /// * `cipher` - The hash.
    pub fn generate_with<'a, H: Fn(Block, Block) -> Block>(
        &self,
        circ: &'a Circuit,
        delta: Delta,
        inputs: &[Key],
        random_bits: RandomBitSource,
        cipher: H,
    ) -> (r: Result<EncryptedGateIter<'a, H>, GarblerError>)
        requires
            circ.wf(),
            is_tweak_hash(cipher),
            2 * circ.and_len() + 63 <= usize::MAX,
            random_bits.data@.len() == word_count(2 * circ.and_len()),
            random_bits.bit_idx == 0,
        ensures
            if inputs.len() != circ.input_len() {
                &&& r matches Err(err)
                &&& err == (GarblerError::InputLength {
                    expected: circ.input_len() as usize,
                    actual: inputs.len(),
                })
            } else {
                &&& r matches Ok(iter)
                &&& iter.wf()
                &&& iter.generated() == 0
                &&& iter.circuit() == circ
                &&& iter.hash_fn() == tweak_fn(cipher)
                &&& iter.offset() == delta.block
                &&& iter.start() == start_wires(inputs@, delta.block, circ.feeds())
                &&& iter.random() == random_bits.data@
            },
    {
        proof {
            circ.lemma_wf();
        }
        if inputs.len() != circ.input_count() {
            return Err(
                GarblerError::InputLength {
                    expected: circ.input_count(),
                    actual: inputs.len(),
                },
            );
        }
        let feeds: usize = circ.feed_count();
        let delta_block = *delta.as_block();

        // Initialize labels and permute bits for all wires
        let mut labels: Vec<Block> = vec![Block::zero(); feeds];
        let mut permute_bits: Vec<bool> = vec![false; feeds];

        let ghost want = start_wires(inputs@, delta_block, feeds as nat);

        // For input wires: π = Key.lsb(), W_k = Key ⊕ (π·Δ)
        for i in 0..inputs.len()
            invariant
                inputs.len() <= feeds,
                delta_block == delta.block,
                labels.len() == feeds,
                permute_bits.len() == feeds,
                want == start_wires(inputs@, delta_block, feeds as nat),
                forall|w: int|
                    0 <= w < feeds ==> #[trigger] labels@[w] == if w < i {
                        want.labels[w]
                    } else {
                        Block { bits: 0 }
                    },
                forall|w: int|
                    0 <= w < feeds ==> #[trigger] permute_bits@[w] == (w < i && want.permute[w]),
        {
            let key_block = *inputs[i].as_block();
            let pi = key_block.lsb();
            labels[i] = key_block ^ delta_block.mul_bool(pi);
            permute_bits[i] = pi;
        }
        assert(labels@ =~= want.labels);
        assert(permute_bits@ =~= want.permute);
        Ok(EncryptedGateIter::new(delta, circ, labels, permute_bits, random_bits, cipher))
    }

    /// Returns an iterator over batched encrypted gates of a circuit.
    ///
    /// # Arguments
    ///
    /// * `circ` - The circuit to garble.
    /// * `delta` - The delta value to use for garbling.
    /// * `inputs` - The input labels to the circuit.
    /// * `rng` - Random number generator for control matrix randomization.
    /// * `cipher` - The hash.
    pub fn generate_batched<'a, H: Fn(Block, Block) -> Block>(
        &self,
        circ: &'a Circuit,
        delta: Delta,
        inputs: &[Key],
        rng: &mut SeededRng,
        cipher: H,
    ) -> (r: Result<EncryptedGateBatchIter<'a, H, DEFAULT_BATCH_SIZE>, GarblerError>)
        requires
            circ.wf(),
            is_tweak_hash(cipher),
            2 * circ.and_len() + 63 <= usize::MAX,
        ensures
            if inputs.len() != circ.input_len() {
                &&& r matches Err(err)
                &&& err == (GarblerError::InputLength {
                    expected: circ.input_len() as usize,
                    actual: inputs.len(),
                })
                &&& *final(rng) == *old(rng)
            } else {
                &&& r matches Ok(batches)
                &&& batches.iter.wf()
                &&& batches.iter.generated() == 0
                &&& batches.iter.circuit() == circ
                &&& batches.iter.hash_fn() == tweak_fn(cipher)
                &&& batches.iter.offset() == delta.block
                &&& batches.iter.start() == start_wires(inputs@, delta.block, circ.feeds())
                &&& (batches.iter.random(), *final(rng)) == old(rng).words_drawn(
                    word_count(2 * circ.and_len()),
                )
            },
    {
        match self.generate(circ, delta, inputs, rng, cipher) {
            Ok(iter) => Ok(EncryptedGateBatchIter { iter }),
            Err(err) => Err(err),
        }
    }
}

/// Iterator over encrypted gates of a garbled circuit.
pub struct EncryptedGateIter<'a, H> {
    /// Cipher to use to encrypt the gates.
    cipher: H,
    /// Global offset.
    delta: Delta,
    /// Wire labels W_k (color bit 0) for each wire.
    labels: Vec<Block>,
    /// Buffer for the point-and-permute bits (tracked separately from labels).
    permute_bits: Vec<bool>,
    /// The circuit.
    circ: &'a Circuit,
    /// Number of gates that are done.
    position: usize,
    /// Current gate id.
    gid: u128,
    /// Number of AND gates generated.
    counter: usize,
    /// Whether the entire circuit has been garbled.
    complete: bool,
    /// Pre-generated random bits for control matrix randomization.
    random_bits: RandomBitSource,
    /// The wires that the iterator started from.
    init: Ghost<Wires>,
}

impl<'a, H: Fn(Block, Block) -> Block> EncryptedGateIter<'a, H> {
    /// The circuit.
    pub closed spec fn circuit(&self) -> &Circuit {
        self.circ
    }

    /// The function that the cipher computes.
    pub closed spec fn hash_fn(&self) -> TweakFn {
        tweak_fn(self.cipher)
    }

    /// The global offset.
    pub closed spec fn offset(&self) -> Block {
        self.delta.block
    }

    /// The wires that the iterator started from.
    pub closed spec fn start(&self) -> Wires {
        self.init@
    }

    /// The random words.
    pub closed spec fn random(&self) -> Seq<u64> {
        self.random_bits.data@
    }

    /// The number of AND gates generated.
    pub closed spec fn generated(&self) -> nat {
        self.counter as nat
    }

    /// All encrypted gates of the circuit.
    pub open spec fn table(&self) -> Seq<GateWords> {
        garbled_table(
            self.hash_fn(),
            self.offset(),
            self.circuit().gate_seq(),
            self.start(),
            self.random(),
            self.circuit().gate_seq().len() as int,
        )
    }

    /// All wires once the circuit is garbled.
    pub open spec fn wires_at_end(&self) -> Wires {
        garbled_wires(
            self.hash_fn(),
            self.offset(),
            self.circuit().gate_seq(),
            self.start(),
            self.random(),
            self.circuit().gate_seq().len() as int,
        )
    }

    /// The two iterators garble the same circuit in the same way.
    pub open spec fn same_job(&self, other: &Self) -> bool {
        &&& self.circuit() == other.circuit()
        &&& self.hash_fn() == other.hash_fn()
        &&& self.offset() == other.offset()
        &&& self.start() == other.start()
        &&& self.random() == other.random()
    }

    /// What every iterator satisfies.
    pub closed spec fn wf(&self) -> bool {
        let gates = self.circ.gate_seq();
        let w = garbled_wires(
            tweak_fn(self.cipher),
            self.delta.block,
            gates,
            self.init@,
            self.random_bits.data@,
            self.position as int,
        );
        &&& self.circ.wf()
        &&& is_tweak_hash(self.cipher)
        &&& self.position <= gates.len()
        &&& self.counter == ands(gates, self.position as int)
        &&& self.gid == 1 + self.counter
        &&& 2 * self.circ.and_len() + 63 <= usize::MAX
        &&& self.random_bits.data@.len() == word_count(2 * self.circ.and_len())
        &&& self.random_bits.bit_idx == 2 * self.counter
        &&& self.init@.labels.len() == self.circ.feeds()
        &&& self.init@.permute.len() == self.circ.feeds()
        &&& self.labels.len() == self.circ.feeds()
        &&& self.permute_bits.len() == self.circ.feeds()
        &&& self.labels@ == w.labels
        &&& self.permute_bits@ == w.permute
        &&& self.complete ==> self.position == gates.len()
    }

    /// The number of gates that are left to do.
    pub closed spec fn gates_left(&self) -> int {
        self.circ.gate_seq().len() - self.position
    }

    fn new(
        delta: Delta,
        circ: &'a Circuit,
        labels: Vec<Block>,
        permute_bits: Vec<bool>,
        random_bits: RandomBitSource,
        cipher: H,
    ) -> (r: Self)
        requires
            circ.wf(),
            is_tweak_hash(cipher),
            labels.len() == circ.feeds(),
            permute_bits.len() == circ.feeds(),
            2 * circ.and_len() + 63 <= usize::MAX,
            random_bits.data@.len() == word_count(2 * circ.and_len()),
            random_bits.bit_idx == 0,
        ensures
            r.wf(),
            r.generated() == 0,
            r.circuit() == circ,
            r.hash_fn() == tweak_fn(cipher),
            r.offset() == delta.block,
            r.start() == (Wires { labels: labels@, permute: permute_bits@ }),
            r.random() == random_bits.data@,
    {
        let ghost init = Wires { labels: labels@, permute: permute_bits@ };
        EncryptedGateIter {
            cipher,
            delta,
            labels,
            permute_bits,
            circ,
            position: 0,
            gid: 1,
            counter: 0,
            complete: false,
            random_bits,
            init: Ghost(init),
        }
    }

    /// Returns `true` if the garbler has more encrypted gates to generate.
    pub fn has_gates(&self) -> (r: bool)
        requires
            self.wf(),
        ensures
            r == (self.generated() != self.circuit().and_len()),
            self.generated() <= self.circuit().and_len(),
    {
        proof {
            lemma_ands_bound(
                self.circ.gate_seq(),
                self.position as int,
                self.circ.gate_seq().len() as int,
            );
        }
        self.counter != self.circ.and_count()
    }

    /// Generates the next encrypted gate.
    pub fn next(&mut self) -> (r: Option<EncryptedGate>)
        requires
            old(self).wf(),
        ensures
            final(self).wf(),
            final(self).same_job(old(self)),
            old(self).generated() <= old(self).circuit().and_len(),
            if old(self).generated() < old(self).circuit().and_len() {
                &&& r matches Some(gate)
                &&& gate@ == old(self).table()[old(self).generated() as int]
                &&& final(self).generated() == old(self).generated() + 1
            } else {
                &&& r is None
                &&& final(self).generated() == old(self).generated()
                &&& final(self).gates_left() == 0
            },
        decreases old(self).gates_left(),
    {
        let ghost gates = self.circ.gate_seq();
        let ghost h = tweak_fn(self.cipher);
        let ghost data = self.random_bits.data@;
        let ghost count = self.counter as int;
        let ghost len = gates.len() as int;
        proof {
            self.circ.lemma_wf();
            lemma_ands_bound(gates, self.position as int, len);
        }
        while self.position < self.circ.gates().len()
            invariant
                self.wf(),
                self.same_job(old(self)),
                self.circ == old(self).circ,
                self.cipher == old(self).cipher,
                self.delta == old(self).delta,
                self.init == old(self).init,
                self.counter == old(self).counter,
                gates == self.circ.gate_seq(),
                len == gates.len(),
                h == tweak_fn(self.cipher),
                data == self.random_bits.data@,
                old(self).position <= self.position,
                count == self.counter,
                count <= ands(gates, len),
            decreases self.circ.gate_seq().len() - self.position,
        {
            proof {
                self.circ.lemma_wf();
                lemma_ands_bound(gates, self.position + 1, len);
                assert(gate_ok(
                    self.circ.input_len(),
                    self.circ.feeds(),
                    gates,
                    self.position as int,
                ));
            }
            let gate = self.circ.gates()[self.position];
            match gate {
                Gate::Xor { x, y, z } => {
                    // Free XOR: output label = XOR of input labels
                    let label = self.labels[x] ^ self.labels[y];
                    let pi = self.permute_bits[x] != self.permute_bits[y];
                    self.labels[z] = label;
                    // Permute bit of output = XOR of input permute bits
                    self.permute_bits[z] = pi;
                    self.position = self.position + 1;
                },
                Gate::And { x, y, z } => {
                    let x_0 = self.labels[x];
                    let y_0 = self.labels[y];
                    let pi_a = self.permute_bits[x];
                    let pi_b = self.permute_bits[y];

                    // Get pre-generated random bits for this AND gate
                    let rand_bits = self.random_bits.next_two_bits();
                    let (c, pi_c, encrypted_gate) = garble_and(
                        &self.cipher,
                        &x_0,
                        &y_0,
                        pi_a,
                        pi_b,
                        &self.delta,
                        self.gid,
                        rand_bits,
                    );
                    self.labels[z] = c;
                    self.permute_bits[z] = pi_c;
                    self.position = self.position + 1;

                    self.gid = self.gid + 1;
                    self.counter = self.counter + 1;
                    proof {
                        lemma_table(
                            h,
                            self.delta.block,
                            gates,
                            self.init@,
                            data,
                            self.position as int,
                            len,
                        );
                        assert(encrypted_gate@ == garbled_table(
                            h,
                            self.delta.block,
                            gates,
                            self.init@,
                            data,
                            self.position as int,
                        )[count]) by {
                            lemma_table(
                                h,
                                self.delta.block,
                                gates,
                                self.init@,
                                data,
                                self.position - 1,
                                self.position as int,
                            );
                        }
                    }

                    // If we have generated all AND gates, compute remaining free gates.
                    if !self.has_gates() {
                        let _ = self.next();
                        self.complete = true;
                    }
                    return Some(encrypted_gate);
                },
                Gate::Inv { x, z } => {
                    // INV: W_k stays the same, but the permute bit flips
                    let label = self.labels[x];
                    let pi = !self.permute_bits[x];
                    self.labels[z] = label;
                    self.permute_bits[z] = pi;
                    self.position = self.position + 1;
                },
                Gate::Id { x, z } => {
                    let label = self.labels[x];
                    let pi = self.permute_bits[x];
                    self.labels[z] = label;
                    self.permute_bits[z] = pi;
                    self.position = self.position + 1;
                },
            }
        }
        None
    }

    /// Returns the encoded outputs of the circuit.
    pub fn finish(self) -> (r: Result<GarblerOutput, GarblerError>)
        requires
            self.wf(),
        ensures
            if self.generated() != self.circuit().and_len() {
                r matches Err(err) && err == GarblerError::NotFinished
            } else {
                &&& r matches Ok(output)
                &&& key_blocks(output.outputs@) == output_keys(
                    self.wires_at_end(),
                    self.offset(),
                    self.circuit().out_start(),
                    self.circuit().out_end(),
                )
            },
    {
        let mut this = self;
        if this.has_gates() {
            return Err(GarblerError::NotFinished);
        }
        // Finish computing any "free" gates.

        if !this.complete {
            let _ = this.next();
        }
        proof {
            this.circ.lemma_wf();
        }
        let delta_block = *this.delta.as_block();
        let outputs_range = this.circ.outputs();
        let start: usize = outputs_range.start;
        let end: usize = outputs_range.end;
        let ghost want = output_keys(
            self.wires_at_end(),
            self.offset(),
            self.circuit().out_start(),
            self.circuit().out_end(),
        );

        // Return output keys.
        let mut outputs: Vec<Key> = Vec::with_capacity(end - start);
        for i in start..end
            invariant
                end <= this.labels.len(),
                end <= this.permute_bits.len(),
                want == output_keys(
                    (Wires { labels: this.labels@, permute: this.permute_bits@ }),
                    delta_block,
                    start as int,
                    end as int,
                ),
                outputs.len() == i - start,
                forall|k: int| 0 <= k < outputs.len() ==> (#[trigger] outputs@[k]).block == want[k],
        {
            // 0-label = W_k ⊕ (π_k · Δ)
            let label = this.labels[i] ^ delta_block.mul_bool(this.permute_bits[i]);
            outputs.push(Key::from(label));
        }
        assert(key_blocks(outputs@) =~= want);
        Ok(GarblerOutput { outputs })
    }
}

/// Iterator returned by [`Garbler::generate_batched`].
pub struct EncryptedGateBatchIter<'a, H, const N: usize> {
    /// The iterator over single gates.
    pub iter: EncryptedGateIter<'a, H>,
}

impl<'a, H: Fn(Block, Block) -> Block, const N: usize> EncryptedGateBatchIter<'a, H, N> {
    /// Returns `true` if the garbler has more encrypted gates to generate.
    pub fn has_gates(&self) -> (r: bool)
        requires
            self.iter.wf(),
        ensures
            r == (self.iter.generated() != self.iter.circuit().and_len()),
            self.iter.generated() <= self.iter.circuit().and_len(),
    {
        self.iter.has_gates()
    }

    /// Returns the encoded outputs of the circuit.
    pub fn finish(self) -> (r: Result<GarblerOutput, GarblerError>)
        requires
            self.iter.wf(),
        ensures
            if self.iter.generated() != self.iter.circuit().and_len() {
                r matches Err(err) && err == GarblerError::NotFinished
            } else {
                &&& r matches Ok(output)
                &&& key_blocks(output.outputs@) == output_keys(
                    self.iter.wires_at_end(),
                    self.iter.offset(),
                    self.iter.circuit().out_start(),
                    self.iter.circuit().out_end(),
                )
            },
    {
        self.iter.finish()
    }

    /// Generates the next batch of encrypted gates; empty gates pad the last one.
    pub fn next(&mut self) -> (r: Option<EncryptedGateBatch<N>>)
        requires
            N > 0,
            old(self).iter.wf(),
        ensures
            final(self).iter.wf(),
            final(self).iter.same_job(&old(self).iter),
            ({
                let count = old(self).iter.circuit().and_len();
                let done = old(self).iter.generated();
                if done < count {
                    &&& r matches Some(batch)
                    &&& gate_words(batch.gates@) == batch_of(
                        old(self).iter.table(),
                        done,
                        N as nat,
                    )
                    &&& final(self).iter.generated() == if done + N < count {
                        done + N
                    } else {
                        count as int
                    }
                } else {
                    &&& r is None
                    &&& *final(self) == *old(self)
                }
            }),
    {
        if !self.has_gates() {
            return None;
        }
        let mut batch = [EncryptedGate::default();N];
        let ghost table = self.iter.table();
        let ghost count = self.iter.circuit().and_len();
        let ghost done = self.iter.generated();
        proof {
            lemma_table(
                self.iter.hash_fn(),
                self.iter.offset(),
                self.iter.circuit().gate_seq(),
                self.iter.start(),
                self.iter.random(),
                0,
                self.iter.circuit().gate_seq().len() as int,
            );
        }
        let mut i: usize = 0;
        while i < N && self.iter.has_gates()
            invariant
                self.iter.wf(),
                self.iter.same_job(&old(self).iter),
                table == old(self).iter.table(),
                count == old(self).iter.circuit().and_len(),
                table.len() == count,
                i <= N,
                self.iter.generated() == done + i,
                done + i <= count,
                forall|j: int|
                    0 <= j < N ==> (#[trigger] batch@[j])@ == if j < i {
                        table[done + j]
                    } else {
                        empty_words()
                    },
            decreases N - i,
        {
            match self.iter.next() {
                Some(gate) => {
                    batch[i] = gate;
                },
                None => {},
            }
            i = i + 1;
        }
        assert(gate_words(batch@) =~= batch_of(table, done, N as nat));
        Some(EncryptedGateBatch::new(batch))
    }
}

/// The `n` gates of a table from `start` on, with empty gates behind the end.
pub open spec fn batch_of(table: Seq<GateWords>, start: nat, n: nat) -> Seq<GateWords> {
    Seq::new(
        n,
        |i: int|
            if start + i < table.len() {
                table[start + i]
            } else {
                empty_words()
            },
    )
}

} // verus!
