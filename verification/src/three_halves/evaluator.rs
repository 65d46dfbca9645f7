//! Evaluator for Three Halves Scheme
//!
//! This module implements the evaluation function for circuits using the
//! Three Halves technique from Rosulek & Roy 2021.

use std::sync::Arc;

use vstd::prelude::*;

use crate::block::Block;
use crate::circuit::{
    ands, gate_ok, lemma_ands_bound, output_range, with_inputs, Circuit, Gate,
};
use crate::correlated::{mac_blocks, Mac};
use crate::hash::{is_tweak_hash, tweak_fn, TweakFn};
use crate::three_halves::circuit::{
    gate_words, EncryptedGate, EncryptedGateBatch, GarbledCircuit, GateWords,
};
use crate::three_halves::gate::{evaluate_and, evaluated_and};
use crate::DEFAULT_BATCH_SIZE;

verus! {

/// Errors that can occur during garbled circuit evaluation.
#[derive(Clone, Copy, Debug, PartialEq, Eq, Structural)]
pub enum EvaluatorError {
    /// The number of input labels is not that of the inputs.
    InputLength {
        /// The number of inputs of the circuit.
        expected: usize,
        /// The number of labels.
        actual: usize,
    },
    /// There are AND gates left to evaluate.
    NotFinished,
}

/// Output of the evaluator.
#[derive(Debug)]
pub struct EvaluatorOutput {
    /// Output MACs of the circuit.
    pub outputs: Vec<Mac>,
}

/// The active labels of the wires after the first `n` gates; `table` holds the encrypted gates.
pub open spec fn evaluated_labels(
    h: TweakFn,
    gates: Seq<Gate>,
    init: Seq<Block>,
    table: Seq<GateWords>,
    n: int,
) -> Seq<Block>
    decreases n,
{
    if n <= 0 {
        init
    } else {
        let l = evaluated_labels(h, gates, init, table, n - 1);
        let gate = gates[n - 1];
        let count = ands(gates, n - 1) as int;
        let label = match gate {
            Gate::Xor { .. } => l[gate.left()].xor(l[gate.right()]),
            Gate::And { .. } => evaluated_and(
                h,
                l[gate.left()],
                l[gate.right()],
                table[count],
                (1 + count) as u128,
            ),
            Gate::Inv { .. } => l[gate.left()],
            Gate::Id { .. } => l[gate.left()],
        };
        l.update(gate.out(), label)
    }
}

/// The labels depend only on the encrypted gates of the AND gates that were passed.
pub proof fn lemma_labels_prefix(
    h: TweakFn,
    gates: Seq<Gate>,
    init: Seq<Block>,
    s: Seq<GateWords>,
    t: Seq<GateWords>,
    n: int,
)
    requires
        forall|i: int| 0 <= i < ands(gates, n) ==> s[i] == t[i],
    ensures
        evaluated_labels(h, gates, init, s, n) == evaluated_labels(h, gates, init, t, n),
    decreases n,
{
    if n > 0 {
        lemma_labels_prefix(h, gates, init, s, t, n - 1);
    }
}

/// Evaluator for Three Halves scheme.
#[derive(Debug)]
pub struct Evaluator {
    /// Buffer for the active labels.
    buffer: Vec<Block>,
}

impl Default for Evaluator {
    fn default() -> (r: Evaluator)
        ensures
            r.buffered() == Seq::<Block>::empty(),
    {
        Evaluator { buffer: Vec::new() }
    }
}

impl Evaluator {
    /// The labels in the buffer.
    pub closed spec fn buffered(&self) -> Seq<Block> {
        self.buffer@
    }

    /// Creates a new evaluator with a buffer of the given capacity.
    pub fn with_capacity(capacity: usize) -> (r: Evaluator)
        ensures
            r.buffered() == Seq::<Block>::empty(),
    {
        Evaluator { buffer: Vec::with_capacity(capacity) }
    }

    /// Returns a consumer over the encrypted gates of a circuit, which takes the buffer.
    ///
    /// # Arguments
    ///
    /// * `circ` - The circuit to evaluate.
    /// * `inputs` - The input labels to the circuit.
    /// * `cipher` - The hash.
    pub fn evaluate<'a, H: Fn(Block, Block) -> Block>(
        &mut self,
        circ: &'a Circuit,
        inputs: &[Mac],
        cipher: H,
    ) -> (r: Result<EncryptedGateConsumer<'a, H>, EvaluatorError>)
        requires
            circ.wf(),
            is_tweak_hash(cipher),
        ensures
            if inputs.len() != circ.input_len() {
                &&& r matches Err(err)
                &&& err == (EvaluatorError::InputLength {
                    expected: circ.input_len() as usize,
                    actual: inputs.len(),
                })
                &&& *final(self) == *old(self)
            } else {
                &&& r matches Ok(consumer)
                &&& consumer.wf()
                &&& consumer.consumed() == Seq::<GateWords>::empty()
                &&& consumer.circuit() == circ
                &&& consumer.hash_fn() == tweak_fn(cipher)
                &&& consumer.start() == with_inputs(
                    mac_blocks(inputs@),
                    circ.feeds(),
                    Block { bits: 0 },
                )
                &&& final(self).buffered() == Seq::<Block>::empty()
            },
    {
        proof {
            circ.lemma_wf();
        }
        if inputs.len() != circ.input_count() {
            return Err(
                EvaluatorError::InputLength {
                    expected: circ.input_count(),
                    actual: inputs.len(),
                },
            );
        }
        let mut labels: Vec<Block> = Vec::new();
        core::mem::swap(&mut self.buffer, &mut labels);
        labels.clear();
        for i in 0..inputs.len()
            invariant
                labels@ =~= mac_blocks(inputs@).take(i as int),
        {
            labels.push(*inputs[i].as_block());
        }
        // Expand the buffer to fit the circuit
        let feeds: usize = circ.feed_count();
        let ghost blocks = mac_blocks(inputs@);
        while labels.len() < feeds
            invariant
                blocks.len() <= labels.len() <= feeds,
                labels@ =~= with_inputs(blocks, labels.len() as nat, Block { bits: 0 }),
            decreases feeds - labels.len(),
        {
            labels.push(Block::zero());
        }
        assert(labels@ =~= with_inputs(mac_blocks(inputs@), circ.feeds(), Block { bits: 0 }));
        Ok(EncryptedGateConsumer::new(circ, labels, cipher))
    }

    /// Returns a consumer over batched encrypted gates of a circuit.
    ///
    /// # Arguments
    ///
    /// * `circ` - The circuit to evaluate.
    /// * `inputs` - The input labels to the circuit.
    /// * `cipher` - The hash.
    pub fn evaluate_batched<'a, H: Fn(Block, Block) -> Block>(
        &mut self,
        circ: &'a Circuit,
        inputs: &[Mac],
        cipher: H,
    ) -> (r: Result<EncryptedGateBatchConsumer<'a, H, DEFAULT_BATCH_SIZE>, EvaluatorError>)
        requires
            circ.wf(),
            is_tweak_hash(cipher),
        ensures
            if inputs.len() != circ.input_len() {
                &&& r matches Err(err)
                &&& err == (EvaluatorError::InputLength {
                    expected: circ.input_len() as usize,
                    actual: inputs.len(),
                })
                &&& *final(self) == *old(self)
            } else {
                &&& r matches Ok(batches)
                &&& batches.consumer.wf()
                &&& batches.consumer.consumed() == Seq::<GateWords>::empty()
                &&& batches.consumer.circuit() == circ
                &&& batches.consumer.hash_fn() == tweak_fn(cipher)
                &&& batches.consumer.start() == with_inputs(
                    mac_blocks(inputs@),
                    circ.feeds(),
                    Block { bits: 0 },
                )
                &&& final(self).buffered() == Seq::<Block>::empty()
            },
    {
        match self.evaluate(circ, inputs, cipher) {
            Ok(consumer) => Ok(EncryptedGateBatchConsumer { consumer }),
            Err(err) => Err(err),
        }
    }
}

/// Consumer over the encrypted gates of a circuit.
pub struct EncryptedGateConsumer<'a, H> {
    /// Cipher to use to evaluate the gates.
    cipher: H,
    /// Buffer for the active labels.
    labels: Vec<Block>,
    /// The circuit.
    circ: &'a Circuit,
    /// Number of gates that are done.
    position: usize,
    /// Current gate id.
    gid: u128,
    /// Number of AND gates evaluated.
    counter: usize,
    /// Whether the entire circuit has been evaluated.
    complete: bool,
    /// The labels that the consumer started from.
    init: Ghost<Seq<Block>>,
    /// The encrypted gates that were evaluated.
    table: Ghost<Seq<GateWords>>,
}

impl<'a, H: Fn(Block, Block) -> Block> EncryptedGateConsumer<'a, H> {
    /// The circuit.
    pub closed spec fn circuit(&self) -> &Circuit {
        self.circ
    }

    /// The function that the cipher computes.
    pub closed spec fn hash_fn(&self) -> TweakFn {
        tweak_fn(self.cipher)
    }

    /// The labels that the consumer started from.
    pub closed spec fn start(&self) -> Seq<Block> {
        self.init@
    }

    /// The encrypted gates that were evaluated.
    pub closed spec fn consumed(&self) -> Seq<GateWords> {
        self.table@
    }

    /// The number of gates that are left to do.
    pub closed spec fn gates_left(&self) -> int {
        self.circ.gate_seq().len() - self.position
    }

    /// The active labels of all wires, with the encrypted gates that were evaluated.
    pub open spec fn labels_at_end(&self) -> Seq<Block> {
        evaluated_labels(
            self.hash_fn(),
            self.circuit().gate_seq(),
            self.start(),
            self.consumed(),
            self.circuit().gate_seq().len() as int,
        )
    }

    /// The two consumers evaluate the same circuit from the same labels.
    pub open spec fn same_job(&self, other: &Self) -> bool {
        &&& self.circuit() == other.circuit()
        &&& self.hash_fn() == other.hash_fn()
        &&& self.start() == other.start()
    }

    /// What every consumer satisfies.
    pub closed spec fn wf(&self) -> bool {
        let gates = self.circ.gate_seq();
        &&& self.circ.wf()
        &&& is_tweak_hash(self.cipher)
        &&& self.position <= gates.len()
        &&& self.counter == ands(gates, self.position as int)
        &&& self.table@.len() == self.counter
        &&& self.gid == 1 + self.counter
        &&& self.init@.len() == self.circ.feeds()
        &&& self.labels.len() == self.circ.feeds()
        &&& self.labels@ == evaluated_labels(
            tweak_fn(self.cipher),
            gates,
            self.init@,
            self.table@,
            self.position as int,
        )
        &&& self.complete ==> self.position == gates.len()
    }

    /// No more gates are evaluated than the circuit has.
    pub proof fn lemma_consumed(&self)
        requires
            self.wf(),
        ensures
            self.consumed().len() <= self.circuit().and_len(),
    {
        lemma_ands_bound(
            self.circ.gate_seq(),
            self.position as int,
            self.circ.gate_seq().len() as int,
        );
    }

    fn new(circ: &'a Circuit, labels: Vec<Block>, cipher: H) -> (r: Self)
        requires
            circ.wf(),
            is_tweak_hash(cipher),
            labels.len() == circ.feeds(),
        ensures
            r.wf(),
            r.consumed() == Seq::<GateWords>::empty(),
            r.circuit() == circ,
            r.hash_fn() == tweak_fn(cipher),
            r.start() == labels@,
    {
        let ghost init = labels@;
        EncryptedGateConsumer {
            cipher,
            labels,
            circ,
            position: 0,
            gid: 1,
            counter: 0,
            complete: false,
            init: Ghost(init),
            table: Ghost(Seq::empty()),
        }
    }

    /// Returns `true` if the evaluator wants more encrypted gates.
    pub fn wants_gates(&self) -> (r: bool)
        requires
            self.wf(),
        ensures
            r == (self.consumed().len() != self.circuit().and_len()),
            self.consumed().len() <= self.circuit().and_len(),
    {
        proof {
            self.lemma_consumed();
        }
        self.counter != self.circ.and_count()
    }

    /// Evaluates the next encrypted gate in the circuit.
    pub fn next(&mut self, encrypted_gate: EncryptedGate)
        requires
            old(self).wf(),
        ensures
            final(self).wf(),
            final(self).same_job(old(self)),
            if old(self).consumed().len() < old(self).circuit().and_len() {
                final(self).consumed() == old(self).consumed().push(encrypted_gate@)
            } else {
                &&& final(self).consumed() == old(self).consumed()
                &&& final(self).gates_left() == 0
            },
    {
        let ghost gates = self.circ.gate_seq();
        let ghost h = tweak_fn(self.cipher);
        let ghost len = gates.len() as int;
        let ghost before = self.table@;
        proof {
            self.circ.lemma_wf();
            lemma_ands_bound(gates, self.position as int, len);
        }
        while self.position < self.circ.gates().len()
            invariant
                self.wf(),
                self.circ == old(self).circ,
                self.cipher == old(self).cipher,
                self.init == old(self).init,
                gates == self.circ.gate_seq(),
                len == gates.len(),
                h == tweak_fn(self.cipher),
                before == old(self).table@,
                before.len() <= ands(gates, len),
                self.table@ == before || (before.len() + 1 == ands(gates, len) && self.table@
                    == before.push(encrypted_gate@)),
            decreases self.circ.gate_seq().len() - self.position,
        {
            proof {
                self.circ.lemma_wf();
                lemma_ands_bound(gates, self.position + 1, len);
                assert(gate_ok(
                    self.circ.input_len(),
                    self.circ.feeds(),
                    gates,
                    self.position as int,
                ));
            }
            let gate = self.circ.gates()[self.position];
            match gate {
                Gate::Xor { x, y, z } => {
                    let label = self.labels[x] ^ self.labels[y];
                    self.labels[z] = label;
                    self.position = self.position + 1;
                },
                Gate::And { x, y, z } => {
                    let x = self.labels[x];
                    let y = self.labels[y];
                    let label = evaluate_and(&self.cipher, &x, &y, &encrypted_gate, self.gid);
                    self.labels[z] = label;
                    proof {
                        lemma_labels_prefix(
                            h,
                            gates,
                            self.init@,
                            self.table@,
                            self.table@.push(encrypted_gate@),
                            self.position as int,
                        );
                    }
                    self.table = Ghost(self.table@.push(encrypted_gate@));
                    self.position = self.position + 1;

                    self.gid = self.gid + 1;
                    self.counter = self.counter + 1;

                    // If we have more AND gates to evaluate, return.
                    if self.wants_gates() {
                        return;
                    }
                },
                Gate::Inv { x, z } => {
                    let label = self.labels[x];
                    self.labels[z] = label;
                    self.position = self.position + 1;
                },
                Gate::Id { x, z } => {
                    let label = self.labels[x];
                    self.labels[z] = label;
                    self.position = self.position + 1;
                },
            }
        }
        self.complete = true;
    }

    /// Returns the encoded outputs of the circuit.
    pub fn finish(self) -> (r: Result<EvaluatorOutput, EvaluatorError>)
        requires
            self.wf(),
        ensures
            if self.consumed().len() != self.circuit().and_len() {
                r == Err::<EvaluatorOutput, EvaluatorError>(EvaluatorError::NotFinished)
            } else {
                &&& r matches Ok(output)
                &&& mac_blocks(output.outputs@) == self.labels_at_end().subrange(
                    self.circuit().out_start(),
                    self.circuit().out_end(),
                )
            },
    {
        let mut this = self;
        if this.wants_gates() {
            return Err(EvaluatorError::NotFinished);
        }
        // If there were 0 AND gates in the circuit, we need to evaluate the "free"
        // gates now.

        if !this.complete {
            this.next(EncryptedGate::default());
        }
        proof {
            this.circ.lemma_wf();
        }
        let outputs = output_range(&this.labels, this.circ);
        Ok(EvaluatorOutput { outputs: Mac::from_blocks(outputs) })
    }
}

/// Consumer returned by [`Evaluator::evaluate_batched`].
pub struct EncryptedGateBatchConsumer<'a, H, const N: usize> {
    /// The consumer of single gates.
    pub consumer: EncryptedGateConsumer<'a, H>,
}

/// The first gates of a batch: as many as are still wanted.
pub open spec fn wanted(batch: Seq<GateWords>, want: int) -> Seq<GateWords> {
    if want < batch.len() {
        batch.take(want)
    } else {
        batch
    }
}

impl<'a, H: Fn(Block, Block) -> Block, const N: usize> EncryptedGateBatchConsumer<'a, H, N> {
    /// Returns `true` if the evaluator wants more encrypted gates.
    pub fn wants_gates(&self) -> (r: bool)
        requires
            self.consumer.wf(),
        ensures
            r == (self.consumer.consumed().len() != self.consumer.circuit().and_len()),
    {
        self.consumer.wants_gates()
    }

    /// Evaluates the next batch of gates in the circuit.
    pub fn next(&mut self, batch: EncryptedGateBatch<N>)
        requires
            old(self).consumer.wf(),
        ensures
            final(self).consumer.wf(),
            final(self).consumer.same_job(&old(self).consumer),
            final(self).consumer.consumed() == old(self).consumer.consumed() + wanted(
                gate_words(batch.gates@),
                old(self).consumer.circuit().and_len() - old(self).consumer.consumed().len(),
            ),
    {
        let gates = batch.into_array();
        let ghost before = self.consumer.consumed();
        let ghost count = self.consumer.circuit().and_len();
        proof {
            self.consumer.lemma_consumed();
        }
        let mut i: usize = 0;
        while i < N
            invariant
                i <= N,
                gates@ == batch.gates@,
                self.consumer.wf(),
                self.consumer.same_job(&old(self).consumer),
                before == old(self).consumer.consumed(),
                count == old(self).consumer.circuit().and_len(),
                self.consumer.consumed() == before + gate_words(gates@).take(i as int),
                i > 0 ==> before.len() + i < count,
            decreases N - i,
        {
            self.consumer.next(gates[i]);
            i = i + 1;
            assert(gate_words(gates@).take(i as int) =~= gate_words(gates@).take(i - 1).push(
                gates@[i - 1]@,
            ));
            if !self.consumer.wants_gates() {
                // Skipping any remaining gates which may have been used to pad the last batch.
                return;
            }
        }
    }

    /// Returns the encoded outputs of the circuit.
    pub fn finish(self) -> (r: Result<EvaluatorOutput, EvaluatorError>)
        requires
            self.consumer.wf(),
        ensures
            if self.consumer.consumed().len() != self.consumer.circuit().and_len() {
                r == Err::<EvaluatorOutput, EvaluatorError>(EvaluatorError::NotFinished)
            } else {
                &&& r matches Ok(output)
                &&& mac_blocks(output.outputs@) == self.consumer.labels_at_end().subrange(
                    self.consumer.circuit().out_start(),
                    self.consumer.circuit().out_end(),
                )
            },
    {
        self.consumer.finish()
    }
}

/// A circuit to evaluate: the circuit, its input labels and its encrypted gates.
pub type Evaluation = (Arc<Circuit>, Vec<Mac>, GarbledCircuit);

/// The labels that come out of a garbled circuit, or the error.
pub open spec fn evaluated_circuit(e: Evaluation, h: TweakFn) -> Result<
    Seq<Block>,
    EvaluatorError,
> {
    let (circ, inputs) = (e.0, e.1@);
    if inputs.len() != circ.input_len() {
        Err(
            EvaluatorError::InputLength {
                expected: circ.input_len() as usize,
                actual: inputs.len() as usize,
            },
        )
    } else if e.2.gates.len() < circ.and_len() {
        Err(EvaluatorError::NotFinished)
    } else {
        Ok(
            evaluated_labels(
                h,
                circ.gate_seq(),
                with_inputs(mac_blocks(inputs), circ.feeds(), Block { bits: 0 }),
                gate_words(e.2.gates@),
                circ.gate_seq().len() as int,
            ).subrange(circ.out_start(), circ.out_end()),
        )
    }
}

/// Evaluates multiple garbled circuits.
///
/// # Arguments
///
/// * `circs` - Vector of (circuit, input MACs, garbled circuit) tuples
/// * `cipher` - The hash.
///
/// # Returns
///
/// Vector of evaluation outputs (one per circuit)
pub fn evaluate_garbled_circuits<H: Fn(Block, Block) -> Block + Copy>(
    circs: Vec<Evaluation>,
    cipher: H,
) -> (r: Result<Vec<EvaluatorOutput>, EvaluatorError>)
    requires
        is_tweak_hash(cipher),
        forall|i: int| 0 <= i < circs.len() ==> (#[trigger] circs@[i]).0.wf(),
    ensures
        match r {
            Ok(outputs) => {
                &&& outputs.len() == circs.len()
                &&& forall|i: int|
                    0 <= i < circs.len() ==> Ok::<Seq<Block>, EvaluatorError>(
                        mac_blocks((#[trigger] outputs@[i]).outputs@),
                    ) == evaluated_circuit(circs@[i], tweak_fn(cipher))
            },
            Err(err) => exists|i: int|
                {
                    &&& 0 <= i < circs.len()
                    &&& (#[trigger] evaluated_circuit(circs@[i], tweak_fn(cipher))) == Err::<
                        Seq<Block>,
                        EvaluatorError,
                    >(err)
                    &&& forall|j: int|
                        0 <= j < i ==> (#[trigger] evaluated_circuit(
                            circs@[j],
                            tweak_fn(cipher),
                        )) is Ok
                },
        },
{
    let mut ev = Evaluator::default();
    let mut outputs: Vec<EvaluatorOutput> = Vec::with_capacity(circs.len());
    for i in 0..circs.len()
        invariant
            is_tweak_hash(cipher),
            forall|i: int| 0 <= i < circs.len() ==> (#[trigger] circs@[i]).0.wf(),
            outputs.len() == i,
            forall|j: int|
                0 <= j < i ==> Ok::<Seq<Block>, EvaluatorError>(
                    mac_blocks((#[trigger] outputs@[j]).outputs@),
                ) == evaluated_circuit(circs@[j], tweak_fn(cipher)),
            forall|j: int|
                0 <= j < i ==> (#[trigger] evaluated_circuit(
                    circs@[j],
                    tweak_fn(cipher),
                )) is Ok,
    {
        let ghost at = evaluated_circuit(circs@[i as int], tweak_fn(cipher));
        let circ: &Circuit = &circs[i].0;
        let inputs = &circs[i].1;
        let gates = &circs[i].2.gates;
        match ev.evaluate(circ, inputs.as_slice(), cipher) {
            Ok(mut consumer) => {
                let ghost begun = consumer;
                let ghost words = gate_words(gates@);
                for k in 0..gates.len()
                    invariant
                        consumer.wf(),
                        consumer.same_job(&begun),
                        words == gate_words(gates@),
                        consumer.consumed() == wanted(
                            words.take(k as int),
                            begun.circuit().and_len() as int,
                        ),
                {
                    proof {
                        consumer.lemma_consumed();
                    }
                    consumer.next(gates[k]);
                    assert(words.take(k + 1) =~= words.take(k as int).push(words[k as int]));
                    proof {
                        let want = begun.circuit().and_len() as int;
                        if k < want {
                            assert(wanted(words.take(k + 1), want) =~= words.take(k + 1));
                        } else {
                            assert(wanted(words.take(k + 1), want) =~= wanted(
                                words.take(k as int),
                                want,
                            ));
                        }
                    }
                }
                assert(words.take(gates.len() as int) =~= words);
                proof {
                    lemma_labels_prefix(
                        consumer.hash_fn(),
                        circ.gate_seq(),
                        consumer.start(),
                        consumer.consumed(),
                        words,
                        circ.gate_seq().len() as int,
                    );
                }
                match consumer.finish() {
                    Ok(output) => {
                        outputs.push(output);
                    },
                    Err(err) => {
                        assert(at == Err::<Seq<Block>, EvaluatorError>(err));
                        return Err(err);
                    },
                }
            },
            Err(err) => {
                assert(at == Err::<Seq<Block>, EvaluatorError>(err));
                return Err(err);
            },
        }
    }
    Ok(outputs)
}

} // verus!
