//! The evaluator of the half-gates scheme.

use std::sync::Arc;

use vstd::prelude::*;

use crate::block::{tweak_of, Block};
use crate::circuit::{
    ands, gate_ok, lemma_ands_bound, output_range, with_inputs, Circuit, EncryptedGate,
    EncryptedGateBatch, Gate, GarbledCircuit,
};
use crate::correlated::{mac_blocks, Mac};
use crate::half_gates::garbler::{gate_id, input_buffer};
use crate::hash::{cipher_fn, is_tweak_hash, makes_ciphers, tweak_fn, tweak_hash, TweakFn};
use crate::{SetupMsg, DEFAULT_BATCH_SIZE};

verus! {

/// Errors that can occur during garbled circuit evaluation.
#[derive(Clone, Copy, Debug, PartialEq, Eq, Structural)]
pub enum EvaluatorError {
    /// The number of input labels is not that of the inputs.
    InputLength {
        /// The number of inputs of the circuit.
        expected: usize,
        /// The number of labels.
        actual: usize,
    },
    /// There are AND gates left to evaluate.
    NotFinished,
    /// The evaluator was set up before.
    AlreadySetup,
    /// The evaluator is not set up.
    NotSetup,
    /// The circuit has more AND gates than were allocated.
    GateCountMismatch {
        /// The number of AND gates that were allocated.
        expected: usize,
        /// The number of AND gates of the circuit.
        actual: usize,
    },
}

/// The active label of an AND gate's result; `x` and `y` are those of the operands.
pub open spec fn evaluated_and(
    h: TweakFn,
    x: Block,
    y: Block,
    gate: EncryptedGate,
    gid: u128,
) -> Block {
    let hx = h(tweak_of(gid), x);
    let hy = h(tweak_of((gid + 1) as u128), y);
    let w_g = hx.xor(gate.garbler_row.times(x.low_bit()));
    let w_e = hy.xor(gate.evaluator_row.xor(x).times(y.low_bit()));
    w_g.xor(w_e)
}

/// The active labels of the wires after the first `n` gates; `table` holds the encrypted gates.
pub open spec fn evaluated_labels(
    h: TweakFn,
    gates: Seq<Gate>,
    init: Seq<Block>,
    first: int,
    table: Seq<EncryptedGate>,
    n: int,
) -> Seq<Block>
    decreases n,
{
    if n <= 0 {
        init
    } else {
        let l = evaluated_labels(h, gates, init, first, table, n - 1);
        let gate = gates[n - 1];
        let label = match gate {
            Gate::Xor { x, y, z } => l[x as int].xor(l[y as int]),
            Gate::And { x, y, z } => evaluated_and(
                h,
                l[x as int],
                l[y as int],
                table[ands(gates, n - 1) as int],
                gate_id(gates, first, n - 1),
            ),
            Gate::Inv { x, z } => l[x as int],
            Gate::Id { x, z } => l[x as int],
        };
        l.update(gate.out(), label)
    }
}

/// The labels depend only on the encrypted gates of the AND gates that were passed.
pub proof fn lemma_labels_prefix(
    h: TweakFn,
    gates: Seq<Gate>,
    init: Seq<Block>,
    first: int,
    s: Seq<EncryptedGate>,
    t: Seq<EncryptedGate>,
    n: int,
)
    requires
        forall|i: int| 0 <= i < ands(gates, n) ==> s[i] == t[i],
    ensures
        evaluated_labels(h, gates, init, first, s, n) == evaluated_labels(
            h,
            gates,
            init,
            first,
            t,
            n,
        ),
    decreases n,
{
    if n > 0 {
        lemma_labels_prefix(h, gates, init, first, s, t, n - 1);
    }
}

/// Evaluates half-gate garbled AND gate.
pub fn and_gate<H: Fn(Block, Block) -> Block>(
    cipher: &H,
    x: &Block,
    y: &Block,
    encrypted_gate: &EncryptedGate,
    gid: u128,
) -> (r: Block)
    requires
        is_tweak_hash(*cipher),
        gid < u128::MAX,
    ensures
        r == evaluated_and(tweak_fn(*cipher), *x, *y, *encrypted_gate, gid),
{
    let s_a = x.lsb();
    let s_b = y.lsb();

    let j = Block::tweak(gid);
    let k = Block::tweak(gid + 1);

    let hx = tweak_hash(cipher, j, *x);
    let hy = tweak_hash(cipher, k, *y);

    let w_g = hx ^ encrypted_gate.garbler_row.mul_bool(s_a);
    let w_e = hy ^ (encrypted_gate.evaluator_row ^ *x).mul_bool(s_b);

    w_g ^ w_e
}

/// Output of the evaluator.
#[derive(Debug)]
pub struct EvaluatorOutput {
    /// Output MACs of the circuit.
    pub outputs: Vec<Mac>,
}

/// The state of an evaluator.
#[derive(Debug)]
pub enum State {
    /// Created, not set up.
    Initialized,
    /// Set up.
    Setup(Setup),
    /// A call came in the wrong state.
    Error,
}

impl State {
    /// Takes the state out, leaving `Error`.
    pub fn take(&mut self) -> (r: State)
        ensures
            r == *old(self),
            *final(self) == State::Error,
    {
        let mut state = State::Error;
        core::mem::swap(self, &mut state);
        state
    }
}

/// What an evaluator holds once it is set up.
#[derive(Debug)]
pub struct Setup {
    /// The id to be assigned to the next evaluated AND gate.
    pub current_gid: u128,
    /// Key for the cipher used to encrypt the gates.
    pub key: [u8; 16],
}

impl Setup {
    /// Allocates ids for the given `count` of AND gates, returning the current id.
    pub fn alloc_ids(&mut self, count: usize) -> (r: u128)
        requires
            old(self).current_gid + 2 * count <= u128::MAX,
        ensures
            r == old(self).current_gid,
            final(self).current_gid == old(self).current_gid + 2 * count,
            final(self).key == old(self).key,
    {
        let old_gid: u128 = self.current_gid;
        // Each AND gates consumes 2 ids.
        self.current_gid = self.current_gid + (count as u128) * 2;
        old_gid
    }
}

/// Garbled circuit evaluator.
#[derive(Debug)]
pub struct Evaluator {
    /// State of the evaluator.
    pub state: State,
}

impl Default for Evaluator {
    fn default() -> (r: Evaluator)
        ensures
            r.state == State::Initialized,
    {
        Evaluator { state: State::Initialized }
    }
}

impl Evaluator {
    /// Creates a new evaluator.
    pub fn new() -> (r: Evaluator)
        ensures
            r.state == State::Initialized,
    {
        Evaluator { state: State::Initialized }
    }

    /// Sets up the evaluator with the given `setup` message.
    pub fn setup(&mut self, setup: SetupMsg) -> (r: Result<(), EvaluatorError>)
        ensures
            if old(self).state is Initialized {
                &&& r is Ok
                &&& final(self).state == State::Setup(
                    Setup { current_gid: setup.initial_gid, key: setup.key },
                )
            } else {
                &&& r == Err::<(), EvaluatorError>(EvaluatorError::AlreadySetup)
                &&& *final(self) == *old(self)
            },
    {
        if !matches!(self.state, State::Initialized) {
            return Err(EvaluatorError::AlreadySetup);
        }
        self.state = State::Setup(Setup { current_gid: setup.initial_gid, key: setup.key });
        Ok(())
    }

    /// Gate ids of `count` AND gates are left.
    pub open spec fn has_ids(&self, count: nat) -> bool {
        self.state matches State::Setup(s) ==> s.current_gid + 2 * count <= u128::MAX
    }

    /// Allocates a worker for the given `count` of AND gates.
    pub fn alloc_worker(&mut self, count: usize) -> (r: Result<EvaluatorWorker, EvaluatorError>)
        requires
            old(self).has_ids(count as nat),
        ensures
            match old(self).state {
                State::Setup(s) => {
                    &&& r == Ok::<EvaluatorWorker, EvaluatorError>(
                        EvaluatorWorker { initial_id: s.current_gid, count, key: s.key },
                    )
                    &&& final(self).state == State::Setup(
                        Setup { current_gid: (s.current_gid + 2 * count) as u128, key: s.key },
                    )
                },
                _ => {
                    &&& r == Err::<EvaluatorWorker, EvaluatorError>(EvaluatorError::NotSetup)
                    &&& final(self).state == State::Error
                },
            },
    {
        match self.state.take() {
            State::Setup(mut state) => {
                let worker = EvaluatorWorker {
                    initial_id: state.alloc_ids(count),
                    count,
                    key: state.key,
                };
                self.state = State::Setup(state);
                Ok(worker)
            },
            _ => Err(EvaluatorError::NotSetup),
        }
    }

    /// Returns a consumer over the encrypted gates of a circuit.
    ///
    /// # Arguments
    ///
    /// * `circ` - The circuit to evaluate.
    /// * `inputs` - The input labels to the circuit.
    /// * `new_cipher` - Makes the cipher of a key.
    pub fn evaluate<'a, H: Fn(Block, Block) -> Block, F: Fn([u8; 16]) -> H>(
        &mut self,
        circ: &'a Circuit,
        inputs: &[Mac],
        new_cipher: &F,
    ) -> (r: Result<EncryptedGateConsumer<'a, H>, EvaluatorError>)
        requires
            circ.wf(),
            makes_ciphers::<H, F>(*new_cipher),
            old(self).has_ids(circ.and_len()),
        ensures
            match old(self).state {
                State::Setup(s) => {
                    &&& final(self).state == State::Setup(
                        Setup {
                            current_gid: (s.current_gid + 2 * circ.and_len()) as u128,
                            key: s.key,
                        },
                    )
                    &&& evaluation(
                        r,
                        circ,
                        inputs@,
                        circ.and_len(),
                        s.current_gid,
                        cipher_fn::<H, F>(*new_cipher, s.key),
                    )
                },
                _ => {
                    &&& r == Err::<EncryptedGateConsumer<'a, H>, EvaluatorError>(
                        EvaluatorError::NotSetup,
                    )
                    &&& final(self).state == State::Error
                },
            },
    {
        match self.alloc_worker(circ.and_count()) {
            Ok(worker) => worker.evaluate(circ, inputs, new_cipher),
            Err(err) => Err(err),
        }
    }

    /// Returns a consumer over batched encrypted gates of a circuit.
    ///
    /// # Arguments
    ///
    /// * `circ` - The circuit to evaluate.
    /// * `inputs` - The input labels to the circuit.
    /// * `new_cipher` - Makes the cipher of a key.
    pub fn evaluate_batched<'a, H: Fn(Block, Block) -> Block, F: Fn([u8; 16]) -> H>(
        &mut self,
        circ: &'a Circuit,
        inputs: &[Mac],
        new_cipher: &F,
    ) -> (r: Result<EncryptedGateBatchConsumer<'a, H, DEFAULT_BATCH_SIZE>, EvaluatorError>)
        requires
            circ.wf(),
            makes_ciphers::<H, F>(*new_cipher),
            old(self).has_ids(circ.and_len()),
        ensures
            match old(self).state {
                State::Setup(s) => {
                    &&& final(self).state == State::Setup(
                        Setup {
                            current_gid: (s.current_gid + 2 * circ.and_len()) as u128,
                            key: s.key,
                        },
                    )
                    &&& evaluation(
                        unbatched(r),
                        circ,
                        inputs@,
                        circ.and_len(),
                        s.current_gid,
                        cipher_fn::<H, F>(*new_cipher, s.key),
                    )
                },
                _ => {
                    &&& unbatched(r) == Err::<EncryptedGateConsumer<'a, H>, EvaluatorError>(
                        EvaluatorError::NotSetup,
                    )
                    &&& final(self).state == State::Error
                },
            },
    {
        match self.evaluate(circ, inputs, new_cipher) {
            Ok(consumer) => Ok(EncryptedGateBatchConsumer { consumer }),
            Err(err) => Err(err),
        }
    }

    /// Returns whether evaluator was set up.
    pub fn is_setup(&self) -> (r: bool)
        ensures
            r == (self.state is Setup),
    {
        matches!(self.state, State::Setup(_))
    }
}

/// The result of a batched call, without the batches.
pub open spec fn unbatched<'a, H: Fn(Block, Block) -> Block, const N: usize>(
    r: Result<EncryptedGateBatchConsumer<'a, H, N>, EvaluatorError>,
) -> Result<EncryptedGateConsumer<'a, H>, EvaluatorError> {
    match r {
        Ok(batched) => Ok(batched.consumer),
        Err(err) => Err(err),
    }
}

/// The error with which a circuit is refused, if it is.
pub open spec fn refusal(circ: &Circuit, inputs: Seq<Mac>, count: nat) -> Option<EvaluatorError> {
    if inputs.len() != circ.input_len() {
        Some(
            EvaluatorError::InputLength {
                expected: circ.input_len() as usize,
                actual: inputs.len() as usize,
            },
        )
    } else if circ.and_len() > count {
        Some(
            EvaluatorError::GateCountMismatch {
                expected: count as usize,
                actual: circ.and_len() as usize,
            },
        )
    } else {
        None
    }
}

/// What is returned for a circuit, its input labels and a number of allocated AND gates.
pub open spec fn evaluation<'a, H: Fn(Block, Block) -> Block>(
    r: Result<EncryptedGateConsumer<'a, H>, EvaluatorError>,
    circ: &Circuit,
    inputs: Seq<Mac>,
    count: nat,
    first: u128,
    h: TweakFn,
) -> bool {
    match refusal(circ, inputs, count) {
        Some(err) => r == Err::<EncryptedGateConsumer<'a, H>, EvaluatorError>(err),
        None => {
            &&& r matches Ok(consumer)
            &&& consumer.wf()
            &&& consumer.consumed() == Seq::<EncryptedGate>::empty()
            &&& consumer.circuit() == circ
            &&& consumer.first_gid() == first
            &&& consumer.start() == with_inputs(
                mac_blocks(inputs),
                circ.feeds(),
                Block { bits: 0 },
            )
            &&& consumer.hash_fn() == h
        },
    }
}

/// A worker responsible for evaluating a single circuit.
///
/// Multiple workers can be run in parallel to evaluate multiple circuits.
pub struct EvaluatorWorker {
    /// Initial AND gate id of the circuit.
    pub initial_id: u128,
    /// AND gate count to be evaluated.
    pub count: usize,
    /// Key for the cipher used to encrypt the gates.
    pub key: [u8; 16],
}

impl EvaluatorWorker {
    /// Returns a consumer over the encrypted gates of a circuit, consuming
    /// the worker.
    ///
    /// # Arguments
    ///
    /// * `circ` - The circuit to evaluate.
    /// * `inputs` - The input labels to the circuit.
    /// * `new_cipher` - Makes the cipher of a key.
    pub fn evaluate<'a, H: Fn(Block, Block) -> Block, F: Fn([u8; 16]) -> H>(
        &self,
        circ: &'a Circuit,
        inputs: &[Mac],
        new_cipher: &F,
    ) -> (r: Result<EncryptedGateConsumer<'a, H>, EvaluatorError>)
        requires
            circ.wf(),
            makes_ciphers::<H, F>(*new_cipher),
            self.initial_id + 2 * circ.and_len() <= u128::MAX,
        ensures
            evaluation(
                r,
                circ,
                inputs@,
                self.count as nat,
                self.initial_id,
                cipher_fn::<H, F>(*new_cipher, self.key),
            ),
    {
        proof {
            circ.lemma_wf();
        }
        if inputs.len() != circ.input_count() {
            return Err(
                EvaluatorError::InputLength { expected: circ.input_count(), actual: inputs.len() },
            );
        }
        if circ.and_count() > self.count {
            return Err(
                EvaluatorError::GateCountMismatch {
                    expected: self.count,
                    actual: circ.and_count(),
                },
            );
        }
        let blocks = Mac::as_blocks(inputs);
        let buffer = input_buffer(&blocks, circ.feed_count());
        Ok(EncryptedGateConsumer::new(circ, buffer, self.initial_id, new_cipher(self.key)))
    }

    /// Returns a consumer over batched encrypted gates of a circuit, consuming
    /// the worker.
    ///
    /// # Arguments
    ///
    /// * `circ` - The circuit to evaluate.
    /// * `inputs` - The input labels to the circuit.
    /// * `new_cipher` - Makes the cipher of a key.
    pub fn evaluate_batched<'a, H: Fn(Block, Block) -> Block, F: Fn([u8; 16]) -> H>(
        &self,
        circ: &'a Circuit,
        inputs: &[Mac],
        new_cipher: &F,
    ) -> (r: Result<EncryptedGateBatchConsumer<'a, H, DEFAULT_BATCH_SIZE>, EvaluatorError>)
        requires
            circ.wf(),
            makes_ciphers::<H, F>(*new_cipher),
            self.initial_id + 2 * circ.and_len() <= u128::MAX,
        ensures
            evaluation(
                unbatched(r),
                circ,
                inputs@,
                self.count as nat,
                self.initial_id,
                cipher_fn::<H, F>(*new_cipher, self.key),
            ),
    {
        match self.evaluate(circ, inputs, new_cipher) {
            Ok(consumer) => Ok(EncryptedGateBatchConsumer { consumer }),
            Err(err) => Err(err),
        }
    }
}

/// Consumer over the encrypted gates of a circuit.
pub struct EncryptedGateConsumer<'a, H> {
    /// Cipher to use to decrypt the gates.
    cipher: H,
    /// Buffer for the active labels.
    labels: Vec<Block>,
    /// The circuit.
    circ: &'a Circuit,
    /// Number of gates that are done.
    position: usize,
    /// Current AND gate id.
    gid: u128,
    /// Number of AND gates evaluated.
    counter: usize,
    /// Whether the entire circuit has been evaluated.
    complete: bool,
    /// The labels that the consumer started from.
    init: Ghost<Seq<Block>>,
    /// The encrypted gates that were evaluated.
    table: Ghost<Seq<EncryptedGate>>,
}

impl<'a, H: Fn(Block, Block) -> Block> EncryptedGateConsumer<'a, H> {
    /// The circuit.
    pub closed spec fn circuit(&self) -> &Circuit {
        self.circ
    }

    /// The function that the cipher computes.
    pub closed spec fn hash_fn(&self) -> TweakFn {
        tweak_fn(self.cipher)
    }

    /// The labels that the consumer started from.
    pub closed spec fn start(&self) -> Seq<Block> {
        self.init@
    }

    /// The id of the first AND gate.
    pub closed spec fn first_gid(&self) -> int {
        self.gid - 2 * self.counter
    }

    /// The encrypted gates that were evaluated.
    pub closed spec fn consumed(&self) -> Seq<EncryptedGate> {
        self.table@
    }

    /// The number of gates that are left to do.
    pub closed spec fn gates_left(&self) -> int {
        self.circ.gate_seq().len() - self.position
    }

    /// The active labels of all wires, with the encrypted gates that were evaluated.
    pub open spec fn labels_at_end(&self) -> Seq<Block> {
        evaluated_labels(
            self.hash_fn(),
            self.circuit().gate_seq(),
            self.start(),
            self.first_gid(),
            self.consumed(),
            self.circuit().gate_seq().len() as int,
        )
    }

    /// The two consumers evaluate the same circuit from the same labels.
    pub open spec fn same_job(&self, other: &Self) -> bool {
        &&& self.circuit() == other.circuit()
        &&& self.hash_fn() == other.hash_fn()
        &&& self.start() == other.start()
        &&& self.first_gid() == other.first_gid()
    }

    /// What every consumer satisfies.
    pub closed spec fn wf(&self) -> bool {
        let gates = self.circ.gate_seq();
        &&& self.circ.wf()
        &&& is_tweak_hash(self.cipher)
        &&& self.position <= gates.len()
        &&& self.counter == ands(gates, self.position as int)
        &&& self.table@.len() == self.counter
        &&& self.gid >= 2 * self.counter
        &&& self.first_gid() + 2 * self.circ.and_len() <= u128::MAX
        &&& self.init@.len() == self.circ.feeds()
        &&& self.labels.len() == self.circ.feeds()
        &&& self.labels@ == evaluated_labels(
            tweak_fn(self.cipher),
            gates,
            self.init@,
            self.first_gid(),
            self.table@,
            self.position as int,
        )
        &&& self.complete ==> self.position == gates.len()
    }

    /// No more gates are evaluated than the circuit has.
    pub proof fn lemma_consumed(&self)
        requires
            self.wf(),
        ensures
            self.consumed().len() <= self.circuit().and_len(),
    {
        lemma_ands_bound(
            self.circ.gate_seq(),
            self.position as int,
            self.circ.gate_seq().len() as int,
        );
    }

    fn new(circ: &'a Circuit, labels: Vec<Block>, gid: u128, cipher: H) -> (r: Self)
        requires
            circ.wf(),
            is_tweak_hash(cipher),
            labels.len() == circ.feeds(),
            gid + 2 * circ.and_len() <= u128::MAX,
        ensures
            r.wf(),
            r.consumed() == Seq::<EncryptedGate>::empty(),
            r.circuit() == circ,
            r.hash_fn() == tweak_fn(cipher),
            r.first_gid() == gid,
            r.start() == labels@,
    {
        let ghost init = labels@;
        EncryptedGateConsumer {
            cipher,
            labels,
            circ,
            position: 0,
            gid,
            counter: 0,
            complete: false,
            init: Ghost(init),
            table: Ghost(Seq::empty()),
        }
    }

    /// Returns `true` if the evaluator wants more encrypted gates.
    pub fn wants_gates(&self) -> (r: bool)
        requires
            self.wf(),
        ensures
            r == (self.consumed().len() != self.circuit().and_len()),
            self.consumed().len() <= self.circuit().and_len(),
    {
        proof {
            self.lemma_consumed();
        }
        self.counter != self.circ.and_count()
    }

    /// Evaluates the next encrypted gate in the circuit.
    pub fn next(&mut self, encrypted_gate: EncryptedGate)
        requires
            old(self).wf(),
        ensures
            final(self).wf(),
            final(self).same_job(old(self)),
            if old(self).consumed().len() < old(self).circuit().and_len() {
                final(self).consumed() == old(self).consumed().push(encrypted_gate)
            } else {
                &&& final(self).consumed() == old(self).consumed()
                &&& final(self).gates_left() == 0
            },
    {
        let ghost gates = self.circ.gate_seq();
        let ghost h = tweak_fn(self.cipher);
        let ghost first = self.first_gid();
        let ghost len = gates.len() as int;
        let ghost before = self.table@;
        proof {
            self.circ.lemma_wf();
            lemma_ands_bound(gates, self.position as int, len);
        }
        while self.position < self.circ.gates().len()
            invariant
                self.wf(),
                self.circ == old(self).circ,
                self.cipher == old(self).cipher,
                self.init == old(self).init,
                gates == self.circ.gate_seq(),
                len == gates.len(),
                h == tweak_fn(self.cipher),
                first == self.first_gid(),
                first == old(self).first_gid(),
                before == old(self).table@,
                before.len() <= ands(gates, len),
                self.table@ == before || (before.len() + 1 == ands(gates, len) && self.table@
                    == before.push(encrypted_gate)),
            decreases self.circ.gate_seq().len() - self.position,
        {
            proof {
                self.circ.lemma_wf();
                lemma_ands_bound(gates, self.position + 1, len);
                assert(gate_ok(
                    self.circ.input_len(),
                    self.circ.feeds(),
                    gates,
                    self.position as int,
                ));
            }
            let gate = self.circ.gates()[self.position];
            match gate {
                Gate::Xor { x, y, z } => {
                    let label = self.labels[x] ^ self.labels[y];
                    self.labels[z] = label;
                    self.position = self.position + 1;
                },
                Gate::And { x, y, z } => {
                    let x = self.labels[x];
                    let y = self.labels[y];
                    let label = and_gate(&self.cipher, &x, &y, &encrypted_gate, self.gid);
                    self.labels[z] = label;
                    proof {
                        lemma_labels_prefix(
                            h,
                            gates,
                            self.init@,
                            first,
                            self.table@,
                            self.table@.push(encrypted_gate),
                            self.position as int,
                        );
                    }
                    self.table = Ghost(self.table@.push(encrypted_gate));
                    self.position = self.position + 1;

                    self.gid = self.gid + 2;
                    self.counter = self.counter + 1;

                    // If we have more AND gates to evaluate, return.
                    if self.wants_gates() {
                        return;
                    }
                },
                Gate::Inv { x, z } => {
                    let label = self.labels[x];
                    self.labels[z] = label;
                    self.position = self.position + 1;
                },
                Gate::Id { x, z } => {
                    let label = self.labels[x];
                    self.labels[z] = label;
                    self.position = self.position + 1;
                },
            }
        }
        self.complete = true;
    }

    /// Returns the encoded outputs of the circuit.
    pub fn finish(self) -> (r: Result<EvaluatorOutput, EvaluatorError>)
        requires
            self.wf(),
        ensures
            if self.consumed().len() != self.circuit().and_len() {
                r == Err::<EvaluatorOutput, EvaluatorError>(EvaluatorError::NotFinished)
            } else {
                &&& r matches Ok(output)
                &&& mac_blocks(output.outputs@) == self.labels_at_end().subrange(
                    self.circuit().out_start(),
                    self.circuit().out_end(),
                )
            },
    {
        let mut this = self;
        if this.wants_gates() {
            return Err(EvaluatorError::NotFinished);
        }
        // If there were 0 AND gates in the circuit, we need to evaluate the "free"
        // gates now.

        if !this.complete {
            this.next(EncryptedGate::default());
        }
        proof {
            this.circ.lemma_wf();
        }
        let outputs = output_range(&this.labels, this.circ);
        Ok(EvaluatorOutput { outputs: Mac::from_blocks(outputs) })
    }
}

/// Consumer returned by [`Evaluator::evaluate_batched`].
pub struct EncryptedGateBatchConsumer<'a, H, const N: usize> {
    /// The consumer of single gates.
    pub consumer: EncryptedGateConsumer<'a, H>,
}

/// The first gates of a batch: as many as are still wanted.
pub open spec fn wanted(batch: Seq<EncryptedGate>, want: int) -> Seq<EncryptedGate> {
    if want < batch.len() {
        batch.take(want)
    } else {
        batch
    }
}

impl<'a, H: Fn(Block, Block) -> Block, const N: usize> EncryptedGateBatchConsumer<'a, H, N> {
    /// Returns `true` if the evaluator wants more encrypted gates.
    pub fn wants_gates(&self) -> (r: bool)
        requires
            self.consumer.wf(),
        ensures
            r == (self.consumer.consumed().len() != self.consumer.circuit().and_len()),
    {
        self.consumer.wants_gates()
    }

    /// Evaluates the next batch of gates in the circuit.
    pub fn next(&mut self, batch: EncryptedGateBatch<N>)
        requires
            old(self).consumer.wf(),
        ensures
            final(self).consumer.wf(),
            final(self).consumer.same_job(&old(self).consumer),
            final(self).consumer.consumed() == old(self).consumer.consumed() + wanted(
                batch.gates@,
                old(self).consumer.circuit().and_len() - old(self).consumer.consumed().len(),
            ),
    {
        let gates = batch.into_array();
        let ghost before = self.consumer.consumed();
        let ghost count = self.consumer.circuit().and_len();
        proof {
            self.consumer.lemma_consumed();
        }
        let mut i: usize = 0;
        while i < N
            invariant
                i <= N,
                gates@ == batch.gates@,
                self.consumer.wf(),
                self.consumer.same_job(&old(self).consumer),
                before == old(self).consumer.consumed(),
                count == old(self).consumer.circuit().and_len(),
                self.consumer.consumed() == before + gates@.take(i as int),
                i > 0 ==> before.len() + i < count,
            decreases N - i,
        {
            self.consumer.next(gates[i]);
            i = i + 1;
            assert(gates@.take(i as int) =~= gates@.take(i - 1).push(gates@[i - 1]));
            if !self.consumer.wants_gates() {
                // Skipping any remaining gates which may have been used to pad the last batch.
                return;
            }
        }
    }

    /// Returns the encoded outputs of the circuit.
    pub fn finish(self) -> (r: Result<EvaluatorOutput, EvaluatorError>)
        requires
            self.consumer.wf(),
        ensures
            if self.consumer.consumed().len() != self.consumer.circuit().and_len() {
                r == Err::<EvaluatorOutput, EvaluatorError>(EvaluatorError::NotFinished)
            } else {
                &&& r matches Ok(output)
                &&& mac_blocks(output.outputs@) == self.consumer.labels_at_end().subrange(
                    self.consumer.circuit().out_start(),
                    self.consumer.circuit().out_end(),
                )
            },
    {
        self.consumer.finish()
    }
}

/// A circuit to evaluate: the circuit, its input labels and its encrypted gates.
pub type Evaluation = (Arc<Circuit>, Vec<Mac>, GarbledCircuit);

/// The labels that come out of a garbled circuit, or the error.
pub open spec fn evaluated_circuit(
    circ: &Circuit,
    inputs: Seq<Mac>,
    table: Seq<EncryptedGate>,
    count: nat,
    first: u128,
    h: TweakFn,
) -> Result<Seq<Block>, EvaluatorError> {
    match refusal(circ, inputs, count) {
        Some(err) => Err(err),
        None => if table.len() < circ.and_len() {
            Err(EvaluatorError::NotFinished)
        } else {
            Ok(
                evaluated_labels(
                    h,
                    circ.gate_seq(),
                    with_inputs(mac_blocks(inputs), circ.feeds(), Block { bits: 0 }),
                    first as int,
                    table,
                    circ.gate_seq().len() as int,
                ).subrange(circ.out_start(), circ.out_end()),
            )
        },
    }
}

/// The labels that come out of the circuit with index `i`, or the error.
pub open spec fn evaluated_at<H: Fn(Block, Block) -> Block, F: Fn([u8; 16]) -> H>(
    circs: Seq<Evaluation>,
    workers: Seq<EvaluatorWorker>,
    new_cipher: F,
    i: int,
) -> Result<Seq<Block>, EvaluatorError> {
    evaluated_circuit(
        &circs[i].0,
        circs[i].1@,
        circs[i].2.gates@,
        workers[i].count as nat,
        workers[i].initial_id,
        cipher_fn::<H, F>(new_cipher, workers[i].key),
    )
}

/// Evaluates multiple garbled circuits in bulk.
pub fn evaluate_garbled_circuits<H: Fn(Block, Block) -> Block, F: Fn([u8; 16]) -> H>(
    circs: Vec<Evaluation>,
    workers: Vec<EvaluatorWorker>,
    new_cipher: &F,
) -> (r: Result<Vec<EvaluatorOutput>, EvaluatorError>)
    requires
        circs.len() == workers.len(),
        makes_ciphers::<H, F>(*new_cipher),
        forall|i: int|
            0 <= i < circs.len() ==> {
                &&& (#[trigger] circs@[i]).0.wf()
                &&& workers@[i].initial_id + 2 * circs@[i].0.and_len() <= u128::MAX
            },
    ensures
        match r {
            Ok(outputs) => {
                &&& outputs.len() == circs.len()
                &&& forall|i: int|
                    0 <= i < circs.len() ==> Ok::<Seq<Block>, EvaluatorError>(
                        mac_blocks((#[trigger] outputs@[i]).outputs@),
                    ) == evaluated_at::<H, F>(circs@, workers@, *new_cipher, i)
            },
            Err(err) => exists|i: int|
                {
                    &&& 0 <= i < circs.len()
                    &&& (#[trigger] evaluated_at::<H, F>(circs@, workers@, *new_cipher, i)) == Err::<
                        Seq<Block>,
                        EvaluatorError,
                    >(err)
                    &&& forall|j: int|
                        0 <= j < i ==> (#[trigger] evaluated_at::<H, F>(
                            circs@,
                            workers@,
                            *new_cipher,
                            j,
                        )) is Ok
                },
        },
{
    let mut outputs: Vec<EvaluatorOutput> = Vec::with_capacity(circs.len());
    for i in 0..circs.len()
        invariant
            circs.len() == workers.len(),
            makes_ciphers::<H, F>(*new_cipher),
            forall|i: int|
                0 <= i < circs.len() ==> {
                    &&& (#[trigger] circs@[i]).0.wf()
                    &&& workers@[i].initial_id + 2 * circs@[i].0.and_len() <= u128::MAX
                },
            outputs.len() == i,
            forall|j: int|
                0 <= j < i ==> Ok::<Seq<Block>, EvaluatorError>(
                    mac_blocks((#[trigger] outputs@[j]).outputs@),
                ) == evaluated_at::<H, F>(circs@, workers@, *new_cipher, j),
            forall|j: int|
                0 <= j < i ==> (#[trigger] evaluated_at::<H, F>(
                    circs@,
                    workers@,
                    *new_cipher,
                    j,
                )) is Ok,
    {
        let ghost at = evaluated_at::<H, F>(circs@, workers@, *new_cipher, i as int);
        let circ: &Circuit = &circs[i].0;
        let inputs = &circs[i].1;
        let gates = &circs[i].2.gates;
        match workers[i].evaluate(circ, inputs.as_slice(), new_cipher) {
            Ok(mut consumer) => {
                let ghost begun = consumer;
                let ghost h = consumer.hash_fn();
                for k in 0..gates.len()
                    invariant
                        consumer.wf(),
                        consumer.same_job(&begun),
                        consumer.consumed() == wanted(
                            gates@.take(k as int),
                            begun.circuit().and_len() as int,
                        ),
                {
                    proof {
                        consumer.lemma_consumed();
                    }
                    consumer.next(gates[k]);
                    assert(gates@.take(k + 1) =~= gates@.take(k as int).push(gates@[k as int]));
                    proof {
                        let want = begun.circuit().and_len() as int;
                        if k < want {
                            assert(wanted(gates@.take(k + 1), want) =~= gates@.take(k + 1));
                        } else {
                            assert(wanted(gates@.take(k + 1), want) =~= wanted(
                                gates@.take(k as int),
                                want,
                            ));
                        }
                    }
                }
                assert(gates@.take(gates.len() as int) =~= gates@);
                proof {
                    lemma_labels_prefix(
                        h,
                        circ.gate_seq(),
                        consumer.start(),
                        consumer.first_gid(),
                        consumer.consumed(),
                        gates@,
                        circ.gate_seq().len() as int,
                    );
                }
                match consumer.finish() {
                    Ok(output) => {
                        outputs.push(output);
                    },
                    Err(err) => {
                        assert(at == Err::<Seq<Block>, EvaluatorError>(err));
                        return Err(err);
                    },
                }
            },
            Err(err) => {
                assert(at == Err::<Seq<Block>, EvaluatorError>(err));
                return Err(err);
            },
        }
    }
    Ok(outputs)
}

} // verus!
