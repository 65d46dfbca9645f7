//! The garbler of the half-gates scheme.

use vstd::prelude::*;

use crate::block::{tweak_of, Block};
use crate::circuit::{
    ands, empty_gate, lemma_ands_bound, output_range, with_inputs, Circuit, EncryptedGate, EncryptedGateBatch,
    Gate,
};
use crate::correlated::{key_blocks, Delta, Key};
use crate::hash::{cipher_fn, is_tweak_hash, makes_ciphers, tweak_fn, tweak_hash, TweakFn};
use crate::{SetupMsg, DEFAULT_BATCH_SIZE};

verus! {

/// Errors that can occur during garbled circuit generation.
#[derive(Clone, Copy, Debug, PartialEq, Eq, Structural)]
pub enum GarblerError {
    /// The number of input labels is not that of the inputs.
    InputLength {
        /// The number of inputs of the circuit.
        expected: usize,
        /// The number of labels.
        actual: usize,
    },
    /// There are AND gates left to garble.
    NotFinished,
    /// The garbler was set up before.
    AlreadySetup,
    /// The garbler is not set up.
    NotSetup,
    /// The circuit has more AND gates than were allocated.
    GateCountMismatch {
        /// The number of AND gates that were allocated.
        expected: usize,
        /// The number of AND gates of the circuit.
        actual: usize,
    },
}

/// The zero label of an AND gate's result and its rows.
///
/// `x_0` and `y_0` are the zero labels of the operands.
pub open spec fn garbled_and(h: TweakFn, x_0: Block, y_0: Block, delta: Block, gid: u128) -> (
    Block,
    EncryptedGate,
) {
    let j = tweak_of(gid);
    let k = tweak_of((gid + 1) as u128);
    let hx_0 = h(j, x_0);
    let hx_1 = h(j, x_0.xor(delta));
    let hy_0 = h(k, y_0);
    let hy_1 = h(k, y_0.xor(delta));
    let t_g = hx_0.xor(hx_1).xor(delta.times(y_0.low_bit()));
    let w_g = hx_0.xor(t_g.times(x_0.low_bit()));
    let t_e = hy_0.xor(hy_1).xor(x_0);
    let w_e = hy_0.xor(t_e.xor(x_0).times(y_0.low_bit()));
    (w_g.xor(w_e), EncryptedGate { garbler_row: t_g, evaluator_row: t_e })
}

/// The id of the AND gate that follows the first `n` gates.
pub open spec fn gate_id(gates: Seq<Gate>, first: int, n: int) -> u128 {
    (first + 2 * ands(gates, n)) as u128
}

/// The zero labels of the wires after the first `n` gates.
pub open spec fn garbled_labels(
    h: TweakFn,
    delta: Block,
    gates: Seq<Gate>,
    init: Seq<Block>,
    first: int,
    n: int,
) -> Seq<Block>
    decreases n,
{
    if n <= 0 {
        init
    } else {
        let l = garbled_labels(h, delta, gates, init, first, n - 1);
        let gate = gates[n - 1];
        let label = match gate {
            Gate::Xor { x, y, z } => l[x as int].xor(l[y as int]),
            Gate::And { x, y, z } => garbled_and(
                h,
                l[x as int],
                l[y as int],
                delta,
                gate_id(gates, first, n - 1),
            ).0,
            Gate::Inv { x, z } => l[x as int].xor(delta),
            Gate::Id { x, z } => l[x as int],
        };
        l.update(gate.out(), label)
    }
}

/// The encrypted gates that stand for the AND gates among the first `n` gates.
pub open spec fn garbled_table(
    h: TweakFn,
    delta: Block,
    gates: Seq<Gate>,
    init: Seq<Block>,
    first: int,
    n: int,
) -> Seq<EncryptedGate>
    decreases n,
{
    if n <= 0 {
        Seq::empty()
    } else {
        let table = garbled_table(h, delta, gates, init, first, n - 1);
        let l = garbled_labels(h, delta, gates, init, first, n - 1);
        match gates[n - 1] {
            Gate::And { x, y, z } => table.push(
                garbled_and(
                    h,
                    l[x as int],
                    l[y as int],
                    delta,
                    gate_id(gates, first, n - 1),
                ).1,
            ),
            _ => table,
        }
    }
}

/// A table has one entry for each AND gate, and more gates only add entries.
pub proof fn lemma_table(
    h: TweakFn,
    delta: Block,
    gates: Seq<Gate>,
    init: Seq<Block>,
    first: int,
    n: int,
    m: int,
)
    requires
        0 <= n <= m,
    ensures
        garbled_table(h, delta, gates, init, first, n).len() == ands(gates, n),
        garbled_table(h, delta, gates, init, first, m).len() == ands(gates, m),
        ands(gates, n) <= ands(gates, m),
        forall|i: int|
            0 <= i < ands(gates, n) ==> garbled_table(h, delta, gates, init, first, m)[i]
                == garbled_table(h, delta, gates, init, first, n)[i],
    decreases m,
{
    if n < m {
        lemma_table(h, delta, gates, init, first, n, m - 1);
    } else if n > 0 {
        lemma_table(h, delta, gates, init, first, n - 1, n - 1);
    }
}

/// Computes half-gate garbled AND gate.
pub fn and_gate<H: Fn(Block, Block) -> Block>(
    cipher: &H,
    x_0: &Block,
    y_0: &Block,
    delta: &Delta,
    gid: u128,
) -> (r: (Block, EncryptedGate))
    requires
        is_tweak_hash(*cipher),
        gid < u128::MAX,
    ensures
        r == garbled_and(tweak_fn(*cipher), *x_0, *y_0, delta.block, gid),
{
    let delta = *delta.as_block();
    let x_1 = *x_0 ^ delta;
    let y_1 = *y_0 ^ delta;

    let p_a = x_0.lsb();
    let p_b = y_0.lsb();
    let j = Block::tweak(gid);
    let k = Block::tweak(gid + 1);

    let hx_0 = tweak_hash(cipher, j, *x_0);
    let hy_0 = tweak_hash(cipher, k, *y_0);
    let hx_1 = tweak_hash(cipher, j, x_1);
    let hy_1 = tweak_hash(cipher, k, y_1);

    // Garbled row of garbler half-gate
    let t_g = hx_0 ^ hx_1 ^ delta.mul_bool(p_b);
    let w_g = hx_0 ^ t_g.mul_bool(p_a);

    // Garbled row of evaluator half-gate
    let t_e = hy_0 ^ hy_1 ^ *x_0;
    let w_e = hy_0 ^ (t_e ^ *x_0).mul_bool(p_b);

    let z_0 = w_g ^ w_e;

    (z_0, EncryptedGate::new([t_g, t_e]))
}

/// Output of the garbler.
#[derive(Debug)]
pub struct GarblerOutput {
    /// Output keys of the circuit.
    pub outputs: Vec<Key>,
}

/// The state of a garbler.
#[derive(Debug)]
pub enum State {
    /// Created, not set up.
    Initialized(Initialized),
    /// Set up.
    Setup(Setup),
    /// A call came in the wrong state.
    Error,
}

impl State {
    /// Takes the state out, leaving `Error`.
    pub fn take(&mut self) -> (r: State)
        ensures
            r == *old(self),
            *final(self) == State::Error,
    {
        let mut state = State::Error;
        core::mem::swap(self, &mut state);
        state
    }
}

/// What a garbler starts from.
#[derive(Debug)]
pub struct Initialized {
    /// Initial gate id.
    pub initial_gid: u128,
    /// Key for the cipher used to encrypt the gates.
    pub key: [u8; 16],
}

/// What a garbler holds once it is set up.
#[derive(Debug)]
pub struct Setup {
    /// The id to be assigned to the next garbled AND gate.
    pub current_gid: u128,
    /// Key for the cipher used to encrypt the gates.
    pub key: [u8; 16],
}

impl Setup {
    /// Allocates ids for the given `count` of AND gates, returning the current id.
    pub fn alloc_ids(&mut self, count: usize) -> (r: u128)
        requires
            old(self).current_gid + 2 * count <= u128::MAX,
        ensures
            r == old(self).current_gid,
            final(self).current_gid == old(self).current_gid + 2 * count,
            final(self).key == old(self).key,
    {
        let old_gid: u128 = self.current_gid;
        // Each AND gates consumes 2 ids.
        self.current_gid = self.current_gid + (count as u128) * 2;
        old_gid
    }
}

/// Garbled circuit generator.
#[derive(Debug)]
pub struct Garbler {
    /// Global correlation.
    pub delta: Delta,
    /// State of the garbler.
    pub state: State,
}

impl Garbler {
    /// Creates a new garbler with the given `delta`.
    ///
    /// The initial gate id and the cipher key are drawn at random.
    pub fn new(delta: Delta) -> (r: Garbler)
        ensures
            r.delta == delta,
            r.state is Initialized,
    {
        Garbler::with_initial(delta, crate::rng::random_u128(), crate::rng::random_u128())
    }

    /// Creates a garbler that starts from the given gate id and cipher key.
    pub fn with_initial(delta: Delta, initial_gid: u128, key: u128) -> (r: Garbler)
        ensures
            r.delta == delta,
            r.state matches State::Initialized(s) && s.initial_gid == initial_gid && s.key@ == (
            Block { bits: key }).bytes(),
    {
        let key: [u8; 16] = (Block { bits: key }).to_bytes();
        Garbler { delta, state: State::Initialized(Initialized { initial_gid, key }) }
    }

    /// Sets up the garbler returning a setup message.
    pub fn setup(&mut self) -> (r: Result<SetupMsg, GarblerError>)
        ensures
            final(self).delta == old(self).delta,
            match old(self).state {
                State::Initialized(s) => {
                    &&& r matches Ok(msg) && msg.initial_gid == s.initial_gid && msg.key == s.key
                    &&& final(self).state == State::Setup(
                        Setup { current_gid: s.initial_gid, key: s.key },
                    )
                },
                _ => {
                    &&& r == Err::<SetupMsg, GarblerError>(GarblerError::AlreadySetup)
                    &&& final(self).state == State::Error
                },
            },
    {
        match self.state.take() {
            State::Initialized(state) => {
                let msg = SetupMsg { initial_gid: state.initial_gid, key: state.key };
                self.state =
                State::Setup(Setup { current_gid: state.initial_gid, key: state.key });
                Ok(msg)
            },
            _ => Err(GarblerError::AlreadySetup),
        }
    }

    /// Gate ids of `count` AND gates are left.
    pub open spec fn has_ids(&self, count: nat) -> bool {
        self.state matches State::Setup(s) ==> s.current_gid + 2 * count <= u128::MAX
    }

    /// Allocates a worker for the given `count` of AND gates.
    pub fn alloc_worker(&mut self, count: usize) -> (r: Result<GarblerWorker, GarblerError>)
        requires
            old(self).has_ids(count as nat),
        ensures
            final(self).delta == old(self).delta,
            match old(self).state {
                State::Setup(s) => {
                    &&& r == Ok::<GarblerWorker, GarblerError>(
                        GarblerWorker {
                            initial_id: s.current_gid,
                            count,
                            key: s.key,
                            delta: old(self).delta,
                        },
                    )
                    &&& final(self).state == State::Setup(
                        Setup { current_gid: (s.current_gid + 2 * count) as u128, key: s.key },
                    )
                },
                _ => {
                    &&& r == Err::<GarblerWorker, GarblerError>(GarblerError::NotSetup)
                    &&& final(self).state == State::Error
                },
            },
    {
        match self.state.take() {
            State::Setup(mut state) => {
                let worker = GarblerWorker {
                    initial_id: state.alloc_ids(count),
                    count,
                    key: state.key,
                    delta: self.delta,
                };
                self.state = State::Setup(state);
                Ok(worker)
            },
            _ => Err(GarblerError::NotSetup),
        }
    }

    /// Returns an iterator over the encrypted gates of a circuit.
    ///
    /// # Arguments
    ///
    /// * `circ` - The circuit to garble.
    /// * `inputs` - The input labels to the circuit.
    /// * `new_cipher` - Makes the cipher of a key.
    pub fn generate<'a, H: Fn(Block, Block) -> Block, F: Fn([u8; 16]) -> H>(
        &mut self,
        circ: &'a Circuit,
        inputs: &[Key],
        new_cipher: &F,
    ) -> (r: Result<EncryptedGateIter<'a, H>, GarblerError>)
        requires
            circ.wf(),
            makes_ciphers::<H, F>(*new_cipher),
            old(self).has_ids(circ.and_len()),
        ensures
            final(self).delta == old(self).delta,
            match old(self).state {
                State::Setup(s) => {
                    &&& final(self).state == State::Setup(
                        Setup {
                            current_gid: (s.current_gid + 2 * circ.and_len()) as u128,
                            key: s.key,
                        },
                    )
                    &&& garbling(
                        r,
                        circ,
                        inputs@,
                        circ.and_len(),
                        old(self).delta,
                        s.current_gid,
                        s.key,
                        *new_cipher,
                    )
                },
                _ => {
                    &&& r == Err::<EncryptedGateIter<'a, H>, GarblerError>(GarblerError::NotSetup)
                    &&& final(self).state == State::Error
                },
            },
    {
        match self.alloc_worker(circ.and_count()) {
            Ok(worker) => worker.generate(circ, inputs, new_cipher),
            Err(err) => Err(err),
        }
    }

    /// Returns an iterator over batched encrypted gates of a circuit.
    ///
    /// # Arguments
    ///
    /// * `circ` - The circuit to garble.
    /// * `inputs` - The input labels to the circuit.
    /// * `new_cipher` - Makes the cipher of a key.
    pub fn generate_batched<'a, H: Fn(Block, Block) -> Block, F: Fn([u8; 16]) -> H>(
        &mut self,
        circ: &'a Circuit,
        inputs: &[Key],
        new_cipher: &F,
    ) -> (r: Result<EncryptedGateBatchIter<'a, H, DEFAULT_BATCH_SIZE>, GarblerError>)
        requires
            circ.wf(),
            makes_ciphers::<H, F>(*new_cipher),
            old(self).has_ids(circ.and_len()),
        ensures
            final(self).delta == old(self).delta,
            match old(self).state {
                State::Setup(s) => {
                    &&& final(self).state == State::Setup(
                        Setup {
                            current_gid: (s.current_gid + 2 * circ.and_len()) as u128,
                            key: s.key,
                        },
                    )
                    &&& garbling(
                        unbatched(r),
                        circ,
                        inputs@,
                        circ.and_len(),
                        old(self).delta,
                        s.current_gid,
                        s.key,
                        *new_cipher,
                    )
                },
                _ => {
                    &&& unbatched(r) == Err::<EncryptedGateIter<'a, H>, GarblerError>(
                        GarblerError::NotSetup,
                    )
                    &&& final(self).state == State::Error
                },
            },
    {
        match self.generate(circ, inputs, new_cipher) {
            Ok(iter) => Ok(EncryptedGateBatchIter { iter }),
            Err(err) => Err(err),
        }
    }

    /// Returns whether garbler was set up.
    pub fn is_setup(&self) -> (r: bool)
        ensures
            r == (self.state is Setup),
    {
        matches!(self.state, State::Setup(_))
    }
}

/// The result of a batched call, without the batches.
pub open spec fn unbatched<'a, H: Fn(Block, Block) -> Block, const N: usize>(
    r: Result<EncryptedGateBatchIter<'a, H, N>, GarblerError>,
) -> Result<EncryptedGateIter<'a, H>, GarblerError> {
    match r {
        Ok(batched) => Ok(batched.iter),
        Err(err) => Err(err),
    }
}

/// What is returned for a circuit, its input labels and a number of allocated AND gates.
pub open spec fn garbling<'a, H: Fn(Block, Block) -> Block, F: Fn([u8; 16]) -> H>(
    r: Result<EncryptedGateIter<'a, H>, GarblerError>,
    circ: &Circuit,
    inputs: Seq<Key>,
    count: nat,
    delta: Delta,
    first: u128,
    key: [u8; 16],
    new_cipher: F,
) -> bool {
    if inputs.len() != circ.input_len() {
        r == Err::<EncryptedGateIter<'a, H>, GarblerError>(
            GarblerError::InputLength {
                expected: circ.input_len() as usize,
                actual: inputs.len() as usize,
            },
        )
    } else if circ.and_len() > count {
        r == Err::<EncryptedGateIter<'a, H>, GarblerError>(
            GarblerError::GateCountMismatch {
                expected: count as usize,
                actual: circ.and_len() as usize,
            },
        )
    } else {
        &&& r matches Ok(iter)
        &&& iter.wf()
        &&& iter.generated() == 0
        &&& iter.circuit() == circ
        &&& iter.offset() == delta.block
        &&& iter.first_gid() == first
        &&& iter.start() == with_inputs(key_blocks(inputs), circ.feeds(), Block { bits: 0 })
        &&& iter.hash_fn() == cipher_fn::<H, F>(new_cipher, key)
    }
}

/// A worker responsible for garbling a single circuit.
///
/// Multiple workers can be run in parallel to garble multiple circuits.
pub struct GarblerWorker {
    /// Initial AND gate id of the circuit.
    pub initial_id: u128,
    /// AND gate count to be garbled.
    pub count: usize,
    /// Key for the cipher used to encrypt the gates.
    pub key: [u8; 16],
    /// Global correlation.
    pub delta: Delta,
}

impl GarblerWorker {
    /// Returns an iterator over the encrypted gates of a circuit, consuming
    /// the worker.
    ///
    /// # Arguments
    ///
    /// * `circ` - The circuit to garble.
    /// * `inputs` - The input labels to the circuit.
    /// * `new_cipher` - Makes the cipher of a key.
    pub fn generate<'a, H: Fn(Block, Block) -> Block, F: Fn([u8; 16]) -> H>(
        self,
        circ: &'a Circuit,
        inputs: &[Key],
        new_cipher: &F,
    ) -> (r: Result<EncryptedGateIter<'a, H>, GarblerError>)
        requires
            circ.wf(),
            makes_ciphers::<H, F>(*new_cipher),
            self.initial_id + 2 * circ.and_len() <= u128::MAX,
        ensures
            garbling(
                r,
                circ,
                inputs@,
                self.count as nat,
                self.delta,
                self.initial_id,
                self.key,
                *new_cipher,
            ),
    {
        proof {
            circ.lemma_wf();
        }
        if inputs.len() != circ.input_count() {
            return Err(
                GarblerError::InputLength { expected: circ.input_count(), actual: inputs.len() },
            );
        }
        if circ.and_count() > self.count {
            return Err(
                GarblerError::GateCountMismatch {
                    expected: self.count,
                    actual: circ.and_count(),
                },
            );
        }
        let blocks = Key::as_blocks(inputs);
        let buffer = input_buffer(&blocks, circ.feed_count());
        Ok(EncryptedGateIter::new(self.delta, circ, buffer, self.initial_id, new_cipher(self.key)))
    }

    /// Returns an iterator over batched encrypted gates of a circuit,
    /// consuming the worker.
    ///
    /// # Arguments
    ///
    /// * `circ` - The circuit to garble.
    /// * `inputs` - The input labels to the circuit.
    /// * `new_cipher` - Makes the cipher of a key.
    pub fn generate_batched<'a, H: Fn(Block, Block) -> Block, F: Fn([u8; 16]) -> H>(
        self,
        circ: &'a Circuit,
        inputs: &[Key],
        new_cipher: &F,
    ) -> (r: Result<EncryptedGateBatchIter<'a, H, DEFAULT_BATCH_SIZE>, GarblerError>)
        requires
            circ.wf(),
            makes_ciphers::<H, F>(*new_cipher),
            self.initial_id + 2 * circ.and_len() <= u128::MAX,
        ensures
            garbling(
                unbatched(r),
                circ,
                inputs@,
                self.count as nat,
                self.delta,
                self.initial_id,
                self.key,
                *new_cipher,
            ),
    {
        match self.generate(circ, inputs, new_cipher) {
            Ok(iter) => Ok(EncryptedGateBatchIter { iter }),
            Err(err) => Err(err),
        }
    }
}

/// The buffer of a circuit's labels: the labels of the inputs, then zeros.
pub fn input_buffer(inputs: &Vec<Block>, feed_count: usize) -> (r: Vec<Block>)
    requires
        inputs.len() <= feed_count,
    ensures
        r@ == with_inputs(inputs@, feed_count as nat, Block { bits: 0 }),
{
    let mut buffer: Vec<Block> = vec![Block::zero(); feed_count];
    for i in 0..inputs.len()
        invariant
            inputs.len() <= feed_count,
            buffer.len() == feed_count,
            forall|j: int|
                0 <= j < feed_count ==> buffer@[j] == if j < i {
                    inputs@[j]
                } else {
                    Block { bits: 0 }
                },
    {
        buffer[i] = inputs[i];
    }
    assert(buffer@ =~= with_inputs(inputs@, feed_count as nat, Block { bits: 0 }));
    buffer
}

/// Iterator over encrypted gates of a garbled circuit.
pub struct EncryptedGateIter<'a, H> {
    /// Cipher to use to encrypt the gates.
    cipher: H,
    /// Global offset.
    delta: Delta,
    /// Buffer for the 0-bit labels.
    labels: Vec<Block>,
    /// The circuit.
    circ: &'a Circuit,
    /// Number of gates that are done.
    position: usize,
    /// Current AND gate id.
    gid: u128,
    /// Number of AND gates generated.
    counter: usize,
    /// Whether the entire circuit has been garbled.
    complete: bool,
    /// The labels that the iterator started from.
    init: Ghost<Seq<Block>>,
}

impl<'a, H: Fn(Block, Block) -> Block> EncryptedGateIter<'a, H> {
    /// The circuit.
    pub closed spec fn circuit(&self) -> &Circuit {
        self.circ
    }

    /// The function that the cipher computes.
    pub closed spec fn hash_fn(&self) -> TweakFn {
        tweak_fn(self.cipher)
    }

    /// The global offset.
    pub closed spec fn offset(&self) -> Block {
        self.delta.block
    }

    /// The labels that the iterator started from.
    pub closed spec fn start(&self) -> Seq<Block> {
        self.init@
    }

    /// The id of the first AND gate.
    pub closed spec fn first_gid(&self) -> int {
        self.gid - 2 * self.counter
    }

    /// The number of AND gates generated.
    pub closed spec fn generated(&self) -> nat {
        self.counter as nat
    }

    /// All encrypted gates of the circuit.
    pub open spec fn table(&self) -> Seq<EncryptedGate> {
        garbled_table(
            self.hash_fn(),
            self.offset(),
            self.circuit().gate_seq(),
            self.start(),
            self.first_gid(),
            self.circuit().gate_seq().len() as int,
        )
    }

    /// The zero labels of all wires.
    pub open spec fn labels_at_end(&self) -> Seq<Block> {
        garbled_labels(
            self.hash_fn(),
            self.offset(),
            self.circuit().gate_seq(),
            self.start(),
            self.first_gid(),
            self.circuit().gate_seq().len() as int,
        )
    }

    /// The two iterators garble the same circuit in the same way.
    pub open spec fn same_job(&self, other: &Self) -> bool {
        &&& self.circuit() == other.circuit()
        &&& self.hash_fn() == other.hash_fn()
        &&& self.offset() == other.offset()
        &&& self.start() == other.start()
        &&& self.first_gid() == other.first_gid()
    }

    /// What every iterator satisfies.
    pub closed spec fn wf(&self) -> bool {
        let gates = self.circ.gate_seq();
        &&& self.circ.wf()
        &&& is_tweak_hash(self.cipher)
        &&& self.position <= gates.len()
        &&& self.counter == ands(gates, self.position as int)
        &&& self.gid >= 2 * self.counter
        &&& self.first_gid() + 2 * self.circ.and_len() <= u128::MAX
        &&& self.init@.len() == self.circ.feeds()
        &&& self.labels.len() == self.circ.feeds()
        &&& self.labels@ == garbled_labels(
            tweak_fn(self.cipher),
            self.delta.block,
            gates,
            self.init@,
            self.first_gid(),
            self.position as int,
        )
        &&& self.complete ==> self.position == gates.len()
    }

    /// The number of gates that are left to do.
    pub closed spec fn gates_left(&self) -> int {
        self.circ.gate_seq().len() - self.position
    }

    fn new(delta: Delta, circ: &'a Circuit, labels: Vec<Block>, gid: u128, cipher: H) -> (r: Self)
        requires
            circ.wf(),
            is_tweak_hash(cipher),
            labels.len() == circ.feeds(),
            gid + 2 * circ.and_len() <= u128::MAX,
        ensures
            r.wf(),
            r.generated() == 0,
            r.circuit() == circ,
            r.hash_fn() == tweak_fn(cipher),
            r.offset() == delta.block,
            r.first_gid() == gid,
            r.start() == labels@,
    {
        let ghost init = labels@;
        EncryptedGateIter {
            cipher,
            delta,
            labels,
            circ,
            position: 0,
            gid,
            counter: 0,
            complete: false,
            init: Ghost(init),
        }
    }

    /// Returns `true` if the garbler has more encrypted gates to generate.
    pub fn has_gates(&self) -> (r: bool)
        requires
            self.wf(),
        ensures
            r == (self.generated() != self.circuit().and_len()),
            self.generated() <= self.circuit().and_len(),
    {
        proof {
            lemma_ands_bound(
                self.circ.gate_seq(),
                self.position as int,
                self.circ.gate_seq().len() as int,
            );
        }
        self.counter != self.circ.and_count()
    }

    /// Generates the next encrypted gate.
    pub fn next(&mut self) -> (r: Option<EncryptedGate>)
        requires
            old(self).wf(),
        ensures
            final(self).wf(),
            final(self).same_job(old(self)),
            old(self).generated() <= old(self).circuit().and_len(),
            if old(self).generated() < old(self).circuit().and_len() {
                &&& r == Some(old(self).table()[old(self).generated() as int])
                &&& final(self).generated() == old(self).generated() + 1
            } else {
                &&& r is None
                &&& final(self).generated() == old(self).generated()
                &&& final(self).gates_left() == 0
            },
        decreases old(self).gates_left(),
    {
        let ghost gates = self.circ.gate_seq();
        let ghost h = tweak_fn(self.cipher);
        let ghost first = self.first_gid();
        let ghost count = self.counter as int;
        let ghost len = gates.len() as int;
        proof {
            self.circ.lemma_wf();
            lemma_ands_bound(gates, self.position as int, len);
        }
        while self.position < self.circ.gates().len()
            invariant
                self.wf(),
                self.same_job(old(self)),
                self.circ == old(self).circ,
                self.cipher == old(self).cipher,
                self.delta == old(self).delta,
                self.init == old(self).init,
                self.counter == old(self).counter,
                gates == self.circ.gate_seq(),
                len == gates.len(),
                h == tweak_fn(self.cipher),
                first == self.first_gid(),
                old(self).position <= self.position,
                count == self.counter,
                count <= ands(gates, len),
            decreases self.circ.gate_seq().len() - self.position,
        {
            proof {
                self.circ.lemma_wf();
                lemma_ands_bound(gates, self.position + 1, len);
                assert(crate::circuit::gate_ok(
                    self.circ.input_len(),
                    self.circ.feeds(),
                    gates,
                    self.position as int,
                ));
            }
            let gate = self.circ.gates()[self.position];
            match gate {
                Gate::Xor { x, y, z } => {
                    let label = self.labels[x] ^ self.labels[y];
                    self.labels[z] = label;
                    self.position = self.position + 1;
                },
                Gate::And { x, y, z } => {
                    let x_0 = self.labels[x];
                    let y_0 = self.labels[y];
                    let (z_0, encrypted_gate) = and_gate(
                        &self.cipher,
                        &x_0,
                        &y_0,
                        &self.delta,
                        self.gid,
                    );
                    self.labels[z] = z_0;
                    self.position = self.position + 1;

                    self.gid = self.gid + 2;
                    self.counter = self.counter + 1;
                    proof {
                        lemma_table(
                            h,
                            self.delta.block,
                            gates,
                            self.init@,
                            first,
                            self.position as int,
                            len,
                        );
                        assert(encrypted_gate == garbled_table(
                            h,
                            self.delta.block,
                            gates,
                            self.init@,
                            first,
                            self.position as int,
                        )[count]) by {
                            lemma_table(
                                h,
                                self.delta.block,
                                gates,
                                self.init@,
                                first,
                                self.position - 1,
                                self.position as int,
                            );
                        }
                    }

                    // If we have generated all AND gates, we can compute
                    // the rest of the "free" gates.
                    if !self.has_gates() {
                        let _ = self.next();
                        self.complete = true;
                    }
                    return Some(encrypted_gate);
                },
                Gate::Inv { x, z } => {
                    let label = self.labels[x] ^ *self.delta.as_block();
                    self.labels[z] = label;
                    self.position = self.position + 1;
                },
                Gate::Id { x, z } => {
                    let label = self.labels[x];
                    self.labels[z] = label;
                    self.position = self.position + 1;
                },
            }
        }
        None
    }

    /// Returns the encoded outputs of the circuit.
    pub fn finish(self) -> (r: Result<GarblerOutput, GarblerError>)
        requires
            self.wf(),
        ensures
            if self.generated() != self.circuit().and_len() {
                r == Err::<GarblerOutput, GarblerError>(GarblerError::NotFinished)
            } else {
                &&& r matches Ok(output)
                &&& key_blocks(output.outputs@) == self.labels_at_end().subrange(
                    self.circuit().out_start(),
                    self.circuit().out_end(),
                )
            },
    {
        let mut this = self;
        if this.has_gates() {
            return Err(GarblerError::NotFinished);
        }
        // Finish computing any "free" gates.

        if !this.complete {
            let _ = this.next();
        }
        proof {
            this.circ.lemma_wf();
        }
        let outputs = output_range(&this.labels, this.circ);
        Ok(GarblerOutput { outputs: Key::from_blocks(outputs) })
    }
}

/// Iterator returned by [`Garbler::generate_batched`].
pub struct EncryptedGateBatchIter<'a, H, const N: usize> {
    /// The iterator over single gates.
    pub iter: EncryptedGateIter<'a, H>,
}

impl<'a, H: Fn(Block, Block) -> Block, const N: usize> EncryptedGateBatchIter<'a, H, N> {
    /// Returns `true` if the garbler has more encrypted gates to generate.
    pub fn has_gates(&self) -> (r: bool)
        requires
            self.iter.wf(),
        ensures
            r == (self.iter.generated() != self.iter.circuit().and_len()),
            self.iter.generated() <= self.iter.circuit().and_len(),
    {
        self.iter.has_gates()
    }

    /// Returns the encoded outputs of the circuit.
    pub fn finish(self) -> (r: Result<GarblerOutput, GarblerError>)
        requires
            self.iter.wf(),
        ensures
            if self.iter.generated() != self.iter.circuit().and_len() {
                r == Err::<GarblerOutput, GarblerError>(GarblerError::NotFinished)
            } else {
                &&& r matches Ok(output)
                &&& key_blocks(output.outputs@) == self.iter.labels_at_end().subrange(
                    self.iter.circuit().out_start(),
                    self.iter.circuit().out_end(),
                )
            },
    {
        self.iter.finish()
    }

    /// Generates the next batch of encrypted gates; zeros pad the last one.
    pub fn next(&mut self) -> (r: Option<EncryptedGateBatch<N>>)
        requires
            N > 0,
            old(self).iter.wf(),
        ensures
            final(self).iter.wf(),
            final(self).iter.same_job(&old(self).iter),
            ({
                let count = old(self).iter.circuit().and_len();
                let done = old(self).iter.generated();
                if done < count {
                    &&& r matches Some(batch)
                    &&& batch.gates@ == batch_of(old(self).iter.table(), done, N as nat)
                    &&& final(self).iter.generated() == if done + N < count {
                        done + N
                    } else {
                        count as int
                    }
                } else {
                    &&& r is None
                    &&& *final(self) == *old(self)
                }
            }),
    {
        if !self.has_gates() {
            return None;
        }
        let mut batch = [EncryptedGate::default();N];
        let ghost table = self.iter.table();
        let ghost count = self.iter.circuit().and_len();
        let ghost done = self.iter.generated();
        proof {
            lemma_table(
                self.iter.hash_fn(),
                self.iter.offset(),
                self.iter.circuit().gate_seq(),
                self.iter.start(),
                self.iter.first_gid(),
                0,
                self.iter.circuit().gate_seq().len() as int,
            );
        }
        let mut i: usize = 0;
        while i < N && self.iter.has_gates()
            invariant
                self.iter.wf(),
                self.iter.same_job(&old(self).iter),
                table == old(self).iter.table(),
                count == old(self).iter.circuit().and_len(),
                table.len() == count,
                i <= N,
                self.iter.generated() == done + i,
                done + i <= count,
                forall|j: int|
                    0 <= j < N ==> batch@[j] == if j < i {
                        table[done + j]
                    } else {
                        empty_gate()
                    },
            decreases N - i,
        {
            match self.iter.next() {
                Some(gate) => {
                    batch[i] = gate;
                },
                None => {},
            }
            i = i + 1;
        }
        assert(batch@ =~= batch_of(table, done, N as nat));
        Some(EncryptedGateBatch::new(batch))
    }
}

/// The `n` gates of a table from `start` on, with zeros behind the end.
pub open spec fn batch_of(table: Seq<EncryptedGate>, start: nat, n: nat) -> Seq<EncryptedGate> {
    Seq::new(
        n,
        |i: int|
            if start + i < table.len() {
                table[start + i]
            } else {
                empty_gate()
            },
    )
}

} // verus!
