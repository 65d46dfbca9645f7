//! A garbler that reuses the buffer slots of dead wires.
//!
//! Most wires of a circuit are read for the last time soon after they are driven. A buffer with a
//! slot for each live wire is much smaller than one with a slot for each wire.

use vstd::prelude::*;
use vstd::set_lib::{lemma_int_range, lemma_len_subset, set_int_range};

use crate::block::Block;
use crate::circuit::{
    ands, driven, empty_gate, gate_ok, lemma_ands_bound, Circuit, EncryptedGate, EncryptedGateBatch,
    Gate,
};
use crate::correlated::{key_blocks, Delta, Key};
use crate::half_gates::garbler::{and_gate, batch_of, garbled_and, gate_id};
use crate::half_gates::remap_laws::{lemma_most_used, lemma_slots_apart};
use crate::hash::{is_tweak_hash, tweak_fn, TweakFn};
use crate::DEFAULT_BATCH_SIZE;

verus! {

/// The last of the first `n` gates that reads the wire, if any does.
pub open spec fn last_read(gates: Seq<Gate>, wire: int, n: int) -> Option<int>
    decreases n,
{
    if n <= 0 {
        None
    } else if gates[n - 1].reads(wire) {
        Some(n - 1)
    } else {
        last_read(gates, wire, n - 1)
    }
}

/// The wire is an output, which is needed once all gates are done.
pub open spec fn is_output(circ: &Circuit, wire: int) -> bool {
    circ.out_start() <= wire < circ.out_end()
}

/// Gate `i` is the last use of the wire: it is the last one that reads the wire, which is no output.
pub open spec fn dies_at(circ: &Circuit, wire: int, i: int) -> bool {
    !is_output(circ, wire) && last_read(circ.gate_seq(), wire, circ.gate_seq().len() as int)
        == Some(i)
}

/// The wire holds its slot when gate `n` comes up, or at the end: it is driven, and it is an
/// output, or gate `n` or a later one reads it, or it has no use at which its slot could become
/// free.
pub open spec fn in_use(circ: &Circuit, n: int, wire: int) -> bool {
    let gates = circ.gate_seq();
    &&& 0 <= wire < circ.feeds()
    &&& driven(circ.input_len(), gates, n, wire)
    &&& {
        ||| is_output(circ, wire)
        ||| exists|i: int| n <= i < gates.len() && (#[trigger] gates[i]).reads(wire)
        ||| forall|i: int| 0 <= i < gates.len() ==> !(#[trigger] gates[i]).reads(wire)
    }
}

/// The wires that hold a slot at once while gate `n` is computed: those in use, and its result.
pub open spec fn used_together(circ: &Circuit, n: int) -> Set<int> {
    Set::new(|w: int| in_use(circ, n, w)).insert(circ.gate_seq()[n].out())
}

/// The number of wires that hold a slot at once is largest with `count`.
pub open spec fn is_most_used(circ: &Circuit, count: nat) -> bool {
    &&& circ.input_len() <= count
    &&& forall|n: int|
        0 <= n < circ.gate_seq().len() ==> (#[trigger] used_together(circ, n)).finite()
            && used_together(circ, n).len() <= count
    &&& count == circ.input_len() || exists|n: int|
        0 <= n < circ.gate_seq().len() && (#[trigger] used_together(circ, n)).len() == count
}

/// The state of slot assignment: the slot of each wire, the stack of free slots and the number of
/// slots in use so far.
pub struct Slots {
    /// The slot of each wire; `usize::MAX` for one that nothing drives.
    pub map: Seq<usize>,
    /// Slots of dead wires, the next one to be reused last.
    pub free: Seq<usize>,
    /// Number of slots.
    pub count: nat,
}

/// The slots after the first `n` gates of a circuit.
///
/// The inputs take the first slots. A gate's result takes the free slot on top of the stack, or a
/// new one, and then the slots of those operands become free that are not used later.
pub open spec fn slots_after(circ: &Circuit, n: int) -> Slots
    decreases n,
{
    let inputs = circ.input_len();
    if n <= 0 {
        Slots {
            map: Seq::new(
                circ.feeds(),
                |w: int|
                    if w < inputs {
                        w as usize
                    } else {
                        usize::MAX
                    },
            ),
            free: Seq::empty(),
            count: inputs,
        }
    } else {
        let s = slots_after(circ, n - 1);
        let gate = circ.gate_seq()[n - 1];
        let t = if s.free.len() > 0 {
            Slots {
                map: s.map.update(gate.out(), s.free.last()),
                free: s.free.drop_last(),
                count: s.count,
            }
        } else {
            Slots {
                map: s.map.update(gate.out(), s.count as usize),
                free: s.free,
                count: s.count + 1,
            }
        };
        let first = freed(circ, gate.left(), n - 1, t);
        if gate.right() != gate.left() {
            freed(circ, gate.right(), n - 1, first)
        } else {
            first
        }
    }
}

/// The slots once the wire's slot is free, if gate `i` is the last use of the wire.
pub open spec fn freed(circ: &Circuit, wire: int, i: int, s: Slots) -> Slots {
    if dies_at(circ, wire, i) {
        Slots { map: s.map, free: s.free.push(s.map[wire]), count: s.count }
    } else {
        s
    }
}

/// Wire-to-slot remapping for cache-optimized garbling.
///
/// Maps logical wire IDs to physical buffer slot IDs, allowing slot reuse
/// when wires become dead (no longer needed by any future gate).
#[derive(Debug)]
pub struct WireRemapping {
    /// Maps wire_id -> slot_id
    slot_map: Vec<usize>,
    /// Number of slots needed (most wires that hold a slot at once)
    num_slots: usize,
    /// Number of input wires
    inputs: usize,
    /// First output wire of the circuit
    output_start: usize,
    /// One past the last output wire
    output_end: usize,
}

impl WireRemapping {
    /// The slot of each wire.
    pub closed spec fn slot_seq(&self) -> Seq<usize> {
        self.slot_map@
    }

    /// The number of slots.
    pub closed spec fn slot_count(&self) -> nat {
        self.num_slots as nat
    }

    /// The number of inputs.
    pub closed spec fn input_len(&self) -> nat {
        self.inputs as nat
    }

    /// The first output.
    pub closed spec fn out_start(&self) -> int {
        self.output_start as int
    }

    /// One past the last output.
    pub closed spec fn out_end(&self) -> int {
        self.output_end as int
    }

    /// Every wire that the circuit drives has one of the slots.
    pub open spec fn fits(&self, circ: &Circuit) -> bool {
        &&& self.slot_seq().len() == circ.feeds()
        &&& forall|w: int|
            0 <= w < circ.feeds() && #[trigger] driven(
                circ.input_len(),
                circ.gate_seq(),
                circ.gate_seq().len() as int,
                w,
            ) ==> self.slot_seq()[w] < self.slot_count()
    }

    /// Compute wire remapping for a circuit.
    ///
    /// This analyzes wire liveness and assigns slot IDs that get recycled
    /// when wires die. The result can be cached and reused for multiple
    /// garbling operations on the same circuit.
    ///
    /// Wires that are in use together have different slots, and the result of a gate takes none of
    /// a wire in use. A wire that nothing reads keeps its slot.
    pub fn compute(circuit: &Circuit) -> (r: WireRemapping)
        requires
            circuit.wf(),
        ensures
            r.slot_seq() == slots_after(circuit, circuit.gate_seq().len() as int).map,
            r.slot_count() == slots_after(circuit, circuit.gate_seq().len() as int).count,
            forall|n: int, v: int, w: int|
                0 <= n <= circuit.gate_seq().len() && #[trigger] in_use(circuit, n, v)
                    && #[trigger] in_use(circuit, n, w) && v != w ==> r.slot_seq()[v]
                    != r.slot_seq()[w],
            forall|n: int, w: int|
                0 <= n < circuit.gate_seq().len() && #[trigger] in_use(circuit, n, w)
                    ==> r.slot_seq()[circuit.gate_seq()[n].out()] != r.slot_seq()[w],
            is_most_used(circuit, r.slot_count()),
            r.input_len() == circuit.input_len(),
            r.out_start() == circuit.out_start(),
            r.out_end() == circuit.out_end(),
            r.fits(circuit),
    {
        proof {
            circuit.lemma_wf();
        }
        let ghost feeds = circuit.feeds();
        let feed_count: usize = circuit.feed_count();
        let gates = circuit.gates();
        let inputs = circuit.inputs();
        let outputs = circuit.outputs();

        // Step 1: Find last use of each wire
        let mut last_use: Vec<Option<usize>> = vec![None; feed_count];

        // Scan gates to find last use of each wire
        for gate_idx in 0..gates.len()
            invariant
                feed_count == last_use.len() == feeds,
                circuit.wf(),
                feeds == circuit.feeds(),
                gates@ == circuit.gate_seq(),
                forall|w: int|
                    0 <= w < feed_count ==> match last_read(gates@, w, gate_idx as int) {
                        Some(i) => #[trigger] last_use@[w] matches Some(u) && u == i,
                        None => last_use@[w] is None,
                    },
        {
            proof {
                circuit.lemma_wf();
                assert(gate_ok(circuit.input_len(), feeds, gates@, gate_idx as int));
            }
            let (x, y) = gates[gate_idx].operands();
            last_use[x] = Some(gate_idx);
            last_use[y] = Some(gate_idx);
        }

        // Outputs are "used" at the very end (after all gates)
        for wire_id in outputs.start..outputs.end
            invariant
                outputs.end <= feed_count == last_use.len(),
                gates@ == circuit.gate_seq(),
                forall|w: int|
                    0 <= w < feed_count ==> if outputs.start <= w < wire_id {
                        #[trigger] last_use@[w] == Some(gates.len())
                    } else {
                        match last_read(gates@, w, gates@.len() as int) {
                            Some(i) => last_use@[w] matches Some(u) && u == i,
                            None => last_use@[w] is None,
                        }
                    },
        {
            last_use[wire_id] = Some(gates.len());
        }
        proof {
            assert forall|w: int, i: int|
                0 <= w < feed_count && 0 <= i < gates.len() implies (last_use@[w] == Some(
                i as usize,
            )) == #[trigger] dies_at(circuit, w, i) by {
                lemma_last_read_bound(gates@, w, gates@.len() as int);
                let u = last_use@[w];
            }
        }

        // Step 2: Assign slots using a free list
        let mut slot_map: Vec<usize> = vec![usize::MAX; feed_count];
        let mut free_slots: Vec<usize> = Vec::new();
        let mut next_slot: usize = 0;

        // Allocate slots for input wires
        for wire_id in inputs.start..inputs.end
            invariant
                inputs.start == 0,
                inputs.end <= feed_count == slot_map.len(),
                next_slot == wire_id,
                free_slots.len() == 0,
                forall|w: int|
                    0 <= w < feed_count ==> #[trigger] slot_map@[w] == if w < wire_id {
                        w as usize
                    } else {
                        usize::MAX
                    },
        {
            let slot: usize = match free_slots.pop() {
                Some(s) => s,
                None => {
                    let s: usize = next_slot;
                    next_slot = next_slot + 1;
                    s
                },
            };
            slot_map[wire_id] = slot;
        }
        proof {
            let s = slots_after(circuit, 0);
            assert(slot_map@ =~= s.map);
            assert(free_slots@ =~= s.free);
            lemma_slots(circuit, 0);
        }

        // Process gates, allocating and freeing slots
        for gate_idx in 0..gates.len()
            invariant
                circuit.wf(),
                gates@ == circuit.gate_seq(),
                feeds == circuit.feeds(),
                feed_count == last_use.len() == feeds,
                ({
                    let s = slots_after(circuit, gate_idx as int);
                    &&& slot_map@ == s.map
                    &&& free_slots@ == s.free
                    &&& next_slot == s.count
                }),
                forall|w: int, i: int|
                    0 <= w < feed_count && 0 <= i < gates.len() ==> (last_use@[w] == Some(
                        i as usize,
                    )) == #[trigger] dies_at(circuit, w, i),
        {
            proof {
                circuit.lemma_wf();
                assert(gate_ok(circuit.input_len(), feeds, gates@, gate_idx as int));
                lemma_slots(circuit, gate_idx as int);
                lemma_slots(circuit, gate_idx + 1);
            }
            let gate = gates[gate_idx];
            let (x, y) = gate.operands();

            // Allocate slot for output wire
            let z_id: usize = gate.z();
            let slot: usize = match free_slots.pop() {
                Some(s) => s,
                None => {
                    let s: usize = next_slot;
                    next_slot = next_slot + 1;
                    s
                },
            };
            slot_map[z_id] = slot;

            // Free slots for wires whose last use was this gate
            assert((last_use@[x as int] == Some(gate_idx)) == dies_at(
                circuit,
                x as int,
                gate_idx as int,
            ));
            assert((last_use@[y as int] == Some(gate_idx)) == dies_at(
                circuit,
                y as int,
                gate_idx as int,
            ));
            if last_use[x] == Some(gate_idx) {
                free_slots.push(slot_map[x]);
            }
            if y != x && last_use[y] == Some(gate_idx) {
                free_slots.push(slot_map[y]);
            }
        }
        proof {
            lemma_slots(circuit, gates@.len() as int);
            lemma_slots_apart(circuit);
            lemma_most_used(circuit);
        }

        // num_slots is the total distinct slots ever allocated
        // This equals next_slot since slot IDs are 0..next_slot-1
        WireRemapping {
            slot_map,
            num_slots: next_slot,
            inputs: inputs.end,
            output_start: outputs.start,
            output_end: outputs.end,
        }
    }

    /// Returns the number of slots needed.
    pub fn num_slots(&self) -> (r: usize)
        ensures
            r == self.slot_count(),
    {
        self.num_slots
    }

    /// Returns the slot ID for a wire.
    pub fn slot(&self, wire_id: usize) -> (r: usize)
        requires
            wire_id < self.slot_seq().len(),
        ensures
            r == self.slot_seq()[wire_id as int],
    {
        self.slot_map[wire_id]
    }

    /// Returns the input wire range.
    pub fn inputs(&self) -> (r: std::ops::Range<usize>)
        ensures
            r.start == 0,
            r.end == self.input_len(),
    {
        0..self.inputs
    }

    /// Returns the output wire range.
    pub fn outputs(&self) -> (r: std::ops::Range<usize>)
        ensures
            r.start == self.out_start(),
            r.end == self.out_end(),
    {
        self.output_start..self.output_end
    }
}

/// What reads a wire last is among those that were looked at, and it reads the wire.
pub proof fn lemma_last_read_bound(gates: Seq<Gate>, wire: int, n: int)
    requires
        n <= gates.len(),
    ensures
        last_read(gates, wire, n) matches Some(i) ==> 0 <= i < n && gates[i].reads(wire),
        forall|i: int|
            0 <= i < n && (#[trigger] gates[i]).reads(wire) ==> (last_read(
                gates,
                wire,
                n,
            ) matches Some(k) && i <= k),
    decreases n,
{
    if n > 0 {
        lemma_last_read_bound(gates, wire, n - 1);
    }
}

/// The wires that inputs and the first `n` gates drive.
pub(crate) open spec fn driven_set(inputs: nat, gates: Seq<Gate>, n: int) -> Set<int>
    decreases n,
{
    if n <= 0 {
        set_int_range(0, inputs as int)
    } else {
        driven_set(inputs, gates, n - 1).insert(gates[n - 1].out())
    }
}

/// There are at least as many wires as inputs and gates.
pub(crate) proof fn lemma_gate_bound(circ: &Circuit, n: int)
    requires
        circ.wf(),
        0 <= n <= circ.gate_seq().len(),
    ensures
        circ.input_len() + n <= circ.feeds(),
        ({
            let s = driven_set(circ.input_len(), circ.gate_seq(), n);
            &&& s.finite()
            &&& s.len() == circ.input_len() + n
            &&& forall|w: int| #[trigger]
                s.contains(w) <==> driven(circ.input_len(), circ.gate_seq(), n, w)
            &&& s.subset_of(set_int_range(0, circ.feeds() as int))
        }),
    decreases n,
{
    let gates = circ.gate_seq();
    let inputs = circ.input_len();
    circ.lemma_wf();
    lemma_int_range(0, circ.feeds() as int);
    if n == 0 {
        lemma_int_range(0, inputs as int);
    } else {
        lemma_gate_bound(circ, n - 1);
        assert(gate_ok(inputs, circ.feeds(), gates, n - 1));
        let s = driven_set(inputs, gates, n);
        let t = driven_set(inputs, gates, n - 1);
        assert(!t.contains(gates[n - 1].out()));
        assert forall|w: int| #[trigger] s.contains(w) <==> driven(inputs, gates, n, w) by {
            if w == gates[n - 1].out() {
                assert(driven(inputs, gates, n, w));
            } else {
                assert(t.contains(w) <==> driven(inputs, gates, n - 1, w));
                if driven(inputs, gates, n, w) && !(0 <= w < inputs) {
                    let i = choose|i: int| 0 <= i < n && (#[trigger] gates[i]).out() == w;
                    assert(i < n - 1);
                }
            }
        }
    }
    lemma_len_subset(
        driven_set(inputs, gates, n),
        set_int_range(0, circ.feeds() as int),
    );
}

/// The slots of driven wires and the free slots are among those in use, of which there are no more
/// than wires.
pub(crate) proof fn lemma_slots(circ: &Circuit, n: int)
    requires
        circ.wf(),
        0 <= n <= circ.gate_seq().len(),
    ensures
        ({
            let s = slots_after(circ, n);
            &&& s.map.len() == circ.feeds()
            &&& s.count <= circ.input_len() + n
            &&& s.count <= usize::MAX
            &&& forall|k: int| 0 <= k < s.free.len() ==> #[trigger] s.free[k] < s.count
            &&& forall|w: int|
                0 <= w < circ.feeds() && #[trigger] driven(
                    circ.input_len(),
                    circ.gate_seq(),
                    n,
                    w,
                ) ==> s.map[w] < s.count
        }),
    decreases n,
{
    let gates = circ.gate_seq();
    let inputs = circ.input_len();
    circ.lemma_wf();
    lemma_gate_bound(circ, n);
    if n > 0 {
        lemma_slots(circ, n - 1);
        let s = slots_after(circ, n - 1);
        let t = slots_after(circ, n);
        let gate = gates[n - 1];
        assert(gate_ok(inputs, circ.feeds(), gates, n - 1));
        assert(driven(inputs, gates, n - 1, gate.left()));
        assert(driven(inputs, gates, n - 1, gate.right()));
        assert forall|w: int| 0 <= w < circ.feeds() && #[trigger] driven(
            inputs,
            gates,
            n,
            w,
        ) implies t.map[w] < t.count by {
            if w != gate.out() {
                if !(0 <= w < inputs) {
                    let i = choose|i: int| 0 <= i < n && (#[trigger] gates[i]).out() == w;
                    assert(i < n - 1);
                }
                assert(driven(inputs, gates, n - 1, w));
            }
        }
    }
}

/// Errors that can occur during garbled circuit generation.
#[derive(Clone, Copy, Debug, PartialEq, Eq, Structural)]
pub enum RemappedGarblerError {
    /// The number of input labels is not that of the inputs.
    InputLength {
        /// The number of inputs of the circuit.
        expected: usize,
        /// The number of labels.
        actual: usize,
    },
    /// There are AND gates left to garble.
    NotFinished,
}

/// Output of the remapped garbler.
#[derive(Debug)]
pub struct RemappedGarblerOutput {
    /// Output keys of the circuit.
    pub outputs: Vec<Key>,
}

/// The id of the first AND gate.
pub const FIRST_GID: u128 = 1;

/// The buffer once the first `n` labels are stored in the slots of the first `n` wires.
pub open spec fn stored(buffer: Seq<Block>, slots: Seq<usize>, labels: Seq<Block>, n: int) -> Seq<
    Block,
>
    decreases n,
{
    if n <= 0 {
        buffer
    } else {
        stored(buffer, slots, labels, n - 1).update(slots[n - 1] as int, labels[n - 1])
    }
}

/// The buffer after the first `n` gates: the labels of the wires, each in its slot.
pub open spec fn remapped_labels(
    h: TweakFn,
    delta: Block,
    gates: Seq<Gate>,
    slots: Seq<usize>,
    init: Seq<Block>,
    n: int,
) -> Seq<Block>
    decreases n,
{
    if n <= 0 {
        init
    } else {
        let l = remapped_labels(h, delta, gates, slots, init, n - 1);
        let gate = gates[n - 1];
        let x = l[slots[gate.left()] as int];
        let y = l[slots[gate.right()] as int];
        let label = match gate {
            Gate::Xor { .. } => x.xor(y),
            Gate::And { .. } => garbled_and(
                h,
                x,
                y,
                delta,
                gate_id(gates, FIRST_GID as int, n - 1),
            ).0,
            Gate::Inv { .. } => x.xor(delta),
            Gate::Id { .. } => x,
        };
        l.update(slots[gate.out()] as int, label)
    }
}

/// The encrypted gates that stand for the AND gates among the first `n` gates.
pub open spec fn remapped_table(
    h: TweakFn,
    delta: Block,
    gates: Seq<Gate>,
    slots: Seq<usize>,
    init: Seq<Block>,
    n: int,
) -> Seq<EncryptedGate>
    decreases n,
{
    if n <= 0 {
        Seq::empty()
    } else {
        let table = remapped_table(h, delta, gates, slots, init, n - 1);
        let l = remapped_labels(h, delta, gates, slots, init, n - 1);
        let gate = gates[n - 1];
        if gate is And {
            table.push(
                garbled_and(
                    h,
                    l[slots[gate.left()] as int],
                    l[slots[gate.right()] as int],
                    delta,
                    gate_id(gates, FIRST_GID as int, n - 1),
                ).1,
            )
        } else {
            table
        }
    }
}

/// A table has one entry for each AND gate, and more gates only add entries.
pub proof fn lemma_remapped_table(
    h: TweakFn,
    delta: Block,
    gates: Seq<Gate>,
    slots: Seq<usize>,
    init: Seq<Block>,
    n: int,
    m: int,
)
    requires
        0 <= n <= m,
    ensures
        remapped_table(h, delta, gates, slots, init, n).len() == ands(gates, n),
        remapped_table(h, delta, gates, slots, init, m).len() == ands(gates, m),
        ands(gates, n) <= ands(gates, m),
        forall|i: int|
            0 <= i < ands(gates, n) ==> remapped_table(h, delta, gates, slots, init, m)[i]
                == remapped_table(h, delta, gates, slots, init, n)[i],
    decreases m,
{
    if n < m {
        lemma_remapped_table(h, delta, gates, slots, init, n, m - 1);
    } else if n > 0 {
        lemma_remapped_table(h, delta, gates, slots, init, n - 1, n - 1);
    }
}

/// Cache-optimized garbler using wire remapping.
///
/// Uses a smaller label buffer by recycling slots for dead wires.
#[derive(Debug)]
pub struct RemappedGarbler {
    /// Wire remapping
    remapping: WireRemapping,
    /// Buffer for the 0-bit labels (sized to num_slots, not feed_count)
    buffer: Vec<Block>,
}

impl RemappedGarbler {
    /// The wire remapping.
    pub closed spec fn map(&self) -> WireRemapping {
        self.remapping
    }

    /// What the buffer holds.
    pub closed spec fn slots(&self) -> Seq<Block> {
        self.buffer@
    }

    /// The buffer has a place for each slot.
    pub open spec fn wf(&self) -> bool {
        self.slots().len() == self.map().slot_count()
    }

    /// Create a new remapped garbler with the given wire remapping.
    pub fn new(remapping: WireRemapping) -> (r: RemappedGarbler)
        ensures
            r.wf(),
            r.map() == remapping,
            r.slots() == Seq::new(remapping.slot_count(), |i: int| Block { bits: 0 }),
    {
        let buffer: Vec<Block> = vec![Block::zero(); remapping.num_slots()];
        assert(buffer@ =~= Seq::new(remapping.slot_count(), |i: int| Block { bits: 0 }));
        RemappedGarbler { remapping, buffer }
    }

    /// Returns an iterator over the encrypted gates of a circuit.
    pub fn generate<'a, H: Fn(Block, Block) -> Block>(
        &'a self,
        circ: &'a Circuit,
        delta: Delta,
        inputs: &[Key],
        cipher: &'a H,
    ) -> (r: Result<RemappedEncryptedGateIter<'a, H>, RemappedGarblerError>)
        requires
            self.wf(),
            circ.wf(),
            self.map().fits(circ),
            is_tweak_hash(*cipher),
        ensures
            if inputs.len() != circ.input_len() {
                r == Err::<RemappedEncryptedGateIter<'a, H>, RemappedGarblerError>(
                    RemappedGarblerError::InputLength {
                        expected: circ.input_len() as usize,
                        actual: inputs.len(),
                    },
                )
            } else {
                &&& r matches Ok(iter)
                &&& iter.wf()
                &&& iter.generated() == 0
                &&& iter.circuit() == circ
                &&& iter.offset() == delta.block
                &&& iter.hash_fn() == tweak_fn(*cipher)
                &&& iter.slot_seq() == self.map().slot_seq()
                &&& iter.start() == stored(
                    self.slots(),
                    self.map().slot_seq(),
                    key_blocks(inputs@),
                    inputs.len() as int,
                )
            },
    {
        proof {
            circ.lemma_wf();
        }
        if inputs.len() != circ.input_count() {
            return Err(
                RemappedGarblerError::InputLength {
                    expected: circ.input_count(),
                    actual: inputs.len(),
                },
            );
        }
        let mut labels = self.buffer.clone();
        assert(labels@ =~= self.buffer@);
        // Initialize input labels using remapped slots
        for i in 0..inputs.len()
            invariant
                inputs.len() == circ.input_len(),
                circ.input_len() <= circ.feeds(),
                self.remapping.fits(circ),
                self.wf(),
                labels.len() == self.buffer.len(),
                labels@ == stored(
                    self.buffer@,
                    self.remapping.slot_seq(),
                    key_blocks(inputs@),
                    i as int,
                ),
        {
            assert(driven(
                circ.input_len(),
                circ.gate_seq(),
                circ.gate_seq().len() as int,
                i as int,
            ));
            let slot: usize = self.remapping.slot(i);
            labels[slot] = *inputs[i].as_block();
        }
        Ok(
            RemappedEncryptedGateIter::new(&self.remapping, delta, circ, labels, cipher),
        )
    }

    /// Returns an iterator over batched encrypted gates of a circuit.
    pub fn generate_batched<'a, H: Fn(Block, Block) -> Block>(
        &'a self,
        circ: &'a Circuit,
        delta: Delta,
        inputs: &[Key],
        cipher: &'a H,
    ) -> (r: Result<
        RemappedEncryptedGateBatchIter<'a, H, DEFAULT_BATCH_SIZE>,
        RemappedGarblerError,
    >)
        requires
            self.wf(),
            circ.wf(),
            self.map().fits(circ),
            is_tweak_hash(*cipher),
        ensures
            if inputs.len() != circ.input_len() {
                r == Err::<
                    RemappedEncryptedGateBatchIter<'a, H, DEFAULT_BATCH_SIZE>,
                    RemappedGarblerError,
                >(
                    RemappedGarblerError::InputLength {
                        expected: circ.input_len() as usize,
                        actual: inputs.len(),
                    },
                )
            } else {
                &&& r matches Ok(batched)
                &&& batched.iter.wf()
                &&& batched.iter.generated() == 0
                &&& batched.iter.circuit() == circ
                &&& batched.iter.offset() == delta.block
                &&& batched.iter.hash_fn() == tweak_fn(*cipher)
                &&& batched.iter.slot_seq() == self.map().slot_seq()
                &&& batched.iter.start() == stored(
                    self.slots(),
                    self.map().slot_seq(),
                    key_blocks(inputs@),
                    inputs.len() as int,
                )
            },
    {
        match self.generate(circ, delta, inputs, cipher) {
            Ok(iter) => Ok(RemappedEncryptedGateBatchIter { iter }),
            Err(err) => Err(err),
        }
    }
}

/// Iterator over encrypted gates using wire remapping.
pub struct RemappedEncryptedGateIter<'a, H> {
    /// Wire remapping
    remapping: &'a WireRemapping,
    /// Cipher to use to encrypt the gates.
    cipher: &'a H,
    /// Global offset.
    delta: Delta,
    /// Buffer for the 0-bit labels (sized to num_slots).
    labels: Vec<Block>,
    /// The circuit.
    circ: &'a Circuit,
    /// Number of gates that are done.
    position: usize,
    /// Current gate id.
    gid: u128,
    /// Number of AND gates generated.
    counter: usize,
    /// Whether the entire circuit has been garbled.
    complete: bool,
    /// What the buffer held at the start.
    init: Ghost<Seq<Block>>,
}

impl<'a, H: Fn(Block, Block) -> Block> RemappedEncryptedGateIter<'a, H> {
    /// The circuit.
    pub closed spec fn circuit(&self) -> &Circuit {
        self.circ
    }

    /// The function that the cipher computes.
    pub closed spec fn hash_fn(&self) -> TweakFn {
        tweak_fn(*self.cipher)
    }

    /// The global offset.
    pub closed spec fn offset(&self) -> Block {
        self.delta.block
    }

    /// The slot of each wire.
    pub closed spec fn slot_seq(&self) -> Seq<usize> {
        self.remapping.slot_seq()
    }

    /// What the buffer held at the start.
    pub closed spec fn start(&self) -> Seq<Block> {
        self.init@
    }

    /// The number of AND gates generated.
    pub closed spec fn generated(&self) -> nat {
        self.counter as nat
    }

    /// The number of gates that are left to do.
    pub closed spec fn gates_left(&self) -> int {
        self.circ.gate_seq().len() - self.position
    }

    /// All encrypted gates of the circuit.
    pub open spec fn table(&self) -> Seq<EncryptedGate> {
        remapped_table(
            self.hash_fn(),
            self.offset(),
            self.circuit().gate_seq(),
            self.slot_seq(),
            self.start(),
            self.circuit().gate_seq().len() as int,
        )
    }

    /// The buffer once all gates are done.
    pub open spec fn buffer_at_end(&self) -> Seq<Block> {
        remapped_labels(
            self.hash_fn(),
            self.offset(),
            self.circuit().gate_seq(),
            self.slot_seq(),
            self.start(),
            self.circuit().gate_seq().len() as int,
        )
    }

    /// The labels of the outputs once all gates are done.
    pub open spec fn output_labels(&self) -> Seq<Block> {
        Seq::new(
            self.circuit().output_len(),
            |i: int| self.buffer_at_end()[self.slot_seq()[self.circuit().out_start() + i] as int],
        )
    }

    /// The two iterators garble the same circuit in the same way.
    pub open spec fn same_job(&self, other: &Self) -> bool {
        &&& self.circuit() == other.circuit()
        &&& self.hash_fn() == other.hash_fn()
        &&& self.offset() == other.offset()
        &&& self.slot_seq() == other.slot_seq()
        &&& self.start() == other.start()
    }

    /// What every iterator satisfies.
    pub closed spec fn wf(&self) -> bool {
        let gates = self.circ.gate_seq();
        &&& self.circ.wf()
        &&& self.remapping.fits(self.circ)
        &&& is_tweak_hash(*self.cipher)
        &&& self.position <= gates.len()
        &&& self.counter == ands(gates, self.position as int)
        &&& self.gid == FIRST_GID + 2 * self.counter
        &&& self.init@.len() == self.remapping.slot_count()
        &&& self.labels.len() == self.remapping.slot_count()
        &&& self.labels@ == remapped_labels(
            tweak_fn(*self.cipher),
            self.delta.block,
            gates,
            self.remapping.slot_seq(),
            self.init@,
            self.position as int,
        )
        &&& self.complete ==> self.position == gates.len()
    }

    fn new(
        remapping: &'a WireRemapping,
        delta: Delta,
        circ: &'a Circuit,
        labels: Vec<Block>,
        cipher: &'a H,
    ) -> (r: Self)
        requires
            circ.wf(),
            remapping.fits(circ),
            is_tweak_hash(*cipher),
            labels.len() == remapping.slot_count(),
        ensures
            r.wf(),
            r.generated() == 0,
            r.circuit() == circ,
            r.hash_fn() == tweak_fn(*cipher),
            r.offset() == delta.block,
            r.slot_seq() == remapping.slot_seq(),
            r.start() == labels@,
    {
        let ghost init = labels@;
        RemappedEncryptedGateIter {
            remapping,
            cipher,
            delta,
            labels,
            circ,
            position: 0,
            gid: FIRST_GID,
            counter: 0,
            complete: false,
            init: Ghost(init),
        }
    }

    /// No more gates are generated than the circuit has.
    pub proof fn lemma_generated(&self)
        requires
            self.wf(),
        ensures
            self.generated() <= self.circuit().and_len(),
    {
        lemma_ands_bound(
            self.circ.gate_seq(),
            self.position as int,
            self.circ.gate_seq().len() as int,
        );
    }

    /// Returns `true` if the garbler has more encrypted gates to generate.
    pub fn has_gates(&self) -> (r: bool)
        requires
            self.wf(),
        ensures
            r == (self.generated() != self.circuit().and_len()),
    {
        self.counter != self.circ.and_count()
    }

    /// Generates the next encrypted gate.
    pub fn next(&mut self) -> (r: Option<EncryptedGate>)
        requires
            old(self).wf(),
        ensures
            final(self).wf(),
            final(self).same_job(old(self)),
            if old(self).generated() < old(self).circuit().and_len() {
                &&& r == Some(old(self).table()[old(self).generated() as int])
                &&& final(self).generated() == old(self).generated() + 1
            } else {
                &&& r is None
                &&& final(self).generated() == old(self).generated()
                &&& final(self).gates_left() == 0
            },
        decreases old(self).gates_left(),
    {
        let ghost gates = self.circ.gate_seq();
        let ghost slots = self.remapping.slot_seq();
        let ghost h = tweak_fn(*self.cipher);
        let ghost count = self.counter as int;
        let ghost len = gates.len() as int;
        proof {
            self.lemma_generated();
        }
        while self.position < self.circ.gates().len()
            invariant
                self.wf(),
                self.circ == old(self).circ,
                self.cipher == old(self).cipher,
                self.delta == old(self).delta,
                self.init == old(self).init,
                self.remapping == old(self).remapping,
                self.counter == old(self).counter,
                self.position >= old(self).position,
                gates == self.circ.gate_seq(),
                slots == self.remapping.slot_seq(),
                len == gates.len(),
                h == tweak_fn(*self.cipher),
                count == self.counter,
                count <= ands(gates, len),
            decreases self.circ.gate_seq().len() - self.position,
        {
            let ghost inputs = self.circ.input_len();
            proof {
                self.circ.lemma_wf();
                lemma_ands_bound(gates, self.position + 1, len);
                let at = self.position as int;
                assert(gate_ok(inputs, self.circ.feeds(), gates, at));
                lemma_driven_later(inputs, gates, at, len, gates[at].left());
                lemma_driven_later(inputs, gates, at, len, gates[at].right());
                assert(gates[at].out() == gates[at].out());
                assert(driven(inputs, gates, len, gates[at].out()));
            }
            let gate = self.circ.gates()[self.position];
            let (x, y) = gate.operands();
            // Use remapped slots for label access
            let x_slot: usize = self.remapping.slot(x);
            let y_slot: usize = self.remapping.slot(y);
            let z_slot: usize = self.remapping.slot(gate.z());
            match gate {
                Gate::Xor { .. } => {
                    let label = self.labels[x_slot] ^ self.labels[y_slot];
                    self.labels[z_slot] = label;
                    self.position = self.position + 1;
                },
                Gate::And { .. } => {
                    let x_0 = self.labels[x_slot];
                    let y_0 = self.labels[y_slot];
                    let (z_0, encrypted_gate) = and_gate(
                        self.cipher,
                        &x_0,
                        &y_0,
                        &self.delta,
                        self.gid,
                    );
                    self.labels[z_slot] = z_0;
                    self.position = self.position + 1;

                    self.gid = self.gid + 2;
                    self.counter = self.counter + 1;
                    proof {
                        let at = self.position as int;
                        lemma_remapped_table(h, self.delta.block, gates, slots, self.init@, at, len);
                        lemma_remapped_table(
                            h,
                            self.delta.block,
                            gates,
                            slots,
                            self.init@,
                            at - 1,
                            at,
                        );
                    }
                    if !self.has_gates() {
                        let _ = self.next();
                        self.complete = true;
                    }
                    return Some(encrypted_gate);
                },
                Gate::Inv { .. } => {
                    let label = self.labels[x_slot] ^ *self.delta.as_block();
                    self.labels[z_slot] = label;
                    self.position = self.position + 1;
                },
                Gate::Id { .. } => {
                    let label = self.labels[x_slot];
                    self.labels[z_slot] = label;
                    self.position = self.position + 1;
                },
            }
        }
        None
    }

    /// Returns the encoded outputs of the circuit.
    pub fn finish(self) -> (r: Result<RemappedGarblerOutput, RemappedGarblerError>)
        requires
            self.wf(),
        ensures
            if self.generated() != self.circuit().and_len() {
                r == Err::<RemappedGarblerOutput, RemappedGarblerError>(
                    RemappedGarblerError::NotFinished,
                )
            } else {
                &&& r matches Ok(output)
                &&& key_blocks(output.outputs@) == self.output_labels()
            },
    {
        let mut this = self;
        if this.has_gates() {
            return Err(RemappedGarblerError::NotFinished);
        }
        // Finish computing any "free" gates.

        if !this.complete {
            let _ = this.next();
        }
        proof {
            this.circ.lemma_wf();
        }
        let range = this.circ.outputs();
        // Collect output labels using remapped slots
        let mut outputs: Vec<Key> = Vec::new();
        for wire_id in range.start..range.end
            invariant
                this.wf(),
                this.circ.wf(),
                this.same_job(&self),
                this.gates_left() == 0,
                range.start == this.circ.out_start(),
                range.end == this.circ.out_end(),
                outputs.len() == wire_id - range.start,
                forall|i: int|
                    0 <= i < outputs.len() ==> (#[trigger] outputs@[i]).block
                        == self.output_labels()[i],
        {
            proof {
                this.circ.lemma_wf();
                assert(driven(
                    this.circ.input_len(),
                    this.circ.gate_seq(),
                    this.circ.gate_seq().len() as int,
                    wire_id as int,
                ));
            }
            let slot: usize = this.remapping.slot(wire_id);
            outputs.push(Key::from(this.labels[slot]));
        }
        assert(key_blocks(outputs@) =~= self.output_labels());
        Ok(RemappedGarblerOutput { outputs })
    }
}

/// A wire that is driven stays driven.
pub proof fn lemma_driven_later(inputs: nat, gates: Seq<Gate>, n: int, m: int, wire: int)
    requires
        n <= m,
        driven(inputs, gates, n, wire),
    ensures
        driven(inputs, gates, m, wire),
{
    if !(0 <= wire < inputs) {
        let i = choose|i: int| 0 <= i < n && (#[trigger] gates[i]).out() == wire;
        assert(gates[i].out() == wire);
    }
}

/// Iterator returned by [`RemappedGarbler::generate_batched`].
pub struct RemappedEncryptedGateBatchIter<'a, H, const N: usize> {
    /// The iterator over single gates.
    pub iter: RemappedEncryptedGateIter<'a, H>,
}

impl<'a, H: Fn(Block, Block) -> Block, const N: usize> RemappedEncryptedGateBatchIter<'a, H, N> {
    /// Returns `true` if the garbler has more encrypted gates to generate.
    pub fn has_gates(&self) -> (r: bool)
        requires
            self.iter.wf(),
        ensures
            r == (self.iter.generated() != self.iter.circuit().and_len()),
    {
        self.iter.has_gates()
    }

    /// Returns the encoded outputs of the circuit.
    pub fn finish(self) -> (r: Result<RemappedGarblerOutput, RemappedGarblerError>)
        requires
            self.iter.wf(),
        ensures
            if self.iter.generated() != self.iter.circuit().and_len() {
                r == Err::<RemappedGarblerOutput, RemappedGarblerError>(
                    RemappedGarblerError::NotFinished,
                )
            } else {
                &&& r matches Ok(output)
                &&& key_blocks(output.outputs@) == self.iter.output_labels()
            },
    {
        self.iter.finish()
    }

    /// Generates the next batch of encrypted gates; zeros pad the last one.
    pub fn next(&mut self) -> (r: Option<EncryptedGateBatch<N>>)
        requires
            N > 0,
            old(self).iter.wf(),
        ensures
            final(self).iter.wf(),
            final(self).iter.same_job(&old(self).iter),
            ({
                let count = old(self).iter.circuit().and_len();
                let done = old(self).iter.generated();
                if done < count {
                    &&& r matches Some(batch)
                    &&& batch.gates@ == batch_of(old(self).iter.table(), done, N as nat)
                    &&& final(self).iter.generated() == if done + N < count {
                        done + N
                    } else {
                        count as int
                    }
                } else {
                    &&& r is None
                    &&& final(self).iter.generated() == done
                }
            }),
    {
        proof {
            self.iter.lemma_generated();
        }
        if !self.has_gates() {
            return None;
        }
        let mut batch = [EncryptedGate::default();N];
        let ghost table = self.iter.table();
        let ghost count = self.iter.circuit().and_len();
        let ghost done = self.iter.generated();
        proof {
            lemma_remapped_table(
                self.iter.hash_fn(),
                self.iter.offset(),
                self.iter.circuit().gate_seq(),
                self.iter.slot_seq(),
                self.iter.start(),
                0,
                self.iter.circuit().gate_seq().len() as int,
            );
        }
        let mut i: usize = 0;
        while i < N && self.iter.has_gates()
            invariant
                self.iter.wf(),
                self.iter.same_job(&old(self).iter),
                table == old(self).iter.table(),
                count == old(self).iter.circuit().and_len(),
                table.len() == count,
                i <= N,
                self.iter.generated() == done + i,
                done + i <= count,
                forall|j: int|
                    0 <= j < N ==> batch@[j] == if j < i {
                        table[done + j]
                    } else {
                        empty_gate()
                    },
            decreases N - i,
        {
            match self.iter.next() {
                Some(gate) => {
                    batch[i] = gate;
                },
                None => {},
            }
            i = i + 1;
        }
        assert(batch@ =~= batch_of(table, done, N as nat));
        Some(EncryptedGateBatch::new(batch))
    }
}

} // verus!
