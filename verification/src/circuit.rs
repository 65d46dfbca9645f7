//! Boolean circuits and the gates of garbled circuits.

use vstd::prelude::*;

use crate::block::Block;

verus! {

/// A gate of a circuit. The fields are ids of wires: `x` and `y` go in, `z` comes out.
#[derive(Clone, Copy, Debug, PartialEq, Eq, Structural)]
pub enum Gate {
    /// `z = x ^ y`.
    Xor {
        /// First operand.
        x: usize,
        /// Second operand.
        y: usize,
        /// Result.
        z: usize,
    },
    /// `z = x & y`.
    And {
        /// First operand.
        x: usize,
        /// Second operand.
        y: usize,
        /// Result.
        z: usize,
    },
    /// `z = !x`.
    Inv {
        /// Operand.
        x: usize,
        /// Result.
        z: usize,
    },
    /// `z = x`.
    Id {
        /// Operand.
        x: usize,
        /// Result.
        z: usize,
    },
}

impl Gate {
    /// The wire that comes out.
    pub open spec fn out(self) -> int {
        match self {
            Gate::Xor { x, y, z } => z as int,
            Gate::And { x, y, z } => z as int,
            Gate::Inv { x, z } => z as int,
            Gate::Id { x, z } => z as int,
        }
    }

    /// The first operand.
    pub open spec fn left(self) -> int {
        match self {
            Gate::Xor { x, y, z } => x as int,
            Gate::And { x, y, z } => x as int,
            Gate::Inv { x, z } => x as int,
            Gate::Id { x, z } => x as int,
        }
    }

    /// The second operand; the first one where there is only one.
    pub open spec fn right(self) -> int {
        match self {
            Gate::Xor { x, y, z } => y as int,
            Gate::And { x, y, z } => y as int,
            Gate::Inv { x, z } => x as int,
            Gate::Id { x, z } => x as int,
        }
    }

    /// Whether this reads the wire.
    pub open spec fn reads(self, wire: int) -> bool {
        self.left() == wire || self.right() == wire
    }

    /// The bit that comes out.
    pub open spec fn value(self, left: bool, right: bool) -> bool {
        match self {
            Gate::Xor { .. } => left != right,
            Gate::And { .. } => left && right,
            Gate::Inv { .. } => !left,
            Gate::Id { .. } => left,
        }
    }

    /// The wire that comes out.
    pub fn z(&self) -> (r: usize)
        ensures
            r == self.out(),
    {
        match *self {
            Gate::Xor { x: _, y: _, z } => z,
            Gate::And { x: _, y: _, z } => z,
            Gate::Inv { x: _, z } => z,
            Gate::Id { x: _, z } => z,
        }
    }

    /// The two operands; a single one stands twice.
    pub fn operands(&self) -> (r: (usize, usize))
        ensures
            r.0 == self.left(),
            r.1 == self.right(),
    {
        match *self {
            Gate::Xor { x, y, z: _ } => (x, y),
            Gate::And { x, y, z: _ } => (x, y),
            Gate::Inv { x, z: _ } => (x, x),
            Gate::Id { x, z: _ } => (x, x),
        }
    }
}

/// The number of AND gates among the first `n` gates.
pub open spec fn ands(gates: Seq<Gate>, n: int) -> nat
    decreases n,
{
    if n <= 0 {
        0
    } else {
        ands(gates, n - 1) + (if gates[n - 1] is And {
            1nat
        } else {
            0nat
        })
    }
}

/// Whether one of the first `n` gates drives the wire, or an input does.
pub open spec fn driven(inputs: nat, gates: Seq<Gate>, n: int, wire: int) -> bool {
    ||| 0 <= wire < inputs
    ||| exists|i: int| 0 <= i < n && (#[trigger] gates[i]).out() == wire
}

/// Gate `i` reads driven wires only and drives a wire that nothing drove before.
pub open spec fn gate_ok(inputs: nat, feeds: nat, gates: Seq<Gate>, i: int) -> bool {
    let gate = gates[i];
    &&& gate.left() < feeds && gate.right() < feeds && gate.out() < feeds
    &&& driven(inputs, gates, i, gate.left())
    &&& driven(inputs, gates, i, gate.right())
    &&& !driven(inputs, gates, i, gate.out())
}

/// A circuit: wires are numbered from 0, the inputs first; the outputs are a range of wires.
///
/// Each gate reads wires that inputs or earlier gates drive, and no two gates drive one wire.
#[derive(Debug)]
pub struct Circuit {
    inputs: usize,
    output_start: usize,
    output_end: usize,
    feed_count: usize,
    and_count: usize,
    gates: Vec<Gate>,
}

/// Why a description is no circuit.
#[derive(Clone, Copy, Debug, PartialEq, Eq, Structural)]
pub enum CircuitError {
    /// There are more inputs than wires.
    Inputs,
    /// A gate, the one with this index, reads a wire that is not driven, or drives one that is.
    Gate {
        /// Its index.
        index: usize,
    },
    /// The outputs are no range of driven wires.
    Outputs,
}

/// The values of the wires after the first `n` gates.
pub open spec fn wire_values(gates: Seq<Gate>, init: Seq<bool>, n: int) -> Seq<bool>
    decreases n,
{
    if n <= 0 {
        init
    } else {
        let v = wire_values(gates, init, n - 1);
        let gate = gates[n - 1];
        v.update(gate.out(), gate.value(v[gate.left()], v[gate.right()]))
    }
}

/// The buffer that holds `inputs` first and `rest` on the other wires.
pub open spec fn with_inputs<T>(inputs: Seq<T>, feeds: nat, rest: T) -> Seq<T> {
    Seq::new(
        feeds,
        |i: int|
            if i < inputs.len() {
                inputs[i]
            } else {
                rest
            },
    )
}

impl Circuit {
    /// The number of inputs.
    pub closed spec fn input_len(&self) -> nat {
        self.inputs as nat
    }

    /// The number of wires.
    pub closed spec fn feeds(&self) -> nat {
        self.feed_count as nat
    }

    /// The first output.
    pub closed spec fn out_start(&self) -> int {
        self.output_start as int
    }

    /// One past the last output.
    pub closed spec fn out_end(&self) -> int {
        self.output_end as int
    }

    /// The gates.
    pub closed spec fn gate_seq(&self) -> Seq<Gate> {
        self.gates@
    }

    /// The number of outputs.
    pub open spec fn output_len(&self) -> nat {
        (self.out_end() - self.out_start()) as nat
    }

    /// The number of AND gates.
    pub open spec fn and_len(&self) -> nat {
        ands(self.gate_seq(), self.gate_seq().len() as int)
    }

    /// What every circuit satisfies.
    pub closed spec fn wf(&self) -> bool {
        &&& self.and_count == self.and_len()
        &&& is_circuit(
            self.input_len(),
            self.feeds(),
            self.out_start(),
            self.out_end(),
            self.gate_seq(),
        )
    }

    /// The values of the wires once all gates are computed.
    pub open spec fn values(&self, inputs: Seq<bool>) -> Seq<bool> {
        wire_values(
            self.gate_seq(),
            with_inputs(inputs, self.feeds(), false),
            self.gate_seq().len() as int,
        )
    }

    /// The bits that come out of the circuit.
    pub open spec fn outputs_of(&self, inputs: Seq<bool>) -> Seq<bool> {
        self.values(inputs).subrange(self.out_start(), self.out_end())
    }

    /// What a circuit is made of, in the terms of its parts.
    pub proof fn lemma_wf(&self)
        requires
            self.wf(),
        ensures
            is_circuit(
                self.input_len(),
                self.feeds(),
                self.out_start(),
                self.out_end(),
                self.gate_seq(),
            ),
            self.feeds() <= usize::MAX,
            self.and_len() <= usize::MAX,
    {
    }

    /// Creates a circuit with inputs `0..inputs` and outputs `output_start..output_end`.
    pub fn new(
        inputs: usize,
        feed_count: usize,
        output_start: usize,
        output_end: usize,
        gates: Vec<Gate>,
    ) -> (r: Result<Circuit, CircuitError>)
        ensures
            r is Ok <==> is_circuit(
                inputs as nat,
                feed_count as nat,
                output_start as int,
                output_end as int,
                gates@,
            ),
            r matches Ok(c) ==> {
                &&& c.wf()
                &&& c.input_len() == inputs
                &&& c.feeds() == feed_count
                &&& c.out_start() == output_start
                &&& c.out_end() == output_end
                &&& c.gate_seq() == gates@
            },
            r == Err::<Circuit, CircuitError>(CircuitError::Inputs) <==> inputs > feed_count,
            forall|index: usize|
                r == Err::<Circuit, CircuitError>(CircuitError::Gate { index }) <==> {
                    &&& inputs <= feed_count
                    &&& index < gates.len()
                    &&& !gate_ok(inputs as nat, feed_count as nat, gates@, index as int)
                    &&& forall|j: int|
                        0 <= j < index ==> #[trigger] gate_ok(
                            inputs as nat,
                            feed_count as nat,
                            gates@,
                            j,
                        )
                },
    {
        if inputs > feed_count {
            return Err(CircuitError::Inputs);
        }
        let mut seen: Vec<bool> = vec![false; feed_count];
        for i in 0..inputs
            invariant
                inputs <= feed_count,
                seen.len() == feed_count,
                forall|w: int| 0 <= w < feed_count ==> seen@[w] == (w < i),
        {
            seen[i] = true;
        }
        let mut and_count: usize = 0;
        assert forall|w: int| 0 <= w < feed_count implies seen@[w] == driven(
            inputs as nat,
            gates@,
            0,
            w,
        ) by {}
        for i in 0..gates.len()
            invariant
                inputs <= feed_count,
                seen.len() == feed_count,
                and_count <= i,
                and_count == ands(gates@, i as int),
                forall|w: int|
                    0 <= w < feed_count ==> seen@[w] == driven(
                        inputs as nat,
                        gates@,
                        i as int,
                        w,
                    ),
                forall|j: int|
                    0 <= j < i ==> #[trigger] gate_ok(
                        inputs as nat,
                        feed_count as nat,
                        gates@,
                        j,
                    ),
        {
            let gate = gates[i];
            let (x, y) = gate.operands();
            let z: usize = gate.z();
            if x >= feed_count || y >= feed_count || z >= feed_count || !seen[x] || !seen[y]
                || seen[z] {
                proof {
                    assert(!gate_ok(inputs as nat, feed_count as nat, gates@, i as int));
                    assert forall|index: usize| index != i && index < gates.len() && !gate_ok(
                        inputs as nat,
                        feed_count as nat,
                        gates@,
                        index as int,
                    ) implies exists|j: int|
                        0 <= j < index && !(#[trigger] gate_ok(
                            inputs as nat,
                            feed_count as nat,
                            gates@,
                            j,
                        )) by {
                        if index > i {
                            assert(!gate_ok(inputs as nat, feed_count as nat, gates@, i as int));
                        } else {
                            assert(gate_ok(inputs as nat, feed_count as nat, gates@, index as int));
                        }
                    }
                }
                return Err(CircuitError::Gate { index: i });
            }
            let ghost before = seen@;
            seen[z] = true;
            proof {
                assert(gate_ok(inputs as nat, feed_count as nat, gates@, i as int));
                assert forall|w: int| 0 <= w < feed_count implies seen@[w] == driven(
                    inputs as nat,
                    gates@,
                    i + 1,
                    w,
                ) by {
                    if w == z {
                        assert(gates@[i as int].out() == w);
                    }
                    assert(before[w] == driven(inputs as nat, gates@, i as int, w));
                    if driven(inputs as nat, gates@, i as int, w) && w >= inputs {
                        let k = choose|k: int| 0 <= k < i && (#[trigger] gates@[k]).out() == w;
                        assert(gates@[k].out() == w);
                    }
                }
            }
            match gate {
                Gate::And { .. } => {
                    and_count = and_count + 1;
                },
                _ => {},
            }
        }
        let mut ok: bool = output_start <= output_end && output_end <= feed_count;
        if ok {
            let mut w: usize = output_start;
            while w < output_end
                invariant
                    output_start <= w <= output_end <= feed_count,
                    seen.len() == feed_count,
                    forall|v: int|
                        0 <= v < feed_count ==> seen@[v] == driven(
                            inputs as nat,
                            gates@,
                            gates.len() as int,
                            v,
                        ),
                    ok <==> forall|v: int|
                        output_start <= v < w ==> #[trigger] driven(
                            inputs as nat,
                            gates@,
                            gates.len() as int,
                            v,
                        ),
                decreases output_end - w,
            {
                assert(seen@[w as int] == driven(
                    inputs as nat,
                    gates@,
                    gates.len() as int,
                    w as int,
                ));
                ok = ok && seen[w];
                w = w + 1;
            }
        }
        if !ok {
            return Err(CircuitError::Outputs);
        }
        Ok(Circuit { inputs, output_start, output_end, feed_count, and_count, gates })
    }

    /// The inputs.
    pub fn inputs(&self) -> (r: std::ops::Range<usize>)
        ensures
            r.start == 0,
            r.end == self.input_len(),
    {
        0..self.inputs
    }

    /// The number of inputs.
    pub fn input_count(&self) -> (r: usize)
        ensures
            r == self.input_len(),
    {
        self.inputs
    }

    /// The outputs.
    pub fn outputs(&self) -> (r: std::ops::Range<usize>)
        ensures
            r.start == self.out_start(),
            r.end == self.out_end(),
    {
        self.output_start..self.output_end
    }

    /// The number of wires.
    pub fn feed_count(&self) -> (r: usize)
        ensures
            r == self.feeds(),
    {
        self.feed_count
    }

    /// The number of AND gates.
    pub fn and_count(&self) -> (r: usize)
        requires
            self.wf(),
        ensures
            r == self.and_len(),
    {
        self.and_count
    }

    /// The gates.
    pub fn gates(&self) -> (r: &[Gate])
        ensures
            r@ == self.gate_seq(),
    {
        self.gates.as_slice()
    }
}

/// Whether the parts make a circuit.
pub open spec fn is_circuit(
    inputs: nat,
    feeds: nat,
    out_start: int,
    out_end: int,
    gates: Seq<Gate>,
) -> bool {
    &&& inputs <= feeds
    &&& 0 <= out_start <= out_end <= feeds
    &&& forall|i: int| 0 <= i < gates.len() ==> #[trigger] gate_ok(inputs, feeds, gates, i)
    &&& forall|w: int|
        out_start <= w < out_end ==> #[trigger] driven(inputs, gates, gates.len() as int, w)
}

/// The elements of the outputs.
pub fn output_range<T: Copy>(items: &Vec<T>, circ: &Circuit) -> (r: Vec<T>)
    requires
        circ.wf(),
        items.len() >= circ.feeds(),
    ensures
        r@ == items@.subrange(circ.out_start(), circ.out_end()),
{
    proof {
        circ.lemma_wf();
    }
    let range = circ.outputs();
    let mut out: Vec<T> = Vec::new();
    let mut i: usize = range.start;
    while i < range.end
        invariant
            circ.out_start() <= i <= circ.out_end() <= items.len(),
            0 <= circ.out_start(),
            range.end == circ.out_end(),
            out@ == items@.subrange(circ.out_start(), i as int),
        decreases range.end - i,
    {
        out.push(items[i]);
        i = i + 1;
        assert(out@ =~= items@.subrange(circ.out_start(), i as int));
    }
    out
}

/// There are no more AND gates than gates.
pub proof fn lemma_ands_bound(gates: Seq<Gate>, n: int, m: int)
    requires
        0 <= n <= m,
    ensures
        ands(gates, n) <= ands(gates, m),
        ands(gates, m) <= ands(gates, n) + (m - n),
    decreases m - n,
{
    if n < m {
        lemma_ands_bound(gates, n, m - 1);
    }
}

/// Computing the gates keeps the number of wires.
pub proof fn lemma_wire_values_len(gates: Seq<Gate>, init: Seq<bool>, n: int)
    requires
        n <= gates.len(),
        forall|i: int| 0 <= i < gates.len() ==> (#[trigger] gates[i]).out() < init.len(),
    ensures
        wire_values(gates, init, n).len() == init.len(),
    decreases n,
{
    if n > 0 {
        lemma_wire_values_len(gates, init, n - 1);
    }
}

/// AND gates are numbered in order: the number of gate `i` counts the AND gates before it, and no
/// two AND gates have one number.
pub proof fn lemma_and_numbers(gates: Seq<Gate>, i: int, j: int)
    requires
        0 <= i < j <= gates.len(),
    ensures
        ands(gates, 0) == 0,
        gates[i] is And ==> ands(gates, i + 1) == ands(gates, i) + 1,
        gates[i] is And ==> ands(gates, i) < ands(gates, j),
        !(gates[i] is And) ==> ands(gates, i + 1) == ands(gates, i),
{
    lemma_ands_bound(gates, i + 1, j);
}

/// No later gate drives a wire that is driven.
pub proof fn lemma_driven_once(circ: &Circuit, n: int, j: int, wire: int)
    requires
        circ.wf(),
        0 <= n <= j < circ.gate_seq().len(),
        driven(circ.input_len(), circ.gate_seq(), n, wire),
    ensures
        circ.gate_seq()[j].out() != wire,
        0 <= circ.gate_seq()[j].out() < circ.feeds(),
        driven(circ.input_len(), circ.gate_seq(), j, wire),
{
    circ.lemma_wf();
    let gates = circ.gate_seq();
    assert(gate_ok(circ.input_len(), circ.feeds(), gates, j));
    if !(0 <= wire < circ.input_len()) {
        let i = choose|i: int| 0 <= i < n && (#[trigger] gates[i]).out() == wire;
        assert(gates[i].out() == wire);
    }
}

/// A gate's operands are driven before it and its result right behind it.
pub proof fn lemma_gate_wires(circ: &Circuit, i: int)
    requires
        circ.wf(),
        0 <= i < circ.gate_seq().len(),
    ensures
        ({
            let (inputs, gates) = (circ.input_len(), circ.gate_seq());
            &&& driven(inputs, gates, i, gates[i].left())
            &&& driven(inputs, gates, i, gates[i].right())
            &&& driven(inputs, gates, i + 1, gates[i].out())
            &&& 0 <= gates[i].left() < circ.feeds()
            &&& 0 <= gates[i].right() < circ.feeds()
            &&& 0 <= gates[i].out() < circ.feeds()
        }),
{
    circ.lemma_wf();
    assert(gate_ok(circ.input_len(), circ.feeds(), circ.gate_seq(), i));
    assert(circ.gate_seq()[i].out() == circ.gate_seq()[i].out());
}

/// The value of a wire that is driven stays.
proof fn lemma_value_stays(circ: &Circuit, init: Seq<bool>, n: int, m: int, wire: int)
    requires
        circ.wf(),
        init.len() == circ.feeds(),
        0 <= n <= m <= circ.gate_seq().len(),
        driven(circ.input_len(), circ.gate_seq(), n, wire),
        0 <= wire < circ.feeds(),
    ensures
        wire_values(circ.gate_seq(), init, m)[wire] == wire_values(circ.gate_seq(), init, n)[wire],
        wire_values(circ.gate_seq(), init, m).len() == circ.feeds(),
    decreases m,
{
    circ.lemma_wf();
    let gates = circ.gate_seq();
    assert forall|i: int| 0 <= i < gates.len() implies (#[trigger] gates[i]).out()
        < init.len() by {
        assert(gate_ok(circ.input_len(), circ.feeds(), gates, i));
    }
    lemma_wire_values_len(gates, init, m);
    if n < m {
        lemma_value_stays(circ, init, n, m - 1, wire);
        lemma_wire_values_len(gates, init, m - 1);
        lemma_driven_once(circ, n, m - 1, wire);
    }
}

/// Every gate of a circuit that was computed meets its truth table, and the inputs keep their bits.
pub proof fn lemma_wire_value(circ: &Circuit, inputs: Seq<bool>, i: int, w: int)
    requires
        circ.wf(),
        inputs.len() == circ.input_len(),
        0 <= i < circ.gate_seq().len(),
    ensures
        ({
            let v = circ.values(inputs);
            &&& 0 <= w < circ.input_len() ==> v[w] == inputs[w]
            &&& match circ.gate_seq()[i] {
                Gate::Xor { x, y, z } => v[z as int] == (v[x as int] != v[y as int]),
                Gate::And { x, y, z } => v[z as int] == (v[x as int] && v[y as int]),
                Gate::Inv { x, z } => v[z as int] != v[x as int],
                Gate::Id { x, z } => v[z as int] == v[x as int],
            }
        }),
{
    circ.lemma_wf();
    let gates = circ.gate_seq();
    let init = with_inputs(inputs, circ.feeds(), false);
    let n = gates.len() as int;
    let gate = gates[i];
    if 0 <= w < circ.input_len() {
        lemma_value_stays(circ, init, 0, n, w);
    }
    lemma_gate_wires(circ, i);
    lemma_value_stays(circ, init, i, n, gate.left());
    lemma_value_stays(circ, init, i, n, gate.right());
    lemma_value_stays(circ, init, i + 1, n, gate.out());
    lemma_value_stays(circ, init, i, i, gate.left());
}

/// An AND gate that is garbled into two rows.
#[derive(Clone, Copy, Debug, PartialEq, Eq, Structural)]
pub struct EncryptedGate {
    /// The row of the garbler's half gate.
    pub garbler_row: Block,
    /// The row of the evaluator's half gate.
    pub evaluator_row: Block,
}

impl EncryptedGate {
    /// Creates a gate from its two rows.
    pub fn new(rows: [Block; 2]) -> (r: EncryptedGate)
        ensures
            r.garbler_row == rows@[0],
            r.evaluator_row == rows@[1],
    {
        EncryptedGate { garbler_row: rows[0], evaluator_row: rows[1] }
    }
}

/// An encrypted gate of two zero rows, which pads a batch.
pub open spec fn empty_gate() -> EncryptedGate {
    EncryptedGate { garbler_row: Block { bits: 0 }, evaluator_row: Block { bits: 0 } }
}

impl Default for EncryptedGate {
    fn default() -> (r: EncryptedGate)
        ensures
            r == empty_gate(),
    {
        EncryptedGate { garbler_row: Block::zero(), evaluator_row: Block::zero() }
    }
}

/// A batch of encrypted gates.
#[derive(Debug)]
pub struct EncryptedGateBatch<const N: usize> {
    /// The gates of the batch.
    pub gates: [EncryptedGate; N],
}

impl<const N: usize> EncryptedGateBatch<N> {
    /// Creates a batch.
    pub fn new(gates: [EncryptedGate; N]) -> (r: Self)
        ensures
            r.gates@ == gates@,
    {
        EncryptedGateBatch { gates }
    }

    /// The gates of the batch.
    pub fn into_array(self) -> (r: [EncryptedGate; N])
        ensures
            r@ == self.gates@,
    {
        self.gates
    }
}

/// An AND gate of authenticated garbling: two rows and the bit that masks the result.
#[derive(Clone, Copy, Debug, PartialEq, Eq, Structural)]
pub struct AuthHalfGate {
    /// The row for the masked value of the first operand.
    pub left_row: Block,
    /// The row for the masked value of the second operand.
    pub right_row: Block,
    /// The least significant bit of the result's zero label.
    pub mask: bool,
}

impl AuthHalfGate {
    /// Creates a gate from its two rows and its mask bit.
    pub fn new(gates: [Block; 2], mask: bool) -> (r: AuthHalfGate)
        ensures
            r == (AuthHalfGate { left_row: gates@[0], right_row: gates@[1], mask }),
    {
        AuthHalfGate { left_row: gates[0], right_row: gates[1], mask }
    }
}

/// A half gate of zeros, which pads a batch.
pub open spec fn empty_auth_gate() -> AuthHalfGate {
    AuthHalfGate { left_row: Block { bits: 0 }, right_row: Block { bits: 0 }, mask: false }
}

impl Default for AuthHalfGate {
    fn default() -> (r: AuthHalfGate)
        ensures
            r == empty_auth_gate(),
    {
        AuthHalfGate { left_row: Block::zero(), right_row: Block::zero(), mask: false }
    }
}

/// A batch of gates of authenticated garbling.
#[derive(Debug)]
pub struct AuthHalfGateBatch<const N: usize> {
    /// The gates of the batch.
    pub gates: [AuthHalfGate; N],
}

impl<const N: usize> AuthHalfGateBatch<N> {
    /// Creates a batch.
    pub fn new(gates: [AuthHalfGate; N]) -> (r: Self)
        ensures
            r.gates@ == gates@,
    {
        AuthHalfGateBatch { gates }
    }

    /// The gates of the batch.
    pub fn into_array(self) -> (r: [AuthHalfGate; N])
        ensures
            r@ == self.gates@,
    {
        self.gates
    }
}

/// A garbled circuit.
#[derive(Debug)]
pub struct GarbledCircuit {
    /// The encrypted gates, in the order of the AND gates.
    pub gates: Vec<EncryptedGate>,
}

} // verus!
