//! Reusing the slots of dead wires changes nothing that comes out of the garbler.

use vstd::prelude::*;
use vstd::set_lib::{lemma_int_range, set_int_range};

use crate::block::Block;
use crate::circuit::{driven, gate_ok, with_inputs, Circuit};
use crate::correlated::{key_blocks, Key};
use crate::half_gates::garbler::{garbled_labels, garbled_table};
use crate::half_gates::remapped_garbler::{
    dies_at, freed, in_use, is_most_used, is_output, last_read, lemma_driven_later,
    lemma_gate_bound, lemma_last_read_bound, lemma_slots, remapped_labels, remapped_table,
    slots_after, stored, used_together, Slots, FIRST_GID,
};
use crate::hash::TweakFn;

verus! {

/// After the first `n` gates the wire is driven and none of them was its last use.
pub open spec fn live(circ: &Circuit, n: int, wire: int) -> bool {
    let gates = circ.gate_seq();
    &&& 0 <= wire < circ.feeds()
    &&& driven(circ.input_len(), gates, n, wire)
    &&& !(!is_output(circ, wire) && (last_read(gates, wire, gates.len() as int) matches Some(i) && i
        < n))
}

/// The live wires are those in use.
pub proof fn lemma_live(circ: &Circuit, n: int, wire: int)
    requires
        0 <= n <= circ.gate_seq().len(),
    ensures
        live(circ, n, wire) == in_use(circ, n, wire),
{
    let gates = circ.gate_seq();
    lemma_last_read_bound(gates, wire, gates.len() as int);
    if let Some(i) = last_read(gates, wire, gates.len() as int) {
        assert(gates[i].reads(wire));
    }
}

/// Live wires have slots of their own, none of which is free; no slot is free twice.
pub open spec fn disjoint_slots(circ: &Circuit, n: int, s: Slots) -> bool {
    &&& s.map.len() == circ.feeds()
    &&& forall|w: int| #[trigger] live(circ, n, w) ==> s.map[w] < s.count
    &&& forall|k: int| 0 <= k < s.free.len() ==> #[trigger] s.free[k] < s.count
    &&& forall|v: int, w: int| #[trigger]
        live(circ, n, v) && #[trigger] live(circ, n, w) && v != w ==> s.map[v] != s.map[w]
    &&& forall|w: int, k: int|
        #[trigger] live(circ, n, w) && 0 <= k < s.free.len() ==> s.map[w] != #[trigger] s.free[k]
    &&& forall|j: int, k: int|
        0 <= j < k < s.free.len() ==> #[trigger] s.free[j] != #[trigger] s.free[k]
}

/// The slots of live wires stay apart.
pub proof fn lemma_disjoint_slots(circ: &Circuit, n: int)
    requires
        circ.wf(),
        0 <= n <= circ.gate_seq().len(),
    ensures
        disjoint_slots(circ, n, slots_after(circ, n)),
        slots_after(circ, n).count <= circ.input_len() + n,
    decreases n,
{
    circ.lemma_wf();
    let gates = circ.gate_seq();
    let inputs = circ.input_len();
    let feeds = circ.feeds();
    if n > 0 {
        lemma_disjoint_slots(circ, n - 1);
        lemma_gate_bound(circ, n);
        let gate = gates[n - 1];
        let (x, y, z) = (gate.left(), gate.right(), gate.out());
        assert(gate_ok(inputs, feeds, gates, n - 1));
        lemma_operands_live(circ, n);
        let s = slots_after(circ, n - 1);
        let t = if s.free.len() > 0 {
            Slots {
                map: s.map.update(z, s.free.last()),
                free: s.free.drop_last(),
                count: s.count,
            }
        } else {
            Slots { map: s.map.update(z, s.count as usize), free: s.free, count: s.count + 1 }
        };
        assert forall|w: int| #[trigger] live(circ, n, w) && w != z implies live(
            circ,
            n - 1,
            w,
        ) by {
            if !(0 <= w < inputs) {
                let i = choose|i: int| 0 <= i < n && (#[trigger] gates[i]).out() == w;
                assert(i < n - 1);
                assert(gates[i].out() == w);
            }
        }
        let first = freed(circ, x, n - 1, t);
        let last = slots_after(circ, n);
        assert(t.map[x] == s.map[x] && t.map[y] == s.map[y]);
        assert forall|w: int, k: int|
            #[trigger] live(circ, n, w) && 0 <= k < last.free.len() implies last.map[w]
            != #[trigger] last.free[k] by {
            if k < t.free.len() {
                assert(last.free[k] == s.free[k]);
            } else if k == t.free.len() && first.free.len() > t.free.len() {
                assert(last.free[k] == s.map[x]);
            } else {
                assert(last.free[k] == s.map[y]);
            }
        }
        assert forall|j: int, k: int| 0 <= j < k < last.free.len() implies #[trigger] last.free[j]
            != #[trigger] last.free[k] by {
            if j < t.free.len() {
                assert(last.free[j] == s.free[j]);
            }
            if k < t.free.len() {
                assert(last.free[k] == s.free[k]);
            }
        }
    }
}

/// A driven wire keeps its slot.
pub proof fn lemma_slot_stays(circ: &Circuit, n: int, m: int, wire: int)
    requires
        circ.wf(),
        0 <= n <= m <= circ.gate_seq().len(),
        driven(circ.input_len(), circ.gate_seq(), n, wire),
        0 <= wire < circ.feeds(),
    ensures
        ({
            let s = slots_after(circ, n);
            let t = slots_after(circ, m);
            t.map[wire] == s.map[wire] && t.map.len() == s.map.len() == circ.feeds()
        }),
    decreases m,
{
    circ.lemma_wf();
    if m > 0 {
        let gates = circ.gate_seq();
        assert(gate_ok(circ.input_len(), circ.feeds(), gates, m - 1));
        if n < m {
            lemma_slot_stays(circ, n, m - 1, wire);
            lemma_driven_later(circ.input_len(), gates, n, m - 1, wire);
        } else if 0 <= wire < circ.input_len() {
            lemma_slot_stays(circ, 0, m - 1, wire);
        } else {
            lemma_slots(circ, m);
        }
    }
}

/// Wires in use together have different slots, and the result of a gate takes none of a wire in
/// use.
pub proof fn lemma_slots_apart(circ: &Circuit)
    requires
        circ.wf(),
    ensures
        ({
            let map = slots_after(circ, circ.gate_seq().len() as int).map;
            &&& forall|n: int, v: int, w: int|
                0 <= n <= circ.gate_seq().len() && #[trigger] in_use(circ, n, v)
                    && #[trigger] in_use(circ, n, w) && v != w ==> map[v] != map[w]
            &&& forall|n: int, w: int|
                0 <= n < circ.gate_seq().len() && #[trigger] in_use(circ, n, w)
                    ==> map[circ.gate_seq()[n].out()] != map[w]
        }),
{
    let gates = circ.gate_seq();
    let len = gates.len() as int;
    let map = slots_after(circ, len).map;
    circ.lemma_wf();
    assert forall|n: int, v: int, w: int|
        0 <= n <= len && #[trigger] in_use(circ, n, v) && #[trigger] in_use(circ, n, w) && v
            != w implies map[v] != map[w] by {
        lemma_disjoint_slots(circ, n);
        lemma_live(circ, n, v);
        lemma_live(circ, n, w);
        lemma_slot_stays(circ, n, len, v);
        lemma_slot_stays(circ, n, len, w);
    }
    assert forall|n: int, w: int| 0 <= n < len && #[trigger] in_use(circ, n, w) implies
        map[gates[n].out()] != map[w] by {
        let z = gates[n].out();
        lemma_disjoint_slots(circ, n);
        lemma_live(circ, n, w);
        lemma_slot_stays(circ, n, len, w);
        assert(gate_ok(circ.input_len(), circ.feeds(), gates, n));
        lemma_slot_stays(circ, n + 1, len, z);
        lemma_gate_bound(circ, n);
        let s = slots_after(circ, n);
        if s.free.len() > 0 {
            assert(slots_after(circ, n + 1).map[z] == s.free.last());
            assert(s.map[w] != s.free[s.free.len() - 1]);
        } else {
            assert(slots_after(circ, n + 1).map[z] == s.count as usize);
        }
    }
}

/// The live wires.
spec fn live_set(circ: &Circuit, n: int) -> Set<int> {
    Set::new(|w: int| live(circ, n, w))
}

/// Every slot is that of a live wire or free, and the slots are as many as wires were in use at
/// once.
proof fn lemma_used_count(circ: &Circuit, n: int)
    requires
        circ.wf(),
        0 <= n <= circ.gate_seq().len(),
    ensures
        ({
            let s = slots_after(circ, n);
            &&& live_set(circ, n).finite()
            &&& live_set(circ, n).len() + s.free.len() == s.count
            &&& circ.input_len() <= s.count
            &&& forall|k: int|
                0 <= k < n ==> (#[trigger] used_together(circ, k)).finite() && used_together(
                    circ,
                    k,
                ).len() <= s.count
            &&& s.count == circ.input_len() || exists|k: int|
                0 <= k < n && (#[trigger] used_together(circ, k)).len() == s.count
        }),
    decreases n,
{
    let gates = circ.gate_seq();
    let inputs = circ.input_len();
    circ.lemma_wf();
    if n == 0 {
        lemma_int_range(0, inputs as int);
        assert forall|w: int| live_set(circ, 0).contains(w) == set_int_range(
            0,
            inputs as int,
        ).contains(w) by {
            lemma_last_read_bound(gates, w, gates.len() as int);
        }
        assert(live_set(circ, 0) =~= set_int_range(0, inputs as int));
    } else {
        lemma_used_count(circ, n - 1);
        lemma_disjoint_slots(circ, n - 1);
        let gate = gates[n - 1];
        let (x, y, z) = (gate.left(), gate.right(), gate.out());
        assert(gate_ok(inputs, circ.feeds(), gates, n - 1));
        let (before, after) = (live_set(circ, n - 1), live_set(circ, n));
        let (s, t) = (slots_after(circ, n - 1), slots_after(circ, n));
        lemma_operands_live(circ, n);
        assert(!before.contains(z));
        let all = before.insert(z);
        assert(all =~= used_together(circ, n - 1)) by {
            assert forall|w: int| before.contains(w) == in_use(circ, n - 1, w) by {
                lemma_live(circ, n - 1, w);
            }
        }
        assert(all.len() == before.len() + 1);
        let (dx, dy) = (dies_at(circ, x, n - 1), y != x && dies_at(circ, y, n - 1));
        let one = if dx {
            all.remove(x)
        } else {
            all
        };
        let two = if dy {
            one.remove(y)
        } else {
            one
        };
        assert(all.contains(x) && all.contains(y));
        assert forall|w: int| after.contains(w) == two.contains(w) by {
            lemma_last_read_bound(gates, w, gates.len() as int);
            if w != z {
                assert(driven(inputs, gates, n, w) == driven(inputs, gates, n - 1, w)) by {
                    if driven(inputs, gates, n, w) && !(0 <= w < inputs) {
                        let i = choose|i: int| 0 <= i < n && (#[trigger] gates[i]).out() == w;
                        assert(i < n - 1);
                    }
                    if driven(inputs, gates, n - 1, w) {
                        lemma_driven_later(inputs, gates, n - 1, n, w);
                    }
                }
                if last_read(gates, w, gates.len() as int) == Some(n - 1) {
                    assert(gates[n - 1].reads(w));
                }
            }
        }
        assert(after =~= two);
        assert(used_together(circ, n - 1).len() == before.len() + 1);
        if s.free.len() == 0 {
            assert(t.count == s.count + 1);
        } else {
            assert(t.count == s.count);
            if s.count != inputs {
                let k = choose|k: int|
                    0 <= k < n - 1 && (#[trigger] used_together(circ, k)).len() == s.count;
                assert(used_together(circ, k).len() == t.count);
            }
        }
    }
}

/// When a gate comes up, its operands are live; behind it, its result is.
proof fn lemma_operands_live(circ: &Circuit, n: int)
    requires
        circ.wf(),
        0 < n <= circ.gate_seq().len(),
    ensures
        live(circ, n - 1, circ.gate_seq()[n - 1].left()),
        live(circ, n - 1, circ.gate_seq()[n - 1].right()),
        !live(circ, n - 1, circ.gate_seq()[n - 1].out()),
        live(circ, n, circ.gate_seq()[n - 1].out()),
{
    let gates = circ.gate_seq();
    let inputs = circ.input_len();
    let len = gates.len() as int;
    let gate = gates[n - 1];
    let (x, y, z) = (gate.left(), gate.right(), gate.out());
    circ.lemma_wf();
    assert(gate_ok(inputs, circ.feeds(), gates, n - 1));
    lemma_last_read_bound(gates, x, len);
    lemma_last_read_bound(gates, y, len);
    lemma_last_read_bound(gates, z, len);
    assert(gate.reads(x) && gate.reads(y));
    assert(gates[n - 1].out() == z);
    if let Some(i) = last_read(gates, z, len) {
        if i < n {
            assert(gate_ok(inputs, circ.feeds(), gates, i));
            lemma_driven_later(inputs, gates, i, n - 1, z);
        }
    }
}

/// There are as many slots as wires are in use at once, with the result of a gate, at most.
pub proof fn lemma_most_used(circ: &Circuit)
    requires
        circ.wf(),
    ensures
        is_most_used(circ, slots_after(circ, circ.gate_seq().len() as int).count),
{
    lemma_used_count(circ, circ.gate_seq().len() as int);
}

/// Storing label `i` in slot `i` puts the labels in order.
proof fn lemma_stored(buffer: Seq<Block>, slots: Seq<usize>, labels: Seq<Block>, n: int)
    requires
        0 <= n <= labels.len(),
        n <= buffer.len(),
        n <= slots.len(),
        forall|i: int| 0 <= i < n ==> #[trigger] slots[i] == i,
    ensures
        stored(buffer, slots, labels, n).len() == buffer.len(),
        forall|i: int| 0 <= i < n ==> #[trigger] stored(buffer, slots, labels, n)[i] == labels[i],
    decreases n,
{
    if n > 0 {
        lemma_stored(buffer, slots, labels, n - 1);
        assert(slots[n - 1] == n - 1);
    }
}

/// After the first `n` gates the slot of each live wire holds the wire's label.
proof fn lemma_buffer(
    circ: &Circuit,
    h: TweakFn,
    delta: Block,
    keys: Seq<Key>,
    buffer: Seq<Block>,
    n: int,
)
    requires
        circ.wf(),
        keys.len() == circ.input_len(),
        0 <= n <= circ.gate_seq().len(),
        buffer.len() == slots_after(circ, circ.gate_seq().len() as int).count,
    ensures
        ({
            let gates = circ.gate_seq();
            let slots = slots_after(circ, gates.len() as int).map;
            let init = stored(buffer, slots, key_blocks(keys), keys.len() as int);
            let start = with_inputs(key_blocks(keys), circ.feeds(), Block { bits: 0 });
            let b = remapped_labels(h, delta, gates, slots, init, n);
            let l = garbled_labels(h, delta, gates, start, FIRST_GID as int, n);
            &&& b.len() == buffer.len()
            &&& l.len() == circ.feeds()
            &&& forall|w: int| #[trigger] live(circ, n, w) ==> b[slots[w] as int] == l[w]
            &&& remapped_table(h, delta, gates, slots, init, n) == garbled_table(
                h,
                delta,
                gates,
                start,
                FIRST_GID as int,
                n,
            )
        }),
    decreases n,
{
    let gates = circ.gate_seq();
    let inputs = circ.input_len();
    let len = gates.len() as int;
    let slots = slots_after(circ, len).map;
    let init = stored(buffer, slots, key_blocks(keys), keys.len() as int);
    let start = with_inputs(key_blocks(keys), circ.feeds(), Block { bits: 0 });
    circ.lemma_wf();
    lemma_disjoint_slots(circ, n);
    lemma_disjoint_slots(circ, len);
    lemma_count_grows(circ, n, len);
    let here = slots_after(circ, n);
    assert forall|w: int| #[trigger] live(circ, n, w) implies slots[w] == here.map[w] by {
        lemma_slot_stays(circ, n, len, w);
    }
    if n == 0 {
        assert forall|i: int| 0 <= i < inputs implies #[trigger] slots[i] == i by {
            lemma_slot_stays(circ, 0, len, i);
        }
        lemma_stored(buffer, slots, key_blocks(keys), keys.len() as int);
    } else {
        lemma_buffer(circ, h, delta, keys, buffer, n - 1);
        lemma_disjoint_slots(circ, n - 1);
        let gate = gates[n - 1];
        let (x, y, z) = (gate.left(), gate.right(), gate.out());
        assert(gate_ok(inputs, circ.feeds(), gates, n - 1));
        lemma_operands_live(circ, n);
        let (b0, l0) = (
            remapped_labels(h, delta, gates, slots, init, n - 1),
            garbled_labels(h, delta, gates, start, FIRST_GID as int, n - 1),
        );
        let (b1, l1) = (
            remapped_labels(h, delta, gates, slots, init, n),
            garbled_labels(h, delta, gates, start, FIRST_GID as int, n),
        );
        assert(b0[slots[x] as int] == l0[x]);
        assert(b0[slots[y] as int] == l0[y]);
        assert forall|w: int| #[trigger] live(circ, n, w) implies b1[slots[w] as int] == l1[w] by {
            if w != z {
                assert(slots[w] != slots[z]);
                if !(0 <= w < inputs) {
                    let i = choose|i: int| 0 <= i < n && (#[trigger] gates[i]).out() == w;
                    assert(i < n - 1);
                    assert(gates[i].out() == w);
                }
                assert(live(circ, n - 1, w));
            }
        }
    }
}

/// More gates never need fewer slots.
proof fn lemma_count_grows(circ: &Circuit, n: int, m: int)
    requires
        0 <= n <= m,
    ensures
        slots_after(circ, n).count <= slots_after(circ, m).count,
    decreases m,
{
    if n < m {
        lemma_count_grows(circ, n, m - 1);
    }
}

/// Garbling with remapped wires gives the same encrypted gates and the same output labels as
/// garbling with a slot for each wire, whatever the buffer held before.
pub proof fn lemma_remapped_garbling(
    circ: &Circuit,
    h: TweakFn,
    delta: Block,
    keys: Seq<Key>,
    buffer: Seq<Block>,
)
    requires
        circ.wf(),
        keys.len() == circ.input_len(),
        buffer.len() == slots_after(circ, circ.gate_seq().len() as int).count,
    ensures
        ({
            let gates = circ.gate_seq();
            let n = gates.len() as int;
            let slots = slots_after(circ, n).map;
            let init = stored(buffer, slots, key_blocks(keys), keys.len() as int);
            let start = with_inputs(key_blocks(keys), circ.feeds(), Block { bits: 0 });
            let b = remapped_labels(h, delta, gates, slots, init, n);
            let l = garbled_labels(h, delta, gates, start, FIRST_GID as int, n);
            &&& remapped_table(h, delta, gates, slots, init, n) == garbled_table(
                h,
                delta,
                gates,
                start,
                FIRST_GID as int,
                n,
            )
            &&& forall|w: int|
                circ.out_start() <= w < circ.out_end() ==> b[slots[w] as int] == #[trigger] l[w]
        }),
{
    let gates = circ.gate_seq();
    let n = gates.len() as int;
    circ.lemma_wf();
    lemma_buffer(circ, h, delta, keys, buffer, n);
    let slots = slots_after(circ, n).map;
    let init = stored(buffer, slots, key_blocks(keys), keys.len() as int);
    let start = with_inputs(key_blocks(keys), circ.feeds(), Block { bits: 0 });
    let b = remapped_labels(h, delta, gates, slots, init, n);
    let l = garbled_labels(h, delta, gates, start, FIRST_GID as int, n);
    assert forall|w: int| circ.out_start() <= w < circ.out_end() implies b[slots[w] as int]
        == #[trigger] l[w] by {
        assert(driven(circ.input_len(), gates, n, w));
        lemma_last_read_bound(gates, w, n);
        assert(live(circ, n, w));
    }
}

} // verus!
