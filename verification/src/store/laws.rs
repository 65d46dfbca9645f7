//! What the flushes of a store do to each address.

use vstd::prelude::*;

use crate::correlated::{mac_of, Delta, Mac};
use crate::rng::SeededRng;
use crate::store::auth_gen::{
    decode_received, flush_sent, inputs_sent, labels_of, mask_public, masks_of, masks_sent,
    ranges_decoded, shares_received, shares_sent, slice_decoded, GenMemory,
};
use crate::store::flush::FlushRanges;
use crate::store::keys::{share_error, share_proof};
use crate::store::ranges::{canonical, covers, lemma_offset, offset, Slice};
use crate::store::slots::{
    all_set, flip, flip_ranges, lemma_read_len, piece, read_error, read_ranges, stored, values_at,
    write_ranges, Memory,
};

verus! {

/// What was read of the ranges holds for each range its values.
pub proof fn lemma_read_piece<T>(memory: Memory<T>, ranges: Seq<Slice>, n: nat, k: nat)
    requires
        canonical(ranges),
        k < n <= ranges.len(),
        read_ranges(memory, ranges, n) is Ok,
    ensures
        all_set(memory, ranges[k as int]),
        piece(read_ranges(memory, ranges, n)->Ok_0, ranges, k) == values_at(
            memory,
            ranges[k as int],
        ),
    decreases n,
{
    let last = (n - 1) as nat;
    let values = read_ranges(memory, ranges, n)->Ok_0;
    let before = read_ranges(memory, ranges, last)->Ok_0;
    lemma_read_len(memory, ranges, last);
    lemma_read_len(memory, ranges, n);
    assert(read_error(memory, ranges[last as int]) is None);
    if k == last {
        assert(piece(values, ranges, k) =~= values_at(memory, ranges[k as int]));
    } else {
        lemma_read_piece(memory, ranges, last, k);
        lemma_offset(ranges.take(last as int), k + 1);
        lemma_offset_prefix(ranges, last, k + 1);
        lemma_offset_prefix(ranges, last, last);
        assert(piece(values, ranges, k) =~= piece(before, ranges, k));
    }
}

/// The addresses of the first ranges are counted from these alone.
proof fn lemma_offset_prefix(ranges: Seq<Slice>, m: nat, n: nat)
    requires
        n <= m <= ranges.len(),
    ensures
        offset(ranges.take(m as int), n) == offset(ranges, n),
    decreases n,
{
    if n > 0 {
        lemma_offset_prefix(ranges, m, (n - 1) as nat);
    }
}

/// Whether one of the first `n` ranges holds an address.
pub open spec fn in_first(ranges: Seq<Slice>, n: nat, i: int) -> bool {
    exists|k: int| 0 <= k < n && (#[trigger] ranges[k]).has(i)
}

/// One range more.
proof fn lemma_in_first(ranges: Seq<Slice>, n: nat, i: int)
    requires
        n > 0,
    ensures
        in_first(ranges, n, i) == (in_first(ranges, (n - 1) as nat, i) || ranges[n - 1].has(i)),
{
    if in_first(ranges, n, i) && !ranges[n - 1].has(i) {
        let k = choose|k: int| 0 <= k < n && (#[trigger] ranges[k]).has(i);
        assert(k < n - 1);
    }
}

/// An address is in at most one of the ranges.
proof fn lemma_one_range(ranges: Seq<Slice>, n: nat, i: int)
    requires
        canonical(ranges),
        0 < n <= ranges.len(),
        ranges[n - 1].has(i),
    ensures
        !in_first(ranges, (n - 1) as nat, i),
{
    if in_first(ranges, (n - 1) as nat, i) {
        let k = choose|k: int| 0 <= k < n - 1 && (#[trigger] ranges[k]).has(i);
        assert(ranges[k].end < ranges[n - 1].start);
    }
}

/// Writing to ranges what was read of them elsewhere copies the values of each address, and leaves
/// the other addresses alone.
pub proof fn lemma_ranges_copied<T>(
    memory: Memory<T>,
    source: Memory<T>,
    ranges: Seq<Slice>,
    n: nat,
    i: int,
)
    requires
        canonical(ranges),
        n <= ranges.len(),
        read_ranges(source, ranges, ranges.len()) is Ok,
        ({
            let values = read_ranges(source, ranges, ranges.len())->Ok_0;
            write_ranges(memory, ranges, values, n).1 is None
        }),
        0 <= i < memory.len(),
    ensures
        ({
            let values = read_ranges(source, ranges, ranges.len())->Ok_0;
            let after = write_ranges(memory, ranges, values, n).0;
            &&& after.len() == memory.len()
            &&& after[i] == if in_first(ranges, n, i) {
                source[i]
            } else {
                memory[i]
            }
            &&& in_first(ranges, n, i) ==> source[i] is Some && memory[i] is None
        }),
    decreases n,
{
    if n > 0 {
        let last = (n - 1) as nat;
        lemma_ranges_copied(memory, source, ranges, last, i);
        lemma_in_first(ranges, n, i);
        lemma_read_piece(source, ranges, ranges.len(), last);
        let values = read_ranges(source, ranges, ranges.len())->Ok_0;
        let before = write_ranges(memory, ranges, values, last).0;
        let slice = ranges[last as int];
        assert(stored(before, slice, piece(values, ranges, last)).1 is None);
        if slice.has(i) {
            lemma_one_range(ranges, n, i);
            assert(before[i] is None);
            assert(source[i] is Some);
        }
    }
}

/// Masking public values: the masks are copied and the values added.
pub proof fn lemma_public_masked(
    masked: Memory<bool>,
    source: Memory<bool>,
    data: Memory<bool>,
    ranges: Seq<Slice>,
    n: nat,
    i: int,
)
    requires
        canonical(ranges),
        n <= ranges.len(),
        read_ranges(source, ranges, ranges.len()) is Ok,
        mask_public(
            masked,
            data,
            ranges,
            read_ranges(source, ranges, ranges.len())->Ok_0,
            n,
        ).1 is None,
        0 <= i < masked.len(),
    ensures
        ({
            let bits = read_ranges(source, ranges, ranges.len())->Ok_0;
            let after = mask_public(masked, data, ranges, bits, n).0;
            &&& after.len() == masked.len()
            &&& after[i] == if in_first(ranges, n, i) {
                Some(source[i]->0 != data[i]->0)
            } else {
                masked[i]
            }
            &&& in_first(ranges, n, i) ==> source[i] is Some && data[i] is Some && masked[i] is None
        }),
    decreases n,
{
    if n > 0 {
        let last = (n - 1) as nat;
        lemma_public_masked(masked, source, data, ranges, last, i);
        lemma_in_first(ranges, n, i);
        lemma_read_piece(source, ranges, ranges.len(), last);
        let bits = read_ranges(source, ranges, ranges.len())->Ok_0;
        let before = mask_public(masked, data, ranges, bits, last).0;
        let slice = ranges[last as int];
        let set = stored(before, slice, piece(bits, ranges, last)).0;
        assert(stored(before, slice, piece(bits, ranges, last)).1 is None);
        assert(read_error(data, slice) is None);
        assert(flip(set, slice, values_at(data, slice)).1 is None);
        if slice.has(i) {
            lemma_one_range(ranges, n, i);
            assert(before[i] is None);
            assert(source[i] is Some && data[i] is Some);
        }
    }
}

/// Masking the generator's inputs: the masked value is the mask plus the value.
pub proof fn lemma_inputs_masked(memory: GenMemory, ranges: Seq<Slice>, n: nat, i: int)
    requires
        canonical(ranges),
        n <= ranges.len(),
        inputs_sent(memory, ranges, n).1 is Ok,
        0 <= i < memory.masked.len(),
    ensures
        ({
            let after = inputs_sent(memory, ranges, n).0;
            &&& after == (GenMemory { masked: after.masked, ..memory })
            &&& after.masked.len() == memory.masked.len()
            &&& after.masked[i] == if in_first(ranges, n, i) {
                Some(memory.mask_bits[i]->0 != memory.data[i]->0)
            } else {
                memory.masked[i]
            }
            &&& in_first(ranges, n, i) ==> memory.mask_bits[i] is Some && memory.data[i] is Some
                && memory.masked[i] is None
        }),
    decreases n,
{
    if n > 0 {
        let last = (n - 1) as nat;
        lemma_inputs_masked(memory, ranges, last, i);
        lemma_in_first(ranges, n, i);
        let before = inputs_sent(memory, ranges, last).0;
        let slice = ranges[last as int];
        assert(read_error(before.mask_bits, slice) is None);
        assert(read_error(before.data, slice) is None);
        if slice.has(i) {
            lemma_one_range(ranges, n, i);
            assert(before.mask_bits[i] is Some && before.data[i] is Some);
            assert(before.masked[i] is None);
        }
    }
}

/// Flipping ranges by bits adds to each address its bit, and leaves the other addresses alone.
pub proof fn lemma_ranges_flipped(
    memory: Memory<bool>,
    ranges: Seq<Slice>,
    bits: Seq<bool>,
    n: nat,
    k: nat,
    i: int,
)
    requires
        canonical(ranges),
        k <= n <= ranges.len(),
        offset(ranges, ranges.len()) <= bits.len(),
        flip_ranges(memory, ranges, bits, n).1 is None,
        0 <= i < memory.len(),
        k < n ==> ranges[k as int].has(i),
        k == n ==> !in_first(ranges, n, i),
    ensures
        ({
            let after = flip_ranges(memory, ranges, bits, n).0;
            &&& after.len() == memory.len()
            &&& after[i] == if k < n {
                Some(memory[i]->0 != bits[offset(ranges, k) + i - ranges[k as int].start])
            } else {
                memory[i]
            }
            &&& k < n ==> memory[i] is Some
        }),
    decreases n,
{
    if n > 0 {
        let last = (n - 1) as nat;
        let slice = ranges[last as int];
        lemma_in_first(ranges, n, i);
        lemma_offset(ranges, n);
        let before = flip_ranges(memory, ranges, bits, last).0;
        assert(flip(before, slice, piece(bits, ranges, last)).1 is None);
        if k == last {
            lemma_one_range(ranges, n, i);
            lemma_ranges_flipped(memory, ranges, bits, last, last, i);
            assert(before[i] is Some);
            assert(piece(bits, ranges, last)[i - slice.start] == bits[offset(ranges, last) + i
                - slice.start]);
        } else if k < last {
            assert(ranges[k as int].end < slice.start);
            lemma_ranges_flipped(memory, ranges, bits, last, k, i);
        } else {
            lemma_ranges_flipped(memory, ranges, bits, last, last, i);
        }
    }
}

/// Decoding ranges: the value of an address is its bit, plus the masked value, plus the
/// generator's mask.
pub proof fn lemma_ranges_decoded(
    memory: GenMemory,
    ranges: Seq<Slice>,
    bits: Seq<bool>,
    n: nat,
    k: nat,
    i: int,
)
    requires
        canonical(ranges),
        k <= n <= ranges.len(),
        offset(ranges, ranges.len()) <= bits.len(),
        ranges_decoded(memory, ranges, bits, n).1 is None,
        0 <= i < memory.data.len(),
        k < n ==> ranges[k as int].has(i),
        k == n ==> !in_first(ranges, n, i),
    ensures
        ({
            let after = ranges_decoded(memory, ranges, bits, n).0;
            &&& after == (GenMemory { data: after.data, ..memory })
            &&& after.data.len() == memory.data.len()
            &&& k < n ==> {
                &&& memory.data[i] is None
                &&& memory.masked[i] is Some
                &&& memory.mask_bits[i] is Some
                &&& after.data[i] == Some(
                    (bits[offset(ranges, k) + i - ranges[k as int].start] != memory.masked[i]->0)
                        != memory.mask_bits[i]->0,
                )
            }
            &&& k == n ==> after.data[i] == memory.data[i]
        }),
    decreases n,
{
    if n > 0 {
        let last = (n - 1) as nat;
        let slice = ranges[last as int];
        lemma_in_first(ranges, n, i);
        lemma_offset(ranges, n);
        let before = ranges_decoded(memory, ranges, bits, last).0;
        let own = piece(bits, ranges, last);
        assert(slice_decoded(before, slice, own).1 is None);
        assert(stored(before.data, slice, own).1 is None);
        let first = stored(before.data, slice, own).0;
        assert(read_error(before.masked, slice) is None);
        assert(read_error(before.mask_bits, slice) is None);
        let second = flip(first, slice, values_at(before.masked, slice)).0;
        assert(flip(first, slice, values_at(before.masked, slice)).1 is None);
        assert(flip(second, slice, values_at(before.mask_bits, slice)).1 is None);
        if k == last {
            lemma_one_range(ranges, n, i);
            lemma_ranges_decoded(memory, ranges, bits, last, last, i);
            assert(before.data[i] is None);
            assert(before.masked[i] is Some && before.mask_bits[i] is Some);
            assert(own[i - slice.start] == bits[offset(ranges, last) + i - slice.start]);
        } else if k < last {
            assert(ranges[k as int].end < slice.start);
            lemma_ranges_decoded(memory, ranges, bits, last, k, i);
        } else {
            lemma_ranges_decoded(memory, ranges, bits, last, last, i);
        }
    }
}

/// The label of each address is the MAC of its masked value under its key.
pub proof fn lemma_labels(memory: GenMemory, delta: Delta, ranges: Seq<Slice>, n: nat, k: nat, i: int)
    requires
        canonical(ranges),
        k < n <= ranges.len(),
        labels_of(memory, delta, ranges, n) is Ok,
        ranges[k as int].has(i),
    ensures
        ({
            let labels = labels_of(memory, delta, ranges, n)->Ok_0;
            let at = offset(ranges, k) + i - ranges[k as int].start;
            &&& labels.len() == offset(ranges, n)
            &&& at < labels.len()
            &&& memory.keys[i] is Some
            &&& memory.masked[i] is Some
            &&& labels[at] == mac_of(memory.keys[i]->0, memory.masked[i]->0, delta)
        }),
    decreases n,
{
    let last = (n - 1) as nat;
    let slice = ranges[last as int];
    lemma_labels_len(memory, delta, ranges, last);
    assert(read_error(memory.masked, slice) is None);
    assert(read_error(memory.keys, slice) is None);
    if k < last {
        lemma_labels(memory, delta, ranges, last, k, i);
    } else {
        assert(memory.keys[i] is Some && memory.masked[i] is Some);
    }
}

proof fn lemma_labels_len(memory: GenMemory, delta: Delta, ranges: Seq<Slice>, n: nat)
    requires
        n <= ranges.len(),
    ensures
        labels_of(memory, delta, ranges, n) matches Ok(labels) ==> labels.len() == offset(
            ranges,
            n,
        ),
    decreases n,
{
    if n > 0 {
        lemma_labels_len(memory, delta, ranges, (n - 1) as nat);
    }
}

/// A flush that is sent masks the inputs: those of the evaluator start with the generator's mask,
/// those of the generator and public ones with the mask plus the value; all other masked values,
/// and all values, keys and MACs stay as they are.
pub proof fn lemma_flush_masks(
    memory: GenMemory,
    rng: SeededRng,
    delta: Delta,
    view: FlushRanges,
    i: int,
)
    requires
        canonical(view.eval_reveal),
        canonical(view.public_decode),
        canonical(view.gen_reveal),
        flush_sent(memory, rng, delta, view).2 is Ok,
        0 <= i < memory.masked.len(),
    ensures
        ({
            let after = flush_sent(memory, rng, delta, view).0;
            let (mask, value) = (after.mask_bits[i], after.data[i]);
            &&& after.keys == memory.keys
            &&& after.mask_macs == memory.mask_macs
            &&& after.data == memory.data
            &&& if covers(view.gen_reveal, i) || covers(view.public_decode, i) {
                &&& mask is Some && value is Some
                &&& memory.masked[i] is None
                &&& after.masked[i] == Some(mask->0 != value->0)
            } else if covers(view.eval_reveal, i) {
                &&& mask is Some
                &&& memory.masked[i] is None
                &&& after.masked[i] == mask
            } else {
                after.masked[i] == memory.masked[i]
            }
        }),
{
    let masks = masks_of(view);
    let (first, rng1, sent) = masks_sent(memory, rng, masks);
    let (eval, public, gen) = (view.eval_reveal, view.public_decode, view.gen_reveal);
    let (second, shares) = shares_sent(first, eval, public);
    lemma_all_ranges(eval, i);
    lemma_all_ranges(public, i);
    lemma_all_ranges(gen, i);
    if eval.len() > 0 || public.len() > 0 {
        let (bits1, macs1) = share_proof(first.mask_bits, first.mask_macs, eval)->Ok_0;
        let (bits2, macs2) = share_proof(first.mask_bits, first.mask_macs, public)->Ok_0;
        let masked = write_ranges(first.masked, eval, bits1, eval.len()).0;
        lemma_ranges_copied(first.masked, first.mask_bits, eval, eval.len(), i);
        lemma_public_masked(masked, first.mask_bits, first.data, public, public.len(), i);
    }
    lemma_inputs_masked(second, gen, gen.len(), i);
}

/// A set covers what its ranges hold.
proof fn lemma_all_ranges(ranges: Seq<Slice>, i: int)
    ensures
        covers(ranges, i) == in_first(ranges, ranges.len(), i),
{
}

/// A flush that is sent carries the labels of its masked values.
pub proof fn lemma_flush_labels(
    memory: GenMemory,
    rng: SeededRng,
    delta: Delta,
    view: FlushRanges,
    k: nat,
    i: int,
)
    requires
        canonical(view.labels),
        flush_sent(memory, rng, delta, view).2 is Ok,
        k < view.labels.len(),
        view.labels[k as int].has(i),
    ensures
        ({
            let (after, _, sent) = flush_sent(memory, rng, delta, view);
            let at = offset(view.labels, k) + i - view.labels[k as int].start;
            &&& after.keys[i] is Some
            &&& after.masked[i] is Some
            &&& at < sent->Ok_0.labels.len()
            &&& sent->Ok_0.labels[at] == mac_of(after.keys[i]->0, after.masked[i]->0, delta)
        }),
{
    let (after, _, sent) = flush_sent(memory, rng, delta, view);
    lemma_labels(after, delta, view.labels, view.labels.len(), k, i);
}

/// Decoding gives back the value: where a masked value is the value plus the masks of both parties,
/// and the evaluator shows its mask, the value is what is decoded.
pub proof fn lemma_decoding_gives_value(
    memory: GenMemory,
    delta: Delta,
    ranges: Seq<Slice>,
    bits: Seq<bool>,
    macs: Seq<Mac>,
    k: nat,
    i: int,
    value: bool,
)
    requires
        canonical(ranges),
        decode_received(memory, delta, ranges, Some((bits, macs))).1 is None,
        k < ranges.len(),
        ranges[k as int].has(i),
        memory.masked[i] == Some(
            (value != memory.mask_bits[i]->0) != bits[offset(ranges, k) + i
                - ranges[k as int].start],
        ),
    ensures
        ({
            let after = decode_received(memory, delta, ranges, Some((bits, macs))).0;
            0 <= i < after.data.len() ==> after.data[i] == Some(value)
        }),
{
    assert(share_error(memory.mask_keys, ranges, bits, macs, delta) is None);
    lemma_read_len(memory.mask_keys, ranges, ranges.len());
    let after = decode_received(memory, delta, ranges, Some((bits, macs))).0;
    lemma_decoded_size(memory, ranges, bits, ranges.len());
    if 0 <= i < after.data.len() {
        lemma_ranges_decoded(memory, ranges, bits, ranges.len(), k, i);
    }
}

proof fn lemma_decoded_size(memory: GenMemory, ranges: Seq<Slice>, bits: Seq<bool>, n: nat)
    ensures
        ranges_decoded(memory, ranges, bits, n).0.data.len() == memory.data.len(),
    decreases n,
{
    if n > 0 {
        lemma_decoded_size(memory, ranges, bits, (n - 1) as nat);
    }
}

/// The evaluator's shares complete the masked values of the generator's inputs: once they are
/// received, each holds what it held plus the evaluator's bit, and the bit's MAC was valid.
pub proof fn lemma_shares_complete_masks(
    memory: GenMemory,
    delta: Delta,
    gen_reveal: Seq<Slice>,
    public: Seq<Slice>,
    bits: Seq<bool>,
    macs: Seq<Mac>,
    k: nat,
    i: int,
)
    requires
        canonical(gen_reveal),
        canonical(public),
        shares_received(memory, delta, gen_reveal, public, Some((bits, macs))).1 is None,
        bits.len() >= offset(gen_reveal, gen_reveal.len()),
        macs.len() >= offset(gen_reveal, gen_reveal.len()),
        bits.len() <= usize::MAX,
        k < gen_reveal.len(),
        gen_reveal[k as int].has(i),
        !covers(public, i),
        0 <= i < memory.masked.len(),
    ensures
        ({
            let after = shares_received(memory, delta, gen_reveal, public, Some((bits, macs))).0;
            let at = offset(gen_reveal, k) + i - gen_reveal[k as int].start;
            &&& memory.masked[i] is Some
            &&& after.masked[i] == Some(memory.masked[i]->0 != bits[at])
            &&& memory.mask_keys[i] is Some
            &&& macs[at] == mac_of(memory.mask_keys[i]->0, bits[at], delta)
        }),
{
    let n = offset(gen_reveal, gen_reveal.len());
    let (bits1, macs1) = (bits.take(n as int), macs.take(n as int));
    let at = offset(gen_reveal, k) + i - gen_reveal[k as int].start;
    lemma_offset(gen_reveal, k + 1);
    let masked = flip_ranges(memory.masked, gen_reveal, bits1, gen_reveal.len()).0;
    lemma_ranges_flipped(memory.masked, gen_reveal, bits1, gen_reveal.len(), k, i);
    lemma_read_len(memory.mask_keys, public, public.len());
    lemma_all_ranges(public, i);
    lemma_ranges_flipped(
        masked,
        public,
        bits.skip(n as int),
        public.len(),
        public.len(),
        i,
    );
    let keys = read_ranges(memory.mask_keys, gen_reveal, gen_reveal.len())->Ok_0;
    lemma_read_len(memory.mask_keys, gen_reveal, gen_reveal.len());
    lemma_read_piece(memory.mask_keys, gen_reveal, gen_reveal.len(), k);
    crate::store::keys::lemma_first_invalid(keys, bits1, macs1, delta, keys.len());
    assert(piece(keys, gen_reveal, k)[i - gen_reveal[k as int].start] == keys[at]);
    assert(values_at(memory.mask_keys, gen_reveal[k as int])[i - gen_reveal[k as int].start]
        == memory.mask_keys[i]->0);
    assert(macs1[at] == mac_of(keys[at], bits1[at], delta));
}

} // verus!
