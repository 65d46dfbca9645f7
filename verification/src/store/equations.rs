//! What a flush holds, and what is checked of one: each bit, key, MAC and label by its address.

use vstd::prelude::*;

use crate::correlated::{mac_of, Delta, Key, Mac};
use crate::rng::SeededRng;
use crate::store::auth_gen::{
    are_decoded, choices_sent, contents_sent, decodable, decode_received, decode_shares, flush_made, flush_received, flush_sent, inputs_received,
    inputs_sent, keys_drawn, keys_sent, label_bits, lemma_label_bits, macs_received, masks_of, masks_sent, masks_set,
    output_set, outputs_received, shares_received, shares_sent, undecodable, Decoded, GenMemory,
};
use crate::store::flush::FlushRanges;
use crate::store::keys::{lemma_first_invalid, share_error, share_proof};
use crate::store::laws::{lemma_ranges_flipped, lemma_read_piece};
use crate::store::ranges::{canonical, lemma_offset, offset, Slice};
use crate::store::slots::{
    all_set, flip_error, lemma_read_len, piece, read_error, read_ranges, stored, values_at, write_each, write_ranges,
    Memory,
};

verus! {

/// The place of an address among those of the ranges; range `k` holds it.
pub open spec fn place(ranges: Seq<Slice>, k: nat, i: int) -> int {
    offset(ranges, k) + i - ranges[k as int].start
}

/// Reading ranges gives the value of each address at its place.
pub proof fn lemma_read_at<T>(memory: Memory<T>, ranges: Seq<Slice>, k: nat, i: int)
    requires
        canonical(ranges),
        read_ranges(memory, ranges, ranges.len()) is Ok,
        k < ranges.len(),
        ranges[k as int].has(i),
    ensures
        ({
            let values = read_ranges(memory, ranges, ranges.len())->Ok_0;
            let at = place(ranges, k, i);
            &&& values.len() == offset(ranges, ranges.len())
            &&& 0 <= at < values.len()
            &&& memory[i] == Some(values[at])
        }),
{
    let values = read_ranges(memory, ranges, ranges.len())->Ok_0;
    let slice = ranges[k as int];
    lemma_read_len(memory, ranges, ranges.len());
    lemma_read_piece(memory, ranges, ranges.len(), k);
    lemma_offset(ranges, k + 1);
    assert(piece(values, ranges, k)[i - slice.start] == values[place(ranges, k, i)]);
    assert(values_at(memory, slice)[i - slice.start] == memory[i]->0);
    assert(memory[i] is Some);
}

/// Writing ranges sets each address to the value at its place, where nothing was set.
pub proof fn lemma_written_at<T>(
    memory: Memory<T>,
    ranges: Seq<Slice>,
    values: Seq<T>,
    n: nat,
    k: nat,
    i: int,
)
    requires
        canonical(ranges),
        k < n <= ranges.len(),
        offset(ranges, ranges.len()) <= values.len(),
        write_ranges(memory, ranges, values, n).1 is None,
        ranges[k as int].has(i),
    ensures
        ({
            let after = write_ranges(memory, ranges, values, n).0;
            let at = place(ranges, k, i);
            &&& 0 <= i < after.len()
            &&& 0 <= at < values.len()
            &&& after[i] == Some(values[at])
        }),
    decreases n,
{
    let last = (n - 1) as nat;
    let slice = ranges[last as int];
    lemma_offset(ranges, n);
    lemma_offset(ranges, k + 1);
    let before = write_ranges(memory, ranges, values, last).0;
    assert(stored(before, slice, piece(values, ranges, last)).1 is None);
    if k < last {
        lemma_written_at(memory, ranges, values, last, k, i);
        assert(ranges[k as int].end < slice.start);
    } else {
        assert(piece(values, ranges, last)[i - slice.start] == values[place(ranges, k, i)]);
    }
}

/// Shares of the other party that are not refused are right: every bit has the MAC under the key that
/// is held for its address.
pub proof fn lemma_shares_checked(
    keys: Memory<Key>,
    ranges: Seq<Slice>,
    bits: Seq<bool>,
    macs: Seq<Mac>,
    delta: Delta,
    k: nat,
    i: int,
)
    requires
        canonical(ranges),
        share_error(keys, ranges, bits, macs, delta) is None,
        k < ranges.len(),
        ranges[k as int].has(i),
    ensures
        ({
            let at = place(ranges, k, i);
            &&& 0 <= at < bits.len() == macs.len() == offset(ranges, ranges.len())
            &&& keys[i] is Some
            &&& macs[at] == mac_of(keys[i]->0, bits[at], delta)
        }),
{
    lemma_read_at(keys, ranges, k, i);
    let held = read_ranges(keys, ranges, ranges.len())->Ok_0;
    lemma_offset(ranges, ranges.len());
    lemma_first_invalid(held, bits, macs, delta, held.len());
    assert(macs[place(ranges, k, i)] == mac_of(
        held[place(ranges, k, i)],
        bits[place(ranges, k, i)],
        delta,
    ));
}

/// A share with a wrong MAC is refused.
pub proof fn lemma_wrong_share_refused(
    keys: Memory<Key>,
    ranges: Seq<Slice>,
    bits: Seq<bool>,
    macs: Seq<Mac>,
    delta: Delta,
    k: nat,
    i: int,
)
    requires
        canonical(ranges),
        k < ranges.len(),
        ranges[k as int].has(i),
        keys[i] matches Some(key) ==> macs[place(ranges, k, i)] != mac_of(
            key,
            bits[place(ranges, k, i)],
            delta,
        ),
    ensures
        share_error(keys, ranges, bits, macs, delta) is Some,
{
    if share_error(keys, ranges, bits, macs, delta) is None {
        lemma_shares_checked(keys, ranges, bits, macs, delta, k, i);
    }
}

/// What holds of a flush of the evaluator that is taken: the shares that it shows have the MACs under
/// the generator's keys, the label of an output is that of the masked value that the generator then
/// holds, and the MACs of the oblivious transfers are kept for the masks.
pub proof fn lemma_flush_checked(
    memory: GenMemory,
    delta: Delta,
    view: FlushRanges,
    macs: Option<Seq<Mac>>,
    shares: Option<(Seq<bool>, Seq<Mac>)>,
    inputs: Seq<bool>,
    labels: Seq<Mac>,
    decode: Option<(Seq<bool>, Seq<Mac>)>,
    k: nat,
    i: int,
)
    requires
        canonical(masks_of(view)),
        canonical(view.gen_reveal),
        canonical(view.public_decode),
        canonical(view.decode_info),
        canonical(view.eval_decode),
        labels.len() >= offset(view.decode_info, view.decode_info.len()),
        labels.len() <= usize::MAX,
        macs matches Some(macs) ==> macs.len() >= offset(
            masks_of(view),
            masks_of(view).len(),
        ),
        shares matches Some((bits, proofs)) ==> bits.len() >= offset(
            view.gen_reveal,
            view.gen_reveal.len(),
        ) && proofs.len() >= offset(view.gen_reveal, view.gen_reveal.len()),
        flush_received(memory, delta, view, macs, shares, inputs, labels, decode).1 is None,
    ensures
        ({
            let after = flush_received(
                memory,
                delta,
                view,
                macs,
                shares,
                inputs,
                labels,
                decode,
            ).0;
            let keys = memory.mask_keys;
            let n = offset(view.gen_reveal, view.gen_reveal.len());
            &&& macs matches Some(macs) ==> (k < masks_of(view).len() && masks_of(
                view,
            )[k as int].has(i) ==> after.mask_macs[i] == Some(
                macs[place(masks_of(view), k, i)],
            ))
            &&& shares matches Some((bits, proofs)) ==> (k < view.gen_reveal.len()
                && view.gen_reveal[k as int].has(i) ==> keys[i] is Some && proofs[place(
                view.gen_reveal,
                k,
                i,
            )] == mac_of(keys[i]->0, bits[place(view.gen_reveal, k, i)], delta))
            &&& shares matches Some((bits, proofs)) ==> (k < view.public_decode.len()
                && view.public_decode[k as int].has(i) ==> keys[i] is Some && proofs[n + place(
                view.public_decode,
                k,
                i,
            )] == mac_of(keys[i]->0, bits[n + place(view.public_decode, k, i)], delta))
            &&& decode matches Some((bits, proofs)) ==> (k < view.eval_decode.len()
                && view.eval_decode[k as int].has(i) ==> keys[i] is Some && proofs[place(
                view.eval_decode,
                k,
                i,
            )] == mac_of(keys[i]->0, bits[place(view.eval_decode, k, i)], delta))
            &&& k < view.decode_info.len() && view.decode_info[k as int].has(i)
                ==> memory.keys[i] is Some && after.masked[i] is Some && labels[place(
                view.decode_info,
                k,
                i,
            )] == mac_of(memory.keys[i]->0, after.masked[i]->0, delta)
        }),
{
    let masks = masks_of(view);
    let (m1, _) = macs_received(memory, masks, macs);
    let (m2, _) = shares_received(m1, delta, view.gen_reveal, view.public_decode, shares);
    let (m3, _) = inputs_received(m2, view.eval_reveal, inputs);
    let (m4, _) = outputs_received(m3, delta, view.decode_info, labels);
    lemma_decoded_frame(m4, delta, view.eval_decode, decode);
    if let Some(macs) = macs {
        if k < masks.len() && masks[k as int].has(i) {
            lemma_written_at(memory.mask_macs, masks, macs, masks.len(), k, i);
        }
    }
    if let Some((bits, proofs)) = shares {
        let n = offset(view.gen_reveal, view.gen_reveal.len()) as int;
        if k < view.gen_reveal.len() && view.gen_reveal[k as int].has(i) {
            lemma_shares_checked(
                memory.mask_keys,
                view.gen_reveal,
                bits.take(n),
                proofs.take(n),
                delta,
                k,
                i,
            );
        }
        if k < view.public_decode.len() && view.public_decode[k as int].has(i) {
            lemma_shares_checked(
                memory.mask_keys,
                view.public_decode,
                bits.skip(n),
                proofs.skip(n),
                delta,
                k,
                i,
            );
        }
    }
    if let Some((bits, proofs)) = decode {
        if k < view.eval_decode.len() && view.eval_decode[k as int].has(i) {
            lemma_shares_checked(memory.mask_keys, view.eval_decode, bits, proofs, delta, k, i);
        }
    }
    if k < view.decode_info.len() && view.decode_info[k as int].has(i) {
        lemma_outputs_labelled(m3, delta, view.decode_info, labels, k, i);
    }
}

/// Decoding touches nothing but the values.
proof fn lemma_decoded_frame(
    memory: GenMemory,
    delta: Delta,
    ranges: Seq<Slice>,
    shares: Option<(Seq<bool>, Seq<Mac>)>,
)
    ensures
        ({
            let after = decode_received(memory, delta, ranges, shares).0;
            after == (GenMemory { data: after.data, ..memory })
        }),
{
    if let Some((bits, macs)) = shares {
        lemma_ranges_frame(memory, ranges, bits, ranges.len());
    }
}

proof fn lemma_ranges_frame(memory: GenMemory, ranges: Seq<Slice>, bits: Seq<bool>, n: nat)
    ensures
        ({
            let after = crate::store::auth_gen::ranges_decoded(memory, ranges, bits, n).0;
            after == (GenMemory { data: after.data, ..memory })
        }),
    decreases n,
{
    if n > 0 {
        lemma_ranges_frame(memory, ranges, bits, (n - 1) as nat);
    }
}

/// The masked value of an output is the bit that its label stands for.
pub proof fn lemma_outputs_labelled(
    memory: GenMemory,
    delta: Delta,
    ranges: Seq<Slice>,
    labels: Seq<Mac>,
    k: nat,
    i: int,
)
    requires
        canonical(ranges),
        offset(ranges, ranges.len()) <= labels.len() <= usize::MAX,
        outputs_received(memory, delta, ranges, labels).1 is None,
        k < ranges.len(),
        ranges[k as int].has(i),
    ensures
        ({
            let after = outputs_received(memory, delta, ranges, labels).0;
            &&& memory.keys[i] is Some
            &&& after.masked[i] is Some
            &&& labels[place(ranges, k, i)] == mac_of(
                memory.keys[i]->0,
                after.masked[i]->0,
                delta,
            )
            &&& after == (GenMemory { masked: after.masked, ..memory })
        }),
{
    lemma_read_at(memory.keys, ranges, k, i);
    let keys = read_ranges(memory.keys, ranges, ranges.len())->Ok_0;
    lemma_offset(ranges, ranges.len());
    lemma_label_bits(keys, labels, delta, keys.len());
    let bits = label_bits(keys, labels, delta, keys.len())->Ok_0;
    let at = place(ranges, k, i);
    assert(crate::store::auth_gen::label_bit(keys[at], labels[at], delta) == Some(bits[at]));
    lemma_written_at(memory.masked, ranges, bits, ranges.len(), k, i);
}

/// The evaluator's inputs are completed by what it sent of them.
pub proof fn lemma_inputs_completed(
    memory: GenMemory,
    ranges: Seq<Slice>,
    bits: Seq<bool>,
    k: nat,
    i: int,
)
    requires
        canonical(ranges),
        offset(ranges, ranges.len()) <= bits.len(),
        inputs_received(memory, ranges, bits).1 is None,
        k < ranges.len(),
        ranges[k as int].has(i),
        0 <= i < memory.masked.len(),
    ensures
        ({
            let after = inputs_received(memory, ranges, bits).0;
            &&& memory.masked[i] is Some
            &&& after.masked[i] == Some(memory.masked[i]->0 != bits[place(ranges, k, i)])
            &&& after == (GenMemory { masked: after.masked, ..memory })
        }),
{
    lemma_ranges_flipped(memory.masked, ranges, bits, ranges.len(), k, i);
}

/// The masks that a flush makes are drawn: the keys and choices of its oblivious transfers are the
/// next blocks and bits of the store's generator, as many as there are addresses, and are what the
/// store keeps for them. Each range that is set takes all of them.
pub proof fn lemma_masks_drawn(
    memory: GenMemory,
    rng: SeededRng,
    delta: Delta,
    view: FlushRanges,
    k: nat,
    j: int,
)
    requires
        canonical(masks_of(view)),
        flush_sent(memory, rng, delta, view).2 is Ok,
        k < masks_of(view).len(),
    ensures
        ({
            let masks = masks_of(view);
            let n = offset(masks, masks.len());
            let (after, rng_after, sent) = flush_sent(memory, rng, delta, view);
            let (blocks, rng1) = rng.blocks_drawn(n);
            let (bits, rng2) = rng1.bits_drawn(n);
            &&& rng_after == rng2
            &&& sent->Ok_0.cot matches Some((keys, choices)) && {
                &&& keys.len() == n && choices == bits
                &&& 0 <= j < n ==> keys[j].block == blocks[j]
                &&& 0 <= j < n && masks[k as int].has(masks[k as int].start + j) ==> {
                    &&& after.mask_keys[masks[k as int].start + j] == Some(keys[j])
                    &&& after.mask_bits[masks[k as int].start + j] == Some(choices[j])
                }
            }
        }),
{
    let masks = masks_of(view);
    let n = offset(masks, masks.len());
    let (keys, rng1) = keys_drawn(rng, n);
    let (choices, rng2) = rng1.bits_drawn(n);
    rng.lemma_drawn_len(n);
    rng1.lemma_drawn_len(n);
    let (first, _, cot) = masks_sent(memory, rng, masks);
    assert(write_each(memory.mask_keys, masks, keys, masks.len()).1 is None);
    assert(write_each(memory.mask_bits, masks, choices, masks.len()).1 is None);
    lemma_contents_frame(first, delta, view, Some((keys, choices)));
    if 0 <= j < n && masks[k as int].has(masks[k as int].start + j) {
        lemma_each_written(memory.mask_keys, masks, keys, masks.len(), k, j);
        lemma_each_written(memory.mask_bits, masks, choices, masks.len(), k, j);
    }
}

proof fn lemma_each_written<T>(
    memory: Memory<T>,
    ranges: Seq<Slice>,
    values: Seq<T>,
    n: nat,
    k: nat,
    j: int,
)
    requires
        canonical(ranges),
        k < n <= ranges.len(),
        write_each(memory, ranges, values, n).1 is None,
        0 <= j,
        ranges[k as int].has(ranges[k as int].start + j),
    ensures
        write_each(memory, ranges, values, n).0[ranges[k as int].start + j] == Some(values[j]),
    decreases n,
{
    let last = (n - 1) as nat;
    let before = write_each(memory, ranges, values, last).0;
    assert(stored(before, ranges[last as int], values).1 is None);
    if k < last {
        lemma_each_written(memory, ranges, values, last, k, j);
        assert(ranges[k as int].end < ranges[last as int].start);
    }
}

/// Sending what a flush holds touches nothing but the masked values.
proof fn lemma_contents_frame(
    memory: GenMemory,
    delta: Delta,
    view: FlushRanges,
    cot: Option<(Seq<Key>, Seq<bool>)>,
)
    ensures
        ({
            let (after, sent) = contents_sent(memory, delta, view, cot);
            &&& after == (GenMemory { masked: after.masked, ..memory })
            &&& sent matches Ok(contents) ==> contents.cot == cot
        }),
{
    let (m1, _) = shares_sent(memory, view.eval_reveal, view.public_decode);
    lemma_inputs_frame(m1, view.gen_reveal, view.gen_reveal.len());
}

proof fn lemma_inputs_frame(memory: GenMemory, ranges: Seq<Slice>, n: nat)
    ensures
        ({
            let after = inputs_sent(memory, ranges, n).0;
            after == (GenMemory { masked: after.masked, ..memory })
        }),
    decreases n,
{
    if n > 0 {
        lemma_inputs_frame(memory, ranges, (n - 1) as nat);
    }
}

/// The half-masked inputs of a flush are the values of the generator's inputs plus its own masks.
pub proof fn lemma_inputs_shown(memory: GenMemory, ranges: Seq<Slice>, n: nat, k: nat, i: int)
    requires
        canonical(ranges),
        k < n <= ranges.len(),
        inputs_sent(memory, ranges, n).1 is Ok,
        ranges[k as int].has(i),
    ensures
        ({
            let inputs = inputs_sent(memory, ranges, n).1->Ok_0;
            let at = place(ranges, k, i);
            &&& inputs.len() == offset(ranges, n)
            &&& 0 <= at < inputs.len()
            &&& memory.mask_bits[i] is Some && memory.data[i] is Some
            &&& inputs[at] == (memory.mask_bits[i]->0 != memory.data[i]->0)
        }),
    decreases n,
{
    let last = (n - 1) as nat;
    let slice = ranges[last as int];
    lemma_inputs_frame(memory, ranges, last);
    lemma_inputs_len(memory, ranges, last);
    let before = inputs_sent(memory, ranges, last).0;
    assert(read_error(before.mask_bits, slice) is None);
    assert(read_error(before.data, slice) is None);
    if k < last {
        lemma_inputs_shown(memory, ranges, last, k, i);
    } else {
        assert(before.mask_bits[i] is Some && before.data[i] is Some);
    }
}

proof fn lemma_inputs_len(memory: GenMemory, ranges: Seq<Slice>, n: nat)
    ensures
        inputs_sent(memory, ranges, n).1 matches Ok(inputs) ==> inputs.len() == offset(ranges, n),
    decreases n,
{
    if n > 0 {
        lemma_inputs_len(memory, ranges, (n - 1) as nat);
    }
}

/// The shares that a flush shows are the generator's masks with their MACs: those of the evaluator's
/// inputs, then those of public ones; and those of the values that the evaluator decodes.
pub proof fn lemma_shares_shown(
    memory: GenMemory,
    eval_reveal: Seq<Slice>,
    public: Seq<Slice>,
    gen_decode: Seq<Slice>,
    k: nat,
    i: int,
)
    requires
        canonical(eval_reveal),
        canonical(public),
        canonical(gen_decode),
    ensures
        shares_sent(memory, eval_reveal, public).1 matches Ok(shown) ==> {
            let n = offset(eval_reveal, eval_reveal.len());
            &&& shown is None <==> eval_reveal.len() == 0 && public.len() == 0
            &&& k < eval_reveal.len() && eval_reveal[k as int].has(i) ==> {
                &&& memory.mask_bits[i] == Some((shown->0).0[place(eval_reveal, k, i)])
                &&& memory.mask_macs[i] == Some((shown->0).1[place(eval_reveal, k, i)])
            }
            &&& k < public.len() && public[k as int].has(i) ==> {
                &&& memory.mask_bits[i] == Some((shown->0).0[n + place(public, k, i)])
                &&& memory.mask_macs[i] == Some((shown->0).1[n + place(public, k, i)])
            }
        },
        decode_shares(memory, gen_decode) matches Ok(shown) ==> {
            &&& shown is None <==> gen_decode.len() == 0
            &&& k < gen_decode.len() && gen_decode[k as int].has(i) ==> {
                &&& memory.mask_bits[i] == Some((shown->0).0[place(gen_decode, k, i)])
                &&& memory.mask_macs[i] == Some((shown->0).1[place(gen_decode, k, i)])
            }
        },
{
    if shares_sent(memory, eval_reveal, public).1 is Ok {
        if eval_reveal.len() > 0 || public.len() > 0 {
            lemma_read_len(memory.mask_bits, eval_reveal, eval_reveal.len());
            lemma_read_len(memory.mask_macs, eval_reveal, eval_reveal.len());
            if k < eval_reveal.len() && eval_reveal[k as int].has(i) {
                lemma_read_at(memory.mask_bits, eval_reveal, k, i);
                lemma_read_at(memory.mask_macs, eval_reveal, k, i);
            }
            if k < public.len() && public[k as int].has(i) {
                lemma_read_at(memory.mask_bits, public, k, i);
                lemma_read_at(memory.mask_macs, public, k, i);
            }
        }
    }
    if decode_shares(memory, gen_decode) is Ok {
        if k < gen_decode.len() && gen_decode[k as int].has(i) {
            lemma_read_at(memory.mask_bits, gen_decode, k, i);
            lemma_read_at(memory.mask_macs, gen_decode, k, i);
        }
    }
}

/// Setting an output keeps its keys, and the masks with their MACs and keys, for each address.
pub proof fn lemma_output_kept(
    memory: GenMemory,
    slice: Slice,
    keys: Seq<Key>,
    mask_bits: Seq<bool>,
    mask_macs: Seq<Mac>,
    mask_keys: Seq<Key>,
    i: int,
)
    requires
        output_set(memory, slice, keys, mask_bits, mask_macs, mask_keys).1 is None,
    ensures
        ({
            let after = output_set(memory, slice, keys, mask_bits, mask_macs, mask_keys).0;
            let j = i - slice.start;
            &&& after.data == memory.data && after.masked == memory.masked
            &&& slice.has(i) ==> {
                &&& after.keys[i] == Some(keys[j])
                &&& after.mask_bits[i] == Some(mask_bits[j])
                &&& after.mask_macs[i] == Some(mask_macs[j])
                &&& after.mask_keys[i] == Some(mask_keys[j])
            }
        }),
{
}

/// The masks of a flush with given keys and choices: these are what it asks the oblivious transfers
/// for and what the store keeps, and nothing else of the flush depends on how they came about.
pub proof fn lemma_masks_given(
    memory: GenMemory,
    rng: SeededRng,
    delta: Delta,
    view: FlushRanges,
    keys: Seq<Key>,
    choices: Seq<bool>,
    k: nat,
    j: int,
)
    requires
        canonical(masks_of(view)),
    ensures
        ({
            let masks = masks_of(view);
            let n = offset(masks, masks.len());
            let (after, made) = flush_made(memory, delta, view, keys, choices);
            let (blocks, rng1) = keys_drawn(rng, n);
            let drawn = flush_made(memory, delta, view, blocks, rng1.bits_drawn(n).0);
            let sent = flush_sent(memory, rng, delta, view);
            &&& sent.0 == drawn.0 && sent.2 == drawn.1
            &&& made is Ok && k < masks.len() ==> {
                &&& made->Ok_0.cot == Some((keys, choices))
                &&& 0 <= j && masks[k as int].has(masks[k as int].start + j) ==> {
                    &&& after.mask_keys[masks[k as int].start + j] == Some(keys[j])
                    &&& after.mask_bits[masks[k as int].start + j] == Some(choices[j])
                }
            }
            &&& made is Ok && masks.len() == 0 ==> made->Ok_0.cot is None
        }),
{
    let masks = masks_of(view);
    let (after, made) = flush_made(memory, delta, view, keys, choices);
    let (first, cot) = masks_set(memory, masks, keys, choices);
    if made is Ok {
        lemma_contents_frame(first, delta, view, cot->Ok_0);
        if k < masks.len() {
            assert(write_each(memory.mask_keys, masks, keys, masks.len()).1 is None);
            assert(write_each(memory.mask_bits, masks, choices, masks.len()).1 is None);
            if 0 <= j && masks[k as int].has(masks[k as int].start + j) {
                lemma_each_written(memory.mask_keys, masks, keys, masks.len(), k, j);
                lemma_each_written(memory.mask_bits, masks, choices, masks.len(), k, j);
            }
        }
    }
}

/// Values are set once: a write succeeds exactly where the slice lies in the memory, has as many
/// addresses as there are values, and none of these is set. It then sets these and no other address;
/// one that fails sets none.
pub proof fn lemma_set_once<T>(memory: Memory<T>, slice: Slice, values: Seq<T>, i: int)
    requires
        0 <= i < memory.len(),
    ensures
        ({
            let (after, err) = stored(memory, slice, values);
            &&& err is None <==> slice.end <= memory.len() && slice.size() == values.len() && forall|
                k: int,
            |
                slice.start <= k < slice.end ==> (#[trigger] memory[k]) is None
            &&& after.len() == memory.len()
            &&& after[i] == (if err is None && slice.start <= i < slice.end {
                Some(values[i - slice.start])
            } else {
                memory[i]
            })
        }),
{
    assert(forall|k: int| slice.has(k) <==> slice.start <= k < slice.end);
    let (after, err) = stored(memory, slice, values);
    if err is None {
        assert forall|k: int| slice.start <= k < slice.end implies (#[trigger] memory[k]) is None by {
            assert(slice.has(k));
        }
    }
}

/// What is not set is neither read nor flipped: a slice is read exactly where it lies in the memory
/// and all its addresses are set, and is flipped by as many bits as it has addresses exactly where it
/// can be read.
pub proof fn lemma_set_before_read(memory: Memory<bool>, slice: Slice, n: nat)
    ensures
        read_error(memory, slice) is None <==> slice.end <= memory.len() && forall|k: int|
            slice.start <= k < slice.end ==> (#[trigger] memory[k]) is Some,
        flip_error(memory, slice, n) is None <==> read_error(memory, slice) is None
            && slice.size() == n,
{
    assert(forall|k: int| slice.has(k) <==> slice.start <= k < slice.end);
    if read_error(memory, slice) is None {
        assert forall|k: int| slice.start <= k < slice.end implies (#[trigger] memory[k]) is Some by {
            assert(slice.has(k));
        }
    }
}

/// What is decoded and what waits: each slice goes to one of the two, by whether all its values are
/// set, and a slice that is decoded comes with the value of each of its addresses.
pub proof fn lemma_decoded(slices: Seq<Slice>, data: Memory<bool>, decoded: Seq<Decoded>, k: int)
    requires
        are_decoded(decoded, decodable(slices, data), data),
    ensures
        decoded.len() + undecodable(slices, data).len() == slices.len(),
        0 <= k < decoded.len() ==> {
            let (slice, bits) = decoded[k];
            &&& slices.contains(slice)
            &&& slice.end <= data.len()
            &&& bits@.len() == slice.size()
            &&& forall|i: int|
                #![trigger data[i]]
                slice.start <= i < slice.end ==> data[i] == Some(bits@[i - slice.start])
        },
        forall|j: int|
            0 <= j < slices.len() ==> {
                let slice = #[trigger] slices[j];
                if slice.end <= data.len() && forall|i: int|
                    slice.start <= i < slice.end ==> (#[trigger] data[i]) is Some {
                    exists|d: int| 0 <= d < decoded.len() && (#[trigger] decoded[d]).0 == slice
                } else {
                    undecodable(slices, data).contains(slice)
                }
            },
{
    lemma_parted(slices, data);
    let ready = decodable(slices, data);
    assert forall|j: int| 0 <= j < slices.len() implies ({
        let slice = #[trigger] slices[j];
        if slice.end <= data.len() && forall|i: int|
            slice.start <= i < slice.end ==> (#[trigger] data[i]) is Some {
            exists|d: int| 0 <= d < decoded.len() && (#[trigger] decoded[d]).0 == slice
        } else {
            undecodable(slices, data).contains(slice)
        }
    }) by {
        let slice = slices[j];
        assert(forall|i: int| slice.has(i) <==> slice.start <= i < slice.end);
        if all_set(data, slice) {
            let d = choose|d: int| 0 <= d < ready.len() && ready[d] == slice;
            assert(decoded[d].0 == slice);
            assert forall|i: int| slice.start <= i < slice.end implies (#[trigger] data[i]) is Some by {
                assert(slice.has(i));
            }
        }
    }
    if 0 <= k < decoded.len() {
        let (slice, bits) = decoded[k];
        assert(ready[k] == slice);
        assert forall|i: int|
            #![trigger data[i]]
            slice.start <= i < slice.end implies data[i] == Some(bits@[i - slice.start]) by {
            assert(slice.has(i));
            assert(values_at(data, slice)[i - slice.start] == data[i]->0);
        }
    }
}

proof fn lemma_parted(slices: Seq<Slice>, data: Memory<bool>)
    ensures
        decodable(slices, data).len() + undecodable(slices, data).len() == slices.len(),
        forall|j: int|
            0 <= j < slices.len() ==> if all_set(data, #[trigger] slices[j]) {
                decodable(slices, data).contains(slices[j])
            } else {
                undecodable(slices, data).contains(slices[j])
            },
        forall|d: int|
            0 <= d < decodable(slices, data).len() ==> {
                let slice = #[trigger] decodable(slices, data)[d];
                all_set(data, slice) && slices.contains(slice)
            },
    decreases slices.len(),
{
    reveal(Seq::filter);
    let (ready, waits) = (decodable(slices, data), undecodable(slices, data));
    if slices.len() > 0 {
        let head = slices.drop_last();
        let last = slices.last();
        lemma_parted(head, data);
        let (ready0, waits0) = (decodable(head, data), undecodable(head, data));
        if all_set(data, last) {
            assert(ready == ready0.push(last) && waits == waits0);
            assert(ready[ready0.len() as int] == last);
        } else {
            assert(ready == ready0 && waits == waits0.push(last));
            assert(waits[waits0.len() as int] == last);
        }
        assert forall|j: int| 0 <= j < slices.len() implies if all_set(data, #[trigger] slices[j]) {
            ready.contains(slices[j])
        } else {
            waits.contains(slices[j])
        } by {
            if j < head.len() {
                assert(head[j] == slices[j]);
                if all_set(data, slices[j]) {
                    let d = choose|d: int| 0 <= d < ready0.len() && ready0[d] == slices[j];
                    assert(ready[d] == slices[j]);
                } else {
                    let d = choose|d: int| 0 <= d < waits0.len() && waits0[d] == slices[j];
                    assert(waits[d] == slices[j]);
                }
            }
        }
        assert forall|d: int| 0 <= d < ready.len() implies ({
            let slice = #[trigger] ready[d];
            all_set(data, slice) && slices.contains(slice)
        }) by {
            if d < ready0.len() {
                assert(ready[d] == ready0[d]);
                let j = choose|j: int| 0 <= j < head.len() && head[j] == ready0[d];
                assert(slices[j] == ready[d]);
            } else {
                assert(slices[slices.len() - 1] == last);
            }
        }
    }
}

/// Keys and choices drawn one after the other are those that are drawn together: the choices come
/// behind the keys, the one memory holds what the other does, and nothing is drawn where nothing is
/// to be masked.
pub proof fn lemma_drawn_apart(memory: GenMemory, rng: SeededRng, ranges: Seq<Slice>, j: int)
    ensures
        ({
            let n = offset(ranges, ranges.len());
            let (mid, rng1, keys) = keys_sent(memory, rng, ranges);
            let (after, rng2, choices) = choices_sent(mid, rng1, ranges);
            let (together, rng3, cot) = masks_sent(memory, rng, ranges);
            let (blocks, rng_keys) = rng.blocks_drawn(n);
            &&& keys is Ok ==> after == together && rng2 == rng3
            &&& cot is Ok <==> keys is Ok && choices is Ok
            &&& cot is Ok && ranges.len() == 0 ==> keys->Ok_0 is None && choices->Ok_0 is None
                && rng3 == rng && together == memory
            &&& cot is Ok && ranges.len() > 0 ==> {
                &&& keys->Ok_0 matches Some(k) && cot->Ok_0 == Some(
                    (k, rng_keys.bits_drawn(n).0),
                ) && k.len() == n && (0 <= j < n ==> k[j].block == blocks[j])
                &&& choices->Ok_0 == Some(rng_keys.bits_drawn(n).0)
            }
        }),
{
    let n = offset(ranges, ranges.len());
    rng.lemma_drawn_len(n);
}

/// A proof for shares holds the bit and the MAC of each address at its place.
pub proof fn lemma_proof_at(
    bits: Memory<bool>,
    macs: Memory<Mac>,
    ranges: Seq<Slice>,
    k: nat,
    i: int,
)
    requires
        canonical(ranges),
        share_proof(bits, macs, ranges) is Ok,
        k < ranges.len(),
        ranges[k as int].has(i),
    ensures
        ({
            let (b, m) = share_proof(bits, macs, ranges)->Ok_0;
            let at = place(ranges, k, i);
            &&& 0 <= at < b.len() == m.len()
            &&& bits[i] == Some(b[at])
            &&& macs[i] == Some(m[at])
        }),
{
    lemma_read_at(bits, ranges, k, i);
    lemma_read_at(macs, ranges, k, i);
}

} // verus!
