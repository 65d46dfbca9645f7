//! The memory store of the generator in authenticated garbling.
//!
//! The store decides what a flush sends and what it makes of the evaluator's flush. The
//! correlated oblivious transfers (COT) that make the masks of inputs run outside: a flush says
//! which keys and choices they take, and the next one is handed their MACs.

use vstd::prelude::*;

use crate::block::Block;
use crate::correlated::{mac_of, macs_of, Delta, Key, Mac};
use crate::rng::SeededRng;
use crate::store::flush::{AuthEvalFlush, AuthFlushView, AuthGenFlush, FlushRanges, ShareProof};
use crate::store::keys::{share_error, share_proof, AuthBitStore, KeyStore};
use crate::store::ranges::{
    canonical, covers, lemma_offset, lemma_one_form, offset, RangeSet, Slice,
};
use crate::store::slots::{
    all_set, flip, flip_ranges, flip_reaches, lemma_all_reach, lemma_read_len, outcome, part, piece,
    read_error, read_ranges, stored, values_at, write_each, write_ranges, write_reaches, BitStore,
    Memory, Slots, StoreError,
};

verus! {

/// Error for [`AuthGenStore`].
#[derive(Debug)]
pub enum AuthGenStoreError {
    /// The MACs of the COT are not ready.
    CotNotReady,
    /// Error of the store of keys.
    KeyStore(StoreError),
    /// Error of a store of bits.
    Store(StoreError),
    /// Error of the store of masks.
    AuthBitStore(StoreError),
    /// The store was not expecting a flush.
    UnexpectedFlush,
    /// The flush does not do what was expected.
    InconsistentFlush {
        /// What was expected.
        expected: AuthFlushView,
        /// What the flush does.
        actual: AuthFlushView,
    },
    /// The label of an output is neither of the two it can be.
    OutputLabelMismatch {
        /// The index of the output.
        index: usize,
    },
}

/// What the COTs of a flush take: the keys to send, and the choices to receive with.
#[derive(Debug)]
pub struct CotRequest {
    /// The keys.
    pub keys: Vec<Key>,
    /// The choices.
    pub choices: Vec<bool>,
}

/// The memory of a store.
pub struct GenMemory {
    /// The keys of the wires.
    pub keys: Memory<Key>,
    /// The generator's bits of the masks.
    pub mask_bits: Memory<bool>,
    /// The MACs of these bits.
    pub mask_macs: Memory<Mac>,
    /// The keys of the evaluator's bits.
    pub mask_keys: Memory<Key>,
    /// The masked values.
    pub masked: Memory<bool>,
    /// The values.
    pub data: Memory<bool>,
}

/// Authenticated generator memory store.
#[derive(Debug)]
pub struct AuthGenStore {
    /// Source of keys and masks.
    pub rng: SeededRng,
    /// The keys of the wires.
    pub key_store: KeyStore,
    /// The generator's shares of the masks.
    pub mask_store: AuthBitStore,
    /// The masked values.
    pub masked_value_store: BitStore,
    /// The values.
    pub data_store: BitStore,
    /// What the next flush does.
    pub view: AuthFlushView,
    /// The slices that wait to be decoded.
    pub buffer_decode: Vec<Slice>,
    /// The hash of what was checked.
    pub auth_hash: Block,
    /// Whether the store is waiting for a flush.
    pub pending: bool,
    /// Whether the flush that the store waits for needs the MACs of a COT.
    pub pending_flush: Option<bool>,
}

/// All stores hold the same addresses.
pub open spec fn aligned(memory: GenMemory) -> bool {
    let n = memory.data.len();
    &&& memory.keys.len() == n
    &&& memory.mask_bits.len() == n
    &&& memory.mask_macs.len() == n
    &&& memory.mask_keys.len() == n
    &&& memory.masked.len() == n
    &&& n <= usize::MAX
}

/// The ranges of the addresses of three sets.
pub open spec fn united(a: Seq<Slice>, b: Seq<Slice>, c: Seq<Slice>) -> Seq<Slice> {
    choose|r: Seq<Slice>|
        canonical(r) && forall|i: int|
            covers(r, i) == (covers(a, i) || covers(b, i) || covers(c, i))
}

/// Addresses that are not set.
pub open spec fn unset<T>(n: nat) -> Memory<T> {
    Seq::new(n, |i: int| None)
}

/// Sets the keys and masks of an output.
pub open spec fn output_set(
    memory: GenMemory,
    slice: Slice,
    keys: Seq<Key>,
    mask_bits: Seq<bool>,
    mask_macs: Seq<Mac>,
    mask_keys: Seq<Key>,
) -> Received {
    match stored(memory.keys, slice, keys) {
        (keys, Some(err)) => (memory, Some(AuthGenStoreError::KeyStore(err))),
        (keys, None) => {
            let memory = GenMemory { keys, ..memory };
            match stored(memory.mask_bits, slice, mask_bits) {
                (_, Some(err)) => (memory, Some(AuthGenStoreError::AuthBitStore(err))),
                (mask_bits, None) => {
                    let memory = GenMemory { mask_bits, ..memory };
                    match stored(memory.mask_macs, slice, mask_macs) {
                        (_, Some(err)) => (memory, Some(AuthGenStoreError::AuthBitStore(err))),
                        (mask_macs, None) => {
                            let memory = GenMemory { mask_macs, ..memory };
                            match stored(memory.mask_keys, slice, mask_keys) {
                                (_, Some(err)) => (
                                    memory,
                                    Some(AuthGenStoreError::AuthBitStore(err)),
                                ),
                                (mask_keys, None) => (GenMemory { mask_keys, ..memory }, None),
                            }
                        },
                    }
                },
            }
        },
    }
}

/// The inputs whose masks a flush makes.
pub open spec fn masks_of(view: FlushRanges) -> Seq<Slice> {
    united(view.gen_masks, view.eval_masks, view.public)
}

/// The keys that are drawn next.
pub open spec fn keys_drawn(rng: SeededRng, n: nat) -> (Seq<Key>, SeededRng) {
    let (blocks, rng) = rng.blocks_drawn(n);
    (Seq::new(blocks.len(), |i: int| Key { block: blocks[i] }), rng)
}

/// Sets the masks of the ranges: keys of the evaluator's bits, and the generator's bits.
pub open spec fn masks_set(
    memory: GenMemory,
    ranges: Seq<Slice>,
    keys: Seq<Key>,
    choices: Seq<bool>,
) -> (GenMemory, Result<Option<(Seq<Key>, Seq<bool>)>, AuthGenStoreError>) {
    if ranges.len() == 0 {
        (memory, Ok(None))
    } else {
        match write_each(memory.mask_keys, ranges, keys, ranges.len()) {
            (mask_keys, Some(err)) => (
                GenMemory { mask_keys, ..memory },
                Err(AuthGenStoreError::AuthBitStore(err)),
            ),
            (mask_keys, None) => match write_each(
                memory.mask_bits,
                ranges,
                choices,
                ranges.len(),
            ) {
                (mask_bits, Some(err)) => (
                    GenMemory { mask_keys, mask_bits, ..memory },
                    Err(AuthGenStoreError::AuthBitStore(err)),
                ),
                (mask_bits, None) => (
                    GenMemory { mask_keys, mask_bits, ..memory },
                    Ok(Some((keys, choices))),
                ),
            },
        }
    }
}

/// Draws keys for the masks of the ranges and sets them.
pub open spec fn keys_sent(memory: GenMemory, rng: SeededRng, ranges: Seq<Slice>) -> (
    GenMemory,
    SeededRng,
    Result<Option<Seq<Key>>, AuthGenStoreError>,
) {
    if ranges.len() == 0 {
        (memory, rng, Ok(None))
    } else {
        let (keys, rng1) = keys_drawn(rng, offset(ranges, ranges.len()));
        let (mask_keys, err) = write_each(memory.mask_keys, ranges, keys, ranges.len());
        let after = GenMemory { mask_keys, ..memory };
        match err {
            Some(err) => (after, rng1, Err(AuthGenStoreError::AuthBitStore(err))),
            None => (after, rng1, Ok(Some(keys))),
        }
    }
}

/// Draws choices for the masks of the ranges and sets them.
pub open spec fn choices_sent(memory: GenMemory, rng: SeededRng, ranges: Seq<Slice>) -> (
    GenMemory,
    SeededRng,
    Result<Option<Seq<bool>>, AuthGenStoreError>,
) {
    if ranges.len() == 0 {
        (memory, rng, Ok(None))
    } else {
        let (choices, rng1) = rng.bits_drawn(offset(ranges, ranges.len()));
        let (mask_bits, err) = write_each(memory.mask_bits, ranges, choices, ranges.len());
        let after = GenMemory { mask_bits, ..memory };
        match err {
            Some(err) => (after, rng1, Err(AuthGenStoreError::AuthBitStore(err))),
            None => (after, rng1, Ok(Some(choices))),
        }
    }
}

/// What an optional vector holds.
pub open spec fn listed<T>(values: Option<Vec<T>>) -> Option<Seq<T>> {
    match values {
        Some(values) => Some(values@),
        None => None,
    }
}

/// Draws keys and choices for the masks of the ranges and sets them. The choices are drawn once the
/// keys are set.
pub open spec fn masks_sent(memory: GenMemory, rng: SeededRng, ranges: Seq<Slice>) -> (
    GenMemory,
    SeededRng,
    Result<Option<(Seq<Key>, Seq<bool>)>, AuthGenStoreError>,
) {
    let n = offset(ranges, ranges.len());
    let (keys, rng1) = keys_drawn(rng, n);
    let (choices, rng2) = rng1.bits_drawn(n);
    let (after, cot) = masks_set(memory, ranges, keys, choices);
    let rng3 = if ranges.len() == 0 {
        rng
    } else if write_each(memory.mask_keys, ranges, keys, ranges.len()).1 is Some {
        rng1
    } else {
        rng2
    };
    (after, rng3, cot)
}

/// Masks the public values of the first `n` ranges with some bits.
pub open spec fn mask_public(
    masked: Memory<bool>,
    data: Memory<bool>,
    ranges: Seq<Slice>,
    bits: Seq<bool>,
    n: nat,
) -> (Memory<bool>, Option<StoreError>)
    decreases n,
{
    if n == 0 {
        (masked, None)
    } else {
        let k = (n - 1) as nat;
        let slice = ranges[k as int];
        match mask_public(masked, data, ranges, bits, k) {
            (before, Some(err)) => (before, Some(err)),
            (before, None) => match stored(before, slice, piece(bits, ranges, k)) {
                (after, Some(err)) => (after, Some(err)),
                (after, None) => match read_error(data, slice) {
                    Some(err) => (after, Some(err)),
                    None => flip(after, slice, values_at(data, slice)),
                },
            },
        }
    }
}

/// The generator's shares of the evaluator's inputs and of public inputs, with which it starts the
/// masked values of these.
pub open spec fn shares_sent(
    memory: GenMemory,
    eval_reveal: Seq<Slice>,
    public: Seq<Slice>,
) -> (GenMemory, Result<Option<(Seq<bool>, Seq<Mac>)>, AuthGenStoreError>) {
    if eval_reveal.len() == 0 && public.len() == 0 {
        (memory, Ok(None))
    } else {
        match share_proof(memory.mask_bits, memory.mask_macs, eval_reveal) {
            Err(err) => (memory, Err(AuthGenStoreError::AuthBitStore(err))),
            Ok((bits1, macs1)) => match write_ranges(
                memory.masked,
                eval_reveal,
                bits1,
                eval_reveal.len(),
            ) {
                (masked, Some(err)) => (
                    GenMemory { masked, ..memory },
                    Err(AuthGenStoreError::Store(err)),
                ),
                (masked, None) => match share_proof(memory.mask_bits, memory.mask_macs, public) {
                    Err(err) => (
                        GenMemory { masked, ..memory },
                        Err(AuthGenStoreError::AuthBitStore(err)),
                    ),
                    Ok((bits2, macs2)) => match mask_public(
                        masked,
                        memory.data,
                        public,
                        bits2,
                        public.len(),
                    ) {
                        (masked, Some(err)) => (
                            GenMemory { masked, ..memory },
                            Err(AuthGenStoreError::Store(err)),
                        ),
                        (masked, None) => (
                            GenMemory { masked, ..memory },
                            Ok(Some((bits1 + bits2, macs1 + macs2))),
                        ),
                    },
                },
            },
        }
    }
}

/// The bits of two sequences that differ.
pub open spec fn xor_bits(a: Seq<bool>, b: Seq<bool>) -> Seq<bool> {
    Seq::new(a.len(), |i: int| a[i] != b[i])
}

/// The generator's inputs of the first `n` ranges under its own masks, with which it starts the
/// masked values of these.
pub open spec fn inputs_sent(memory: GenMemory, ranges: Seq<Slice>, n: nat) -> (
    GenMemory,
    Result<Seq<bool>, AuthGenStoreError>,
)
    decreases n,
{
    if n == 0 {
        (memory, Ok(Seq::empty()))
    } else {
        let k = (n - 1) as nat;
        let slice = ranges[k as int];
        match inputs_sent(memory, ranges, k) {
            (before, Err(err)) => (before, Err(err)),
            (before, Ok(bits)) => match read_error(before.mask_bits, slice) {
                Some(err) => (before, Err(AuthGenStoreError::AuthBitStore(err))),
                None => match read_error(before.data, slice) {
                    Some(err) => (before, Err(AuthGenStoreError::Store(err))),
                    None => {
                        let half = xor_bits(
                            values_at(before.mask_bits, slice),
                            values_at(before.data, slice),
                        );
                        match stored(before.masked, slice, half) {
                            (masked, Some(err)) => (
                                GenMemory { masked, ..before },
                                Err(AuthGenStoreError::Store(err)),
                            ),
                            (masked, None) => (
                                GenMemory { masked, ..before },
                                Ok(bits + half),
                            ),
                        }
                    },
                },
            },
        }
    }
}

/// The labels of the masked values of the first `n` ranges.
pub open spec fn labels_of(memory: GenMemory, delta: Delta, ranges: Seq<Slice>, n: nat) -> Result<
    Seq<Mac>,
    AuthGenStoreError,
>
    decreases n,
{
    if n == 0 {
        Ok(Seq::empty())
    } else {
        let k = (n - 1) as nat;
        let slice = ranges[k as int];
        match labels_of(memory, delta, ranges, k) {
            Err(err) => Err(err),
            Ok(labels) => match read_error(memory.masked, slice) {
                Some(err) => Err(AuthGenStoreError::Store(err)),
                None => match read_error(memory.keys, slice) {
                    Some(err) => Err(AuthGenStoreError::KeyStore(err)),
                    None => Ok(
                        labels + macs_of(
                            values_at(memory.keys, slice),
                            values_at(memory.masked, slice),
                            delta,
                        ),
                    ),
                },
            },
        }
    }
}

/// The generator's shares of the values that the evaluator decodes.
pub open spec fn decode_shares(memory: GenMemory, ranges: Seq<Slice>) -> Result<
    Option<(Seq<bool>, Seq<Mac>)>,
    AuthGenStoreError,
> {
    if ranges.len() == 0 {
        Ok(None)
    } else {
        match share_proof(memory.mask_bits, memory.mask_macs, ranges) {
            Err(err) => Err(AuthGenStoreError::AuthBitStore(err)),
            Ok(shares) => Ok(Some(shares)),
        }
    }
}

/// What a flush sends.
pub struct FlushContents {
    /// The keys and choices of the COTs.
    pub cot: Option<(Seq<Key>, Seq<bool>)>,
    /// The shares of inputs.
    pub shares: Option<(Seq<bool>, Seq<Mac>)>,
    /// The inputs under the generator's masks.
    pub inputs: Seq<bool>,
    /// The labels.
    pub labels: Seq<Mac>,
    /// The shares of values to decode.
    pub decode: Option<(Seq<bool>, Seq<Mac>)>,
}

/// What a flush sends once the masks are set, and the memory behind it.
pub open spec fn contents_sent(
    memory: GenMemory,
    delta: Delta,
    view: FlushRanges,
    cot: Option<(Seq<Key>, Seq<bool>)>,
) -> (GenMemory, Result<FlushContents, AuthGenStoreError>) {
    match shares_sent(memory, view.eval_reveal, view.public_decode) {
        (memory, Err(err)) => (memory, Err(err)),
        (memory, Ok(shares)) => match inputs_sent(
            memory,
            view.gen_reveal,
            view.gen_reveal.len(),
        ) {
            (memory, Err(err)) => (memory, Err(err)),
            (memory, Ok(inputs)) => match labels_of(
                memory,
                delta,
                view.labels,
                view.labels.len(),
            ) {
                Err(err) => (memory, Err(err)),
                Ok(labels) => match decode_shares(memory, view.gen_decode) {
                    Err(err) => (memory, Err(err)),
                    Ok(decode) => (
                        memory,
                        Ok(FlushContents { cot, shares, inputs, labels, decode }),
                    ),
                },
            },
        },
    }
}

/// What a flush sends with given keys and choices, and the memory behind it.
pub open spec fn flush_made(
    memory: GenMemory,
    delta: Delta,
    view: FlushRanges,
    keys: Seq<Key>,
    choices: Seq<bool>,
) -> (GenMemory, Result<FlushContents, AuthGenStoreError>) {
    match masks_set(memory, masks_of(view), keys, choices) {
        (memory, Err(err)) => (memory, Err(err)),
        (memory, Ok(cot)) => contents_sent(memory, delta, view, cot),
    }
}

/// What a flush sends with the keys and choices that are drawn, and the memory behind it.
pub open spec fn flush_sent(
    memory: GenMemory,
    rng: SeededRng,
    delta: Delta,
    view: FlushRanges,
) -> (GenMemory, SeededRng, Result<FlushContents, AuthGenStoreError>) {
    match masks_sent(memory, rng, masks_of(view)) {
        (memory, rng, Err(err)) => (memory, rng, Err(err)),
        (memory, rng, Ok(cot)) => {
            let (memory, contents) = contents_sent(memory, delta, view, cot);
            (memory, rng, contents)
        },
    }
}

/// A flush that was made: its message, and what is to be queued.
pub open spec fn is_flush_made(
    made: (AuthGenFlush, Option<CotRequest>),
    view: FlushRanges,
    contents: FlushContents,
) -> bool {
    &&& requested(made.1) == contents.cot
    &&& made.0.view@ == view
    &&& shown(made.0.share_proof) == contents.shares
    &&& made.0.half_masked_inputs@ == contents.inputs
    &&& made.0.labels@ == contents.labels
    &&& shown(made.0.decode_share_proof) == contents.decode
}

/// What an optional proof holds.
pub open spec fn shown(certificate: Option<ShareProof>) -> Option<(Seq<bool>, Seq<Mac>)> {
    match certificate {
        Some(shares) => Some(shares@),
        None => None,
    }
}

/// What optional COTs take.
pub open spec fn requested(cot: Option<CotRequest>) -> Option<(Seq<Key>, Seq<bool>)> {
    match cot {
        Some(request) => Some((request.keys@, request.choices@)),
        None => None,
    }
}

/// Why a flush of the evaluator is refused, if it is, and the memory behind what was done.
pub type Received = (GenMemory, Option<AuthGenStoreError>);

/// Sets the MACs that the COTs gave for the masks of the ranges.
pub open spec fn macs_received(
    memory: GenMemory,
    ranges: Seq<Slice>,
    macs: Option<Seq<Mac>>,
) -> Received {
    match macs {
        None => (memory, None),
        Some(macs) => match write_ranges(memory.mask_macs, ranges, macs, ranges.len()) {
            (mask_macs, Some(err)) => (
                GenMemory { mask_macs, ..memory },
                Some(AuthGenStoreError::AuthBitStore(err)),
            ),
            (mask_macs, None) => (GenMemory { mask_macs, ..memory }, None),
        },
    }
}

/// Checks the evaluator's shares of the generator's inputs and of public inputs, and masks these
/// with them.
pub open spec fn shares_received(
    memory: GenMemory,
    delta: Delta,
    gen_reveal: Seq<Slice>,
    public: Seq<Slice>,
    shares: Option<(Seq<bool>, Seq<Mac>)>,
) -> Received {
    match shares {
        None => (memory, None),
        Some((bits, macs)) => {
            let n = offset(gen_reveal, gen_reveal.len()) as int;
            match share_error(memory.mask_keys, gen_reveal, bits.take(n), macs.take(n), delta) {
                Some(err) => (memory, Some(AuthGenStoreError::AuthBitStore(err))),
                None => match share_error(
                    memory.mask_keys,
                    public,
                    bits.skip(n),
                    macs.skip(n),
                    delta,
                ) {
                    Some(err) => (memory, Some(AuthGenStoreError::AuthBitStore(err))),
                    None => match flip_ranges(
                        memory.masked,
                        gen_reveal,
                        bits.take(n),
                        gen_reveal.len(),
                    ) {
                        (masked, Some(err)) => (
                            GenMemory { masked, ..memory },
                            Some(AuthGenStoreError::Store(err)),
                        ),
                        (masked, None) => match flip_ranges(
                            masked,
                            public,
                            bits.skip(n),
                            public.len(),
                        ) {
                            (masked, Some(err)) => (
                                GenMemory { masked, ..memory },
                                Some(AuthGenStoreError::Store(err)),
                            ),
                            (masked, None) => (GenMemory { masked, ..memory }, None),
                        },
                    },
                },
            }
        },
    }
}

/// Masks the evaluator's inputs with what it sent of them.
pub open spec fn inputs_received(
    memory: GenMemory,
    ranges: Seq<Slice>,
    bits: Seq<bool>,
) -> Received {
    match flip_ranges(memory.masked, ranges, bits, ranges.len()) {
        (masked, Some(err)) => (
            GenMemory { masked, ..memory },
            Some(AuthGenStoreError::Store(err)),
        ),
        (masked, None) => (GenMemory { masked, ..memory }, None),
    }
}

/// The bit whose label under a key this is, if it is one of the two.
pub open spec fn label_bit(key: Key, label: Mac, delta: Delta) -> Option<bool> {
    if label == mac_of(key, false, delta) {
        Some(false)
    } else if label == mac_of(key, true, delta) {
        Some(true)
    } else {
        None
    }
}

/// The bits of the first `n` labels, or the index of the first label that stands for none.
pub open spec fn label_bits(keys: Seq<Key>, labels: Seq<Mac>, delta: Delta, n: nat) -> Result<
    Seq<bool>,
    usize,
>
    decreases n,
{
    if n == 0 {
        Ok(Seq::empty())
    } else {
        match label_bits(keys, labels, delta, (n - 1) as nat) {
            Err(index) => Err(index),
            Ok(bits) => match label_bit(keys[n - 1], labels[n - 1], delta) {
                Some(bit) => Ok(bits.push(bit)),
                None => Err((n - 1) as usize),
            },
        }
    }
}

/// The number of keys that there is a label for.
pub open spec fn compared(keys: Seq<Key>, labels: Seq<Mac>) -> nat {
    if keys.len() < labels.len() {
        keys.len()
    } else {
        labels.len()
    }
}

/// The bits that the labels of outputs stand for, or the error.
pub open spec fn label_values(
    memory: GenMemory,
    delta: Delta,
    ranges: Seq<Slice>,
    labels: Seq<Mac>,
) -> Result<Seq<bool>, AuthGenStoreError> {
    match read_ranges(memory.keys, ranges, ranges.len()) {
        Err(err) => Err(AuthGenStoreError::KeyStore(err)),
        Ok(keys) => match label_bits(keys, labels, delta, compared(keys, labels)) {
            Err(index) => Err(AuthGenStoreError::OutputLabelMismatch { index }),
            Ok(bits) => Ok(bits),
        },
    }
}

/// Sets the masked values of outputs to what their labels stand for.
pub open spec fn outputs_received(
    memory: GenMemory,
    delta: Delta,
    ranges: Seq<Slice>,
    labels: Seq<Mac>,
) -> Received {
    match label_values(memory, delta, ranges, labels) {
        Err(err) => (memory, Some(err)),
        Ok(bits) => match write_ranges(memory.masked, ranges, bits, ranges.len()) {
            (masked, Some(err)) => (
                GenMemory { masked, ..memory },
                Some(AuthGenStoreError::Store(err)),
            ),
            (masked, None) => (GenMemory { masked, ..memory }, None),
        },
    }
}

/// Decodes a slice: its values are some bits, plus the masked values, plus the generator's masks.
pub open spec fn slice_decoded(memory: GenMemory, slice: Slice, bits: Seq<bool>) -> Received {
    match stored(memory.data, slice, bits) {
        (data, Some(err)) => (
            GenMemory { data, ..memory },
            Some(AuthGenStoreError::Store(err)),
        ),
        (data, None) => match read_error(memory.masked, slice) {
            Some(err) => (GenMemory { data, ..memory }, Some(AuthGenStoreError::Store(err))),
            None => match flip(data, slice, values_at(memory.masked, slice)) {
                (data, Some(err)) => (
                    GenMemory { data, ..memory },
                    Some(AuthGenStoreError::Store(err)),
                ),
                (data, None) => match read_error(memory.mask_bits, slice) {
                    Some(err) => (
                        GenMemory { data, ..memory },
                        Some(AuthGenStoreError::AuthBitStore(err)),
                    ),
                    None => match flip(data, slice, values_at(memory.mask_bits, slice)) {
                        (data, Some(err)) => (
                            GenMemory { data, ..memory },
                            Some(AuthGenStoreError::Store(err)),
                        ),
                        (data, None) => (GenMemory { data, ..memory }, None),
                    },
                },
            },
        },
    }
}

/// Decodes the first `n` ranges.
pub open spec fn ranges_decoded(
    memory: GenMemory,
    ranges: Seq<Slice>,
    bits: Seq<bool>,
    n: nat,
) -> Received
    decreases n,
{
    if n == 0 {
        (memory, None)
    } else {
        let k = (n - 1) as nat;
        match ranges_decoded(memory, ranges, bits, k) {
            (before, Some(err)) => (before, Some(err)),
            (before, None) => slice_decoded(before, ranges[k as int], piece(bits, ranges, k)),
        }
    }
}

/// Checks the evaluator's shares of values to decode, and decodes these.
pub open spec fn decode_received(
    memory: GenMemory,
    delta: Delta,
    ranges: Seq<Slice>,
    shares: Option<(Seq<bool>, Seq<Mac>)>,
) -> Received {
    match shares {
        None => (memory, None),
        Some((bits, macs)) => match share_error(memory.mask_keys, ranges, bits, macs, delta) {
            Some(err) => (memory, Some(AuthGenStoreError::AuthBitStore(err))),
            None => ranges_decoded(memory, ranges, bits, ranges.len()),
        },
    }
}

/// What a flush of the evaluator does.
pub open spec fn flush_received(
    memory: GenMemory,
    delta: Delta,
    view: FlushRanges,
    macs: Option<Seq<Mac>>,
    shares: Option<(Seq<bool>, Seq<Mac>)>,
    inputs: Seq<bool>,
    labels: Seq<Mac>,
    decode: Option<(Seq<bool>, Seq<Mac>)>,
) -> Received {
    match macs_received(memory, masks_of(view), macs) {
        (memory, Some(err)) => (memory, Some(err)),
        (memory, None) => match shares_received(
            memory,
            delta,
            view.gen_reveal,
            view.public_decode,
            shares,
        ) {
            (memory, Some(err)) => (memory, Some(err)),
            (memory, None) => match inputs_received(memory, view.eval_reveal, inputs) {
                (memory, Some(err)) => (memory, Some(err)),
                (memory, None) => match outputs_received(
                    memory,
                    delta,
                    view.decode_info,
                    labels,
                ) {
                    (memory, Some(err)) => (memory, Some(err)),
                    (memory, None) => decode_received(memory, delta, view.eval_decode, decode),
                },
            },
        },
    }
}

/// There is something for each address that is handled before the flush is refused, if it is.
pub open spec fn flush_fits(
    memory: GenMemory,
    delta: Delta,
    view: FlushRanges,
    macs: Option<Seq<Mac>>,
    flush: AuthEvalFlush,
) -> bool {
    let shares = shown(flush.share_proof);
    let reveal = offset(view.gen_reveal, view.gen_reveal.len());
    let (memory1, err1) = macs_received(memory, masks_of(view), macs);
    let (memory2, err2) = shares_received(
        memory1,
        delta,
        view.gen_reveal,
        view.public_decode,
        shares,
    );
    let (memory3, err3) = inputs_received(memory2, view.eval_reveal, flush.half_masked_inputs@);
    &&& macs matches Some(macs) ==> write_reaches(memory.mask_macs, masks_of(view), macs)
    &&& err1 is None ==> {
        &&& shares matches Some((bits, macs)) ==> bits.len() >= reveal && macs.len() >= reveal
        &&& err2 is None ==> {
            &&& flip_reaches(memory2.masked, view.eval_reveal, flush.half_masked_inputs@)
            &&& err3 is None ==> outputs_fit(memory3, delta, view.decode_info, flush.labels@)
        }
    }
}

/// There is a label for each output that is handled before the labels are refused, if they are.
pub open spec fn outputs_fit(
    memory: GenMemory,
    delta: Delta,
    ranges: Seq<Slice>,
    labels: Seq<Mac>,
) -> bool {
    label_values(memory, delta, ranges, labels) matches Ok(bits) ==> write_reaches(
        memory.masked,
        ranges,
        bits,
    )
}

/// The MACs of a COT, if there is one.
pub open spec fn cot_macs(macs: Option<Vec<Mac>>) -> Option<Seq<Mac>> {
    match macs {
        Some(macs) => Some(macs@),
        None => None,
    }
}

/// The slices whose values are set.
pub open spec fn decodable(slices: Seq<Slice>, data: Memory<bool>) -> Seq<Slice> {
    slices.filter(|slice: Slice| all_set(data, slice))
}

/// The slices of which some value is not set.
pub open spec fn undecodable(slices: Seq<Slice>, data: Memory<bool>) -> Seq<Slice> {
    slices.filter(|slice: Slice| !all_set(data, slice))
}

/// Values that were decoded: a slice and its bits.
pub type Decoded = (Slice, Vec<bool>);

/// These are the slices with their values.
pub open spec fn are_decoded(decoded: Seq<Decoded>, slices: Seq<Slice>, data: Memory<bool>) -> bool {
    &&& decoded.len() == slices.len()
    &&& forall|i: int|
        0 <= i < slices.len() ==> (#[trigger] decoded[i]).0 == slices[i] && decoded[i].1@
            == values_at(data, slices[i])
}

impl AuthGenStore {
    /// The memory of the store.
    pub open spec fn memory(&self) -> GenMemory {
        GenMemory {
            keys: self.key_store.keys@,
            mask_bits: self.mask_store.bits@,
            mask_macs: self.mask_store.macs@,
            mask_keys: self.mask_store.keys@,
            masked: self.masked_value_store@,
            data: self.data_store@,
        }
    }

    /// The stores hold the same addresses and share a correlation, the sets of the view are
    /// canonical, and no slice ends before it starts.
    pub open spec fn wf(&self) -> bool {
        &&& self.view.wf()
        &&& aligned(self.memory())
        &&& self.key_store.delta == self.mask_store.delta
        &&& forall|i: int|
            0 <= i < self.buffer_decode@.len() ==> (#[trigger] self.buffer_decode@[i]).wf()
    }

    /// The flush is refused at once, or there is something for each address that is handled.
    pub open spec fn takes(&self, flush: AuthEvalFlush, macs: Option<Vec<Mac>>) -> bool {
        self.pending && self.pending_flush is Some && flush.view@ == self.view@ ==> flush_fits(
            self.memory(),
            self.key_store.delta,
            self.view@,
            if self.pending_flush == Some(true) {
                cot_macs(macs)
            } else {
                None
            },
            flush,
        )
    }

    /// Nothing but the memory and the source of randomness differ.
    pub open spec fn same_frame(&self, other: &AuthGenStore) -> bool {
        &&& self.key_store.delta == other.key_store.delta
        &&& self.mask_store.delta == other.mask_store.delta
        &&& self.view == other.view
        &&& self.buffer_decode == other.buffer_decode
        &&& self.auth_hash == other.auth_hash
        &&& self.pending == other.pending
        &&& self.pending_flush == other.pending_flush
    }

    /// Creates a new generator store.
    pub fn new(rng: SeededRng, delta: Delta) -> (r: AuthGenStore)
        ensures
            r.wf(),
            r.rng == rng,
            r.key_store.delta == delta,
            r.memory().data.len() == 0,
            r.view.is_idle(),
            r.buffer_decode@ == Seq::<Slice>::empty(),
            r.auth_hash == (Block { bits: 0 }),
            !r.pending,
            r.pending_flush is None,
    {
        AuthGenStore {
            rng,
            key_store: KeyStore::new(delta),
            mask_store: AuthBitStore::new(delta),
            masked_value_store: Slots::new(),
            data_store: Slots::new(),
            view: AuthFlushView::new(),
            buffer_decode: Vec::new(),
            auth_hash: Block::zero(),
            pending: false,
            pending_flush: None,
        }
    }

    /// Returns delta.
    pub fn delta(&self) -> (r: &Delta)
        ensures
            *r == self.key_store.delta,
    {
        &self.key_store.delta
    }

    /// Sets what the next flush does.
    pub fn set_view(&mut self, view: AuthFlushView)
        requires
            old(self).wf(),
            view.wf(),
        ensures
            final(self).wf(),
            *final(self) == (AuthGenStore { view, ..*old(self) }),
    {
        self.view = view;
    }

    /// Returns whether all the keys are set.
    pub fn is_set_keys(&self, slice: Slice) -> (r: bool)
        requires
            slice.wf(),
        ensures
            r == all_set(self.memory().keys, slice),
    {
        self.key_store.keys.is_set(slice)
    }

    /// Returns whether the input masks are set.
    pub fn is_set_masks(&self, slice: Slice) -> (r: bool)
        requires
            slice.wf(),
        ensures
            r == (all_set(self.memory().mask_bits, slice) && all_set(
                self.memory().mask_macs,
                slice,
            ) && all_set(self.memory().mask_keys, slice)),
    {
        self.mask_store.is_set(slice)
    }

    /// Returns keys if they are set.
    ///
    /// # Security
    ///
    /// **Never** use this method to transfer MACs to the evaluator.
    pub fn try_get_keys(&self, slice: Slice) -> (r: Result<Vec<Key>, AuthGenStoreError>)
        requires
            slice.wf(),
        ensures
            match read_error(self.memory().keys, slice) {
                Some(err) => r == Err::<Vec<Key>, AuthGenStoreError>(
                    AuthGenStoreError::KeyStore(err),
                ),
                None => r matches Ok(keys) && keys@ == values_at(self.memory().keys, slice),
            },
    {
        match self.key_store.keys.try_get(slice) {
            Ok(keys) => Ok(keys),
            Err(err) => Err(AuthGenStoreError::KeyStore(err)),
        }
    }

    /// Returns masked values if they are set.
    pub fn try_get_masked_values(&self, slice: Slice) -> (r: Result<Vec<bool>, AuthGenStoreError>)
        requires
            slice.wf(),
        ensures
            match read_error(self.memory().masked, slice) {
                Some(err) => r == Err::<Vec<bool>, AuthGenStoreError>(
                    AuthGenStoreError::Store(err),
                ),
                None => r matches Ok(bits) && bits@ == values_at(self.memory().masked, slice),
            },
    {
        match self.masked_value_store.try_get(slice) {
            Ok(bits) => Ok(bits),
            Err(err) => Err(AuthGenStoreError::Store(err)),
        }
    }

    /// Returns masks if they are set.
    pub fn try_get_mask_bits(&self, slice: Slice) -> (r: Result<Vec<bool>, AuthGenStoreError>)
        requires
            slice.wf(),
        ensures
            match read_error(self.memory().mask_bits, slice) {
                Some(err) => r == Err::<Vec<bool>, AuthGenStoreError>(
                    AuthGenStoreError::AuthBitStore(err),
                ),
                None => r matches Ok(bits) && bits@ == values_at(self.memory().mask_bits, slice),
            },
    {
        match self.mask_store.bits.try_get(slice) {
            Ok(bits) => Ok(bits),
            Err(err) => Err(AuthGenStoreError::AuthBitStore(err)),
        }
    }

    /// Returns masks if they are set.
    pub fn try_get_mask_macs(&self, slice: Slice) -> (r: Result<Vec<Mac>, AuthGenStoreError>)
        requires
            slice.wf(),
        ensures
            match read_error(self.memory().mask_macs, slice) {
                Some(err) => r == Err::<Vec<Mac>, AuthGenStoreError>(
                    AuthGenStoreError::AuthBitStore(err),
                ),
                None => r matches Ok(macs) && macs@ == values_at(self.memory().mask_macs, slice),
            },
    {
        match self.mask_store.macs.try_get(slice) {
            Ok(macs) => Ok(macs),
            Err(err) => Err(AuthGenStoreError::AuthBitStore(err)),
        }
    }

    /// Returns masks if they are set.
    pub fn try_get_mask_keys(&self, slice: Slice) -> (r: Result<Vec<Key>, AuthGenStoreError>)
        requires
            slice.wf(),
        ensures
            match read_error(self.memory().mask_keys, slice) {
                Some(err) => r == Err::<Vec<Key>, AuthGenStoreError>(
                    AuthGenStoreError::AuthBitStore(err),
                ),
                None => r matches Ok(keys) && keys@ == values_at(self.memory().mask_keys, slice),
            },
    {
        match self.mask_store.keys.try_get(slice) {
            Ok(keys) => Ok(keys),
            Err(err) => Err(AuthGenStoreError::AuthBitStore(err)),
        }
    }

    /// Updates the auth hash.
    pub fn update_hash(&mut self, hash: Block)
        ensures
            *final(self) == (AuthGenStore {
                auth_hash: old(self).auth_hash.xor(hash),
                ..*old(self)
            }),
    {
        self.auth_hash = self.auth_hash ^ hash;
    }

    /// Returns the auth hash.
    pub fn get_hash(&self) -> (r: Block)
        ensures
            r == self.auth_hash,
    {
        self.auth_hash
    }

    /// Allocates uninitialized memory for output values.
    pub fn alloc_output(&mut self, len: usize) -> (r: Slice)
        requires
            old(self).wf(),
            old(self).memory().data.len() + len <= usize::MAX,
        ensures
            final(self).wf(),
            final(self).same_frame(old(self)),
            final(self).rng == old(self).rng,
            r.start == old(self).memory().data.len(),
            r.end == r.start + len,
            final(self).memory() == (GenMemory {
                keys: old(self).memory().keys + unset(len as nat),
                mask_bits: old(self).memory().mask_bits + unset(len as nat),
                mask_macs: old(self).memory().mask_macs + unset(len as nat),
                mask_keys: old(self).memory().mask_keys + unset(len as nat),
                masked: old(self).memory().masked + unset(len as nat),
                data: old(self).memory().data + unset(len as nat),
            }),
    {
        self.key_store.keys.allocate(len);
        self.data_store.allocate(len);
        self.masked_value_store.allocate(len);
        self.mask_store.bits.allocate(len);
        self.mask_store.macs.allocate(len);
        self.mask_store.keys.allocate(len)
    }

    /// Sets the keys and masks for output data.
    pub fn set_output(
        &mut self,
        slice: Slice,
        keys: &[Key],
        mask_bits: &[bool],
        mask_macs: &[Mac],
        mask_keys: &[Key],
    ) -> (r: Result<(), AuthGenStoreError>)
        requires
            old(self).wf(),
            slice.wf(),
        ensures
            final(self).wf(),
            final(self).same_frame(old(self)),
            final(self).rng == old(self).rng,
            final(self).memory() == output_set(
                old(self).memory(),
                slice,
                keys@,
                mask_bits@,
                mask_macs@,
                mask_keys@,
            ).0,
            r == refusal(
                output_set(
                    old(self).memory(),
                    slice,
                    keys@,
                    mask_bits@,
                    mask_macs@,
                    mask_keys@,
                ).1,
            ),
    {
        match self.key_store.keys.try_set(slice, keys) {
            Ok(()) => {},
            Err(err) => return Err(AuthGenStoreError::KeyStore(err)),
        }
        match self.mask_store.bits.try_set(slice, mask_bits) {
            Ok(()) => {},
            Err(err) => return Err(AuthGenStoreError::AuthBitStore(err)),
        }
        match self.mask_store.macs.try_set(slice, mask_macs) {
            Ok(()) => {},
            Err(err) => return Err(AuthGenStoreError::AuthBitStore(err)),
        }
        match self.mask_store.keys.try_set(slice, mask_keys) {
            Ok(()) => Ok(()),
            Err(err) => Err(AuthGenStoreError::AuthBitStore(err)),
        }
    }

    /// Returns `true` if the store wants to flush.
    pub fn wants_flush(&self) -> (r: bool)
        ensures
            r == !self.view.is_idle(),
    {
        self.view.wants_flush()
    }

    /// Allocates memory for inputs, with random keys.
    pub fn alloc_raw(&mut self, size: usize) -> (r: Slice)
        requires
            old(self).wf(),
            old(self).memory().data.len() + size <= usize::MAX,
        ensures
            final(self).wf(),
            final(self).same_frame(old(self)),
            r.start == old(self).memory().data.len(),
            r.end == r.start + size,
            ({
                let (keys, rng) = keys_drawn(old(self).rng, size as nat);
                &&& final(self).rng == rng
                &&& final(self).memory() == (GenMemory {
                    keys: old(self).memory().keys + Seq::new(size as nat, |i: int| Some(keys[i])),
                    mask_bits: old(self).memory().mask_bits + unset(size as nat),
                    mask_macs: old(self).memory().mask_macs + unset(size as nat),
                    mask_keys: old(self).memory().mask_keys + unset(size as nat),
                    masked: old(self).memory().masked + unset(size as nat),
                    data: old(self).memory().data + unset(size as nat),
                })
            }),
    {
        let blocks = self.rng.next_blocks(size);
        let keys = Key::from_blocks(blocks);
        assert(keys@ =~= keys_drawn(old(self).rng, size as nat).0);
        self.alloc_with_keys(keys.as_slice())
    }

    /// Allocates memory for inputs with the given keys.
    pub fn alloc_with_keys(&mut self, keys: &[Key]) -> (r: Slice)
        requires
            old(self).wf(),
            old(self).memory().data.len() + keys.len() <= usize::MAX,
        ensures
            final(self).wf(),
            final(self).same_frame(old(self)),
            final(self).rng == old(self).rng,
            r.start == old(self).memory().data.len(),
            r.end == r.start + keys.len(),
            ({
                let size = keys@.len();
                final(self).memory() == (GenMemory {
                    keys: old(self).memory().keys + Seq::new(size, |i: int| Some(keys@[i])),
                    mask_bits: old(self).memory().mask_bits + unset(size),
                    mask_macs: old(self).memory().mask_macs + unset(size),
                    mask_keys: old(self).memory().mask_keys + unset(size),
                    masked: old(self).memory().masked + unset(size),
                    data: old(self).memory().data + unset(size),
                })
            }),
    {
        let size: usize = keys.len();
        self.mask_store.bits.allocate(size);
        self.mask_store.macs.allocate(size);
        self.mask_store.keys.allocate(size);
        self.masked_value_store.allocate(size);
        self.key_store.keys.allocate_with(keys);
        self.data_store.allocate(size)
    }

    /// Returns whether the values of a slice are assigned.
    pub fn is_assigned_raw(&self, slice: Slice) -> (r: bool)
        requires
            slice.wf(),
        ensures
            r == all_set(self.memory().data, slice),
    {
        self.data_store.is_set(slice)
    }

    /// Assigns the values of a slice.
    pub fn assign_raw(&mut self, slice: Slice, data: &[bool]) -> (r: Result<(), AuthGenStoreError>)
        requires
            old(self).wf(),
            slice.wf(),
        ensures
            final(self).wf(),
            final(self).same_frame(old(self)),
            final(self).rng == old(self).rng,
            final(self).memory() == (GenMemory {
                data: stored(old(self).memory().data, slice, data@).0,
                ..old(self).memory()
            }),
            r == match stored(old(self).memory().data, slice, data@).1 {
                Some(err) => Err::<(), AuthGenStoreError>(AuthGenStoreError::Store(err)),
                None => Ok(()),
            },
    {
        match self.data_store.try_set(slice, data) {
            Ok(()) => Ok(()),
            Err(err) => Err(AuthGenStoreError::Store(err)),
        }
    }

    /// Returns the values of a slice if they are set.
    pub fn get_raw(&self, slice: Slice) -> (r: Result<Vec<bool>, AuthGenStoreError>)
        requires
            slice.wf(),
        ensures
            match read_error(self.memory().data, slice) {
                Some(err) => r == Err::<Vec<bool>, AuthGenStoreError>(
                    AuthGenStoreError::Store(err),
                ),
                None => r matches Ok(bits) && bits@ == values_at(self.memory().data, slice),
            },
    {
        match self.data_store.try_get(slice) {
            Ok(bits) => Ok(bits),
            Err(err) => Err(AuthGenStoreError::Store(err)),
        }
    }

    /// Decodes a slice: returns its values if they are set, else the slice waits for the flush
    /// that sets them.
    pub fn decode_raw(&mut self, slice: Slice) -> (r: Option<Vec<bool>>)
        requires
            old(self).wf(),
            slice.wf(),
        ensures
            final(self).wf(),
            if all_set(old(self).memory().data, slice) {
                &&& r matches Some(bits)
                &&& bits@ == values_at(old(self).memory().data, slice)
                &&& *final(self) == *old(self)
            } else {
                &&& r is None
                &&& final(self).buffer_decode@ == old(self).buffer_decode@.push(slice)
                &&& *final(self) == (AuthGenStore {
                    buffer_decode: final(self).buffer_decode,
                    ..*old(self)
                })
            },
    {
        // If data is already available, send it immediately.
        match self.data_store.try_get(slice) {
            Ok(data) => Some(data),
            Err(_) => {
                self.buffer_decode.push(slice);
                None
            },
        }
    }

    /// Starts to send a flush: makes the keys of the masks, if there are any to make.
    ///
    /// The COTs of the keys are to be queued before the choices are made.
    pub fn send_keys(&mut self) -> (r: Result<Option<Vec<Key>>, AuthGenStoreError>)
        requires
            old(self).wf(),
        ensures
            final(self).wf(),
            final(self).same_frame(old(self)),
            if old(self).pending {
                &&& r == Err::<Option<Vec<Key>>, AuthGenStoreError>(
                    AuthGenStoreError::UnexpectedFlush,
                )
                &&& *final(self) == *old(self)
            } else {
                let (memory, rng, want) = keys_sent(
                    old(self).memory(),
                    old(self).rng,
                    masks_of(old(self).view@),
                );
                &&& final(self).memory() == memory
                &&& final(self).rng == rng
                &&& match want {
                    Ok(keys) => r matches Ok(made) && listed(made) == keys,
                    Err(err) => r == Err::<Option<Vec<Key>>, AuthGenStoreError>(err),
                }
            },
    {
        if self.pending {
            return Err(AuthGenStoreError::UnexpectedFlush);
        }
        let masks = self.masks();
        if masks.is_empty() {
            return Ok(None);
        }
        let n: usize = masks.len();
        let blocks = self.rng.next_blocks(n);
        let keys = Key::from_blocks(blocks);
        assert(keys@ =~= keys_drawn(old(self).rng, n as nat).0);
        proof {
            let ranges = masks.ranges@;
            let memory = self.memory();
            let no_bits = Seq::<bool>::empty();
            lemma_sizes(memory.mask_keys, memory.masked, ranges, keys@, no_bits, ranges.len());
        }

        // Store keys in mask store.
        match self.mask_store.keys.try_set_each(&masks, keys.as_slice()) {
            Ok(()) => Ok(Some(keys)),
            Err(err) => Err(AuthGenStoreError::AuthBitStore(err)),
        }
    }

    /// Goes on to send a flush: makes the choices of the masks, if there are any to make.
    ///
    /// The COTs of the choices are to be queued before the rest is sent.
    pub fn send_choices(&mut self) -> (r: Result<Option<Vec<bool>>, AuthGenStoreError>)
        requires
            old(self).wf(),
        ensures
            final(self).wf(),
            final(self).same_frame(old(self)),
            ({
                let (memory, rng, want) = choices_sent(
                    old(self).memory(),
                    old(self).rng,
                    masks_of(old(self).view@),
                );
                &&& final(self).memory() == memory
                &&& final(self).rng == rng
                &&& match want {
                    Ok(choices) => r matches Ok(made) && listed(made) == choices,
                    Err(err) => r == Err::<Option<Vec<bool>>, AuthGenStoreError>(err),
                }
            }),
    {
        let masks = self.masks();
        if masks.is_empty() {
            return Ok(None);
        }
        let choices = self.rng.next_bools(masks.len());
        proof {
            let ranges = masks.ranges@;
            let memory = self.memory();
            let no_bits = Seq::<bool>::empty();
            lemma_sizes(memory.mask_bits, memory.masked, ranges, choices@, no_bits, ranges.len());
        }

        // Store choices in mask store.
        match self.mask_store.bits.try_set_each(&masks, choices.as_slice()) {
            Ok(()) => Ok(Some(choices)),
            Err(err) => Err(AuthGenStoreError::AuthBitStore(err)),
        }
    }

    /// Gives up the COTs of a flush that was sent: no answer to it is taken any more.
    pub fn drop_cot(&mut self)
        requires
            old(self).wf(),
        ensures
            final(self).wf(),
            *final(self) == (AuthGenStore { pending_flush: None, ..*old(self) }),
    {
        self.pending_flush = None;
    }

    /// Sets the masks of the ranges.
    fn set_masks(&mut self, masks: &RangeSet, keys: Vec<Key>, choices: Vec<bool>) -> (r: Result<
        Option<CotRequest>,
        AuthGenStoreError,
    >)
        requires
            masks.wf(),
        ensures
            final(self).same_frame(old(self)),
            final(self).rng == old(self).rng,
            ({
                let (memory, want) = masks_set(
                    old(self).memory(),
                    masks.ranges@,
                    keys@,
                    choices@,
                );
                &&& final(self).memory() == memory
                &&& match want {
                    Ok(cot) => r matches Ok(request) && requested(request) == cot,
                    Err(err) => r == Err::<Option<CotRequest>, AuthGenStoreError>(err),
                }
            }),
    {
        if masks.is_empty() {
            return Ok(None);
        }
        match self.mask_store.keys.try_set_each(masks, keys.as_slice()) {
            Ok(()) => {},
            Err(err) => return Err(AuthGenStoreError::AuthBitStore(err)),
        }
        match self.mask_store.bits.try_set_each(masks, choices.as_slice()) {
            Ok(()) => Ok(Some(CotRequest { keys, choices })),
            Err(err) => Err(AuthGenStoreError::AuthBitStore(err)),
        }
    }

    /// Masks the public values of the ranges with some bits.
    fn mask_public(&mut self, ranges: &RangeSet, bits: &[bool]) -> (r: Result<(), StoreError>)
        requires
            ranges.wf(),
            ranges.size() <= bits.len(),
        ensures
            final(self).same_frame(old(self)),
            final(self).rng == old(self).rng,
            ({
                let (masked, err) = mask_public(
                    old(self).memory().masked,
                    old(self).memory().data,
                    ranges.ranges@,
                    bits@,
                    ranges.ranges@.len(),
                );
                &&& final(self).memory() == (GenMemory { masked, ..old(self).memory() })
                &&& r == outcome(err)
            }),
    {
        let ghost all = ranges.ranges@;
        let ghost (start, data) = (self.memory().masked, self.memory().data);
        let mut at: usize = 0;
        for k in 0..ranges.ranges.len()
            invariant
                all == ranges.ranges@,
                canonical(all),
                offset(all, all.len()) <= bits.len(),
                at == offset(all, k as nat),
                self.same_frame(old(self)),
                self.rng == old(self).rng,
                start == old(self).memory().masked,
                data == old(self).memory().data,
                self.memory() == (GenMemory {
                    masked: self.memory().masked,
                    ..old(self).memory()
                }),
                mask_public(start, data, all, bits@, k as nat) == (
                    self.memory().masked,
                    None::<StoreError>,
                ),
        {
            let slice = ranges.ranges[k];
            proof {
                lemma_offset(all, (k + 1) as nat);
                lemma_mask_public_stops(start, data, all, bits@, (k + 1) as nat);
                assert(all[k as int].start < all[k as int].end);
            }
            let own = part(bits, at, at + slice.len());
            assert(own@ == piece(bits@, all, k as nat));
            match self.masked_value_store.try_set(slice, own.as_slice()) {
                Ok(()) => {},
                Err(err) => return Err(err),
            }
            let values = match self.data_store.try_get(slice) {
                Ok(values) => values,
                Err(err) => return Err(err),
            };
            match self.masked_value_store.update_xor(slice, values.as_slice()) {
                Ok(()) => {},
                Err(err) => return Err(err),
            }
            at = at + slice.len();
        }
        Ok(())
    }

    /// Proves Gen's share of Eval's input wires and public wires.
    fn send_shares(&mut self, eval_reveal: &RangeSet, public: &RangeSet) -> (r: Result<
        Option<ShareProof>,
        AuthGenStoreError,
    >)
        requires
            eval_reveal.wf(),
            public.wf(),
        ensures
            final(self).same_frame(old(self)),
            final(self).rng == old(self).rng,
            ({
                let (memory, want) = shares_sent(
                    old(self).memory(),
                    eval_reveal.ranges@,
                    public.ranges@,
                );
                &&& final(self).memory() == memory
                &&& match want {
                    Ok(shares) => r matches Ok(certificate) && shown(certificate) == shares,
                    Err(err) => r == Err::<Option<ShareProof>, AuthGenStoreError>(err),
                }
            }),
    {
        if eval_reveal.is_empty() && public.is_empty() {
            return Ok(None);
        }
        let (bits1, macs1) = match self.mask_store.prove_share(eval_reveal) {
            Ok(shares) => shares,
            Err(err) => return Err(AuthGenStoreError::AuthBitStore(err)),
        };
        proof {
            lemma_read_len(
                old(self).memory().mask_bits,
                eval_reveal.ranges@,
                eval_reveal.ranges@.len(),
            );
            lemma_read_len(old(self).memory().mask_bits, public.ranges@, public.ranges@.len());
        }
        // Set masked_value_store using sent bits
        proof {
            lemma_all_reach(
                self.masked_value_store@,
                self.masked_value_store@,
                eval_reveal.ranges@,
                bits1@,
                bits1@,
            );
        }
        match self.masked_value_store.try_set_ranges(eval_reveal, bits1.as_slice()) {
            Ok(()) => {},
            Err(err) => return Err(AuthGenStoreError::Store(err)),
        }
        let (bits2, macs2) = match self.mask_store.prove_share(public) {
            Ok(shares) => shares,
            Err(err) => return Err(AuthGenStoreError::AuthBitStore(err)),
        };
        match self.mask_public(public, bits2.as_slice()) {
            Ok(()) => {},
            Err(err) => return Err(AuthGenStoreError::Store(err)),
        }
        let ghost (first, second) = (bits1@, macs1@);
        let (mut bits, mut macs) = (bits1, macs1);
        let (mut bits2, mut macs2) = (bits2, macs2);
        let ghost (third, fourth) = (bits2@, macs2@);
        bits.append(&mut bits2);
        macs.append(&mut macs2);
        assert(bits@ =~= first + third);
        assert(macs@ =~= second + fourth);
        Ok(Some(ShareProof { bits, macs }))
    }

    /// Masks Gen's inputs with Gen's masks.
    fn send_inputs(&mut self, ranges: &RangeSet) -> (r: Result<Vec<bool>, AuthGenStoreError>)
        requires
            ranges.wf(),
        ensures
            final(self).same_frame(old(self)),
            final(self).rng == old(self).rng,
            ({
                let (memory, want) = inputs_sent(
                    old(self).memory(),
                    ranges.ranges@,
                    ranges.ranges@.len(),
                );
                &&& final(self).memory() == memory
                &&& match want {
                    Ok(bits) => r matches Ok(inputs) && inputs@ == bits,
                    Err(err) => r == Err::<Vec<bool>, AuthGenStoreError>(err),
                }
            }),
    {
        let ghost all = ranges.ranges@;
        let ghost start = self.memory();
        let mut inputs: Vec<bool> = Vec::new();
        for k in 0..ranges.ranges.len()
            invariant
                all == ranges.ranges@,
                canonical(all),
                self.same_frame(old(self)),
                self.rng == old(self).rng,
                start == old(self).memory(),
                inputs_sent(start, all, k as nat) == (
                    self.memory(),
                    Ok::<Seq<bool>, AuthGenStoreError>(inputs@),
                ),
        {
            let slice = ranges.ranges[k];
            proof {
                lemma_inputs_stop(start, all, (k + 1) as nat);
                assert(all[k as int].start < all[k as int].end);
            }
            let mask_bits = match self.mask_store.bits.try_get(slice) {
                Ok(bits) => bits,
                Err(err) => return Err(AuthGenStoreError::AuthBitStore(err)),
            };
            let data_bits = match self.data_store.try_get(slice) {
                Ok(bits) => bits,
                Err(err) => return Err(AuthGenStoreError::Store(err)),
            };
            let mut half_masked: Vec<bool> = Vec::with_capacity(mask_bits.len());
            for i in 0..mask_bits.len()
                invariant
                    mask_bits.len() == data_bits.len(),
                    half_masked@ =~= xor_bits(mask_bits@, data_bits@).take(i as int),
            {
                half_masked.push(mask_bits[i] != data_bits[i]);
            }
            assert(half_masked@ =~= xor_bits(mask_bits@, data_bits@));
            match self.masked_value_store.try_set(slice, half_masked.as_slice()) {
                Ok(()) => {},
                Err(err) => return Err(AuthGenStoreError::Store(err)),
            }
            inputs.append(&mut half_masked);
        }
        Ok(inputs)
    }

    /// Returns the labels of the masked values of the ranges.
    fn make_labels(&self, ranges: &RangeSet) -> (r: Result<Vec<Mac>, AuthGenStoreError>)
        requires
            ranges.wf(),
        ensures
            match labels_of(
                self.memory(),
                self.key_store.delta,
                ranges.ranges@,
                ranges.ranges@.len(),
            ) {
                Ok(want) => r matches Ok(labels) && labels@ == want,
                Err(err) => r == Err::<Vec<Mac>, AuthGenStoreError>(err),
            },
    {
        let ghost all = ranges.ranges@;
        let mut labels: Vec<Mac> = Vec::new();
        for k in 0..ranges.ranges.len()
            invariant
                all == ranges.ranges@,
                canonical(all),
                labels_of(self.memory(), self.key_store.delta, all, k as nat) == Ok::<
                    Seq<Mac>,
                    AuthGenStoreError,
                >(labels@),
        {
            let slice = ranges.ranges[k];
            proof {
                lemma_labels_stop(self.memory(), self.key_store.delta, all, (k + 1) as nat);
                assert(all[k as int].start < all[k as int].end);
            }
            let data = match self.masked_value_store.try_get(slice) {
                Ok(data) => data,
                Err(err) => return Err(AuthGenStoreError::Store(err)),
            };
            match self.key_store.authenticate(slice, data.as_slice()) {
                Ok(macs) => {
                    let mut macs = macs;
                    labels.append(&mut macs);
                },
                Err(err) => return Err(AuthGenStoreError::KeyStore(err)),
            }
        }
        Ok(labels)
    }

    /// Sends a flush to the evaluator.
    ///
    /// This says which COTs are to be queued.
    pub fn send_flush(&mut self) -> (r: Result<
        (AuthGenFlush, Option<CotRequest>),
        AuthGenStoreError,
    >)
        requires
            old(self).wf(),
        ensures
            final(self).wf(),
            final(self).view@ == old(self).view@,
            final(self).key_store.delta == old(self).key_store.delta,
            final(self).buffer_decode == old(self).buffer_decode,
            final(self).auth_hash == old(self).auth_hash,
            if old(self).pending {
                &&& r == Err::<(AuthGenFlush, Option<CotRequest>), AuthGenStoreError>(
                    AuthGenStoreError::UnexpectedFlush,
                )
                &&& *final(self) == *old(self)
            } else {
                let (memory, rng, want) = flush_sent(
                    old(self).memory(),
                    old(self).rng,
                    old(self).key_store.delta,
                    old(self).view@,
                );
                &&& final(self).memory() == memory
                &&& final(self).rng == rng
                &&& match want {
                    Ok(contents) => {
                        &&& r matches Ok(made)
                        &&& is_flush_made(made, old(self).view@, contents)
                        &&& final(self).pending
                        &&& final(self).pending_flush == Some(contents.cot is Some)
                    },
                    Err(err) => {
                        &&& r == Err::<(AuthGenFlush, Option<CotRequest>), AuthGenStoreError>(err)
                        &&& !final(self).pending
                        &&& final(self).pending_flush == old(self).pending_flush
                    },
                }
            },
    {
        if self.pending {
            return Err(AuthGenStoreError::UnexpectedFlush);
        }
        // Send OT keys for masks.
        let keys = match self.send_keys() {
            Ok(keys) => keys,
            Err(err) => return Err(err),
        };

        // Send OT choices for masks.
        let choices = match self.send_choices() {
            Ok(choices) => choices,
            Err(err) => return Err(err),
        };
        let cot = match (keys, choices) {
            (Some(keys), Some(choices)) => Some(CotRequest { keys, choices }),
            _ => None,
        };
        self.send_contents(cot)
    }

    /// Sends a flush to the evaluator, with the given keys and choices for its masks.
    ///
    /// This says which COTs are to be queued. There are as many keys and choices as addresses whose
    /// masks are made; otherwise the stores refuse them.
    pub fn send_flush_with(&mut self, keys: Vec<Key>, choices: Vec<bool>) -> (r: Result<
        (AuthGenFlush, Option<CotRequest>),
        AuthGenStoreError,
    >)
        requires
            old(self).wf(),
        ensures
            final(self).wf(),
            final(self).view@ == old(self).view@,
            final(self).rng == old(self).rng,
            final(self).key_store.delta == old(self).key_store.delta,
            final(self).buffer_decode == old(self).buffer_decode,
            final(self).auth_hash == old(self).auth_hash,
            if old(self).pending {
                &&& r == Err::<(AuthGenFlush, Option<CotRequest>), AuthGenStoreError>(
                    AuthGenStoreError::UnexpectedFlush,
                )
                &&& *final(self) == *old(self)
            } else {
                let (memory, want) = flush_made(
                    old(self).memory(),
                    old(self).key_store.delta,
                    old(self).view@,
                    keys@,
                    choices@,
                );
                &&& final(self).memory() == memory
                &&& match want {
                    Ok(contents) => {
                        &&& r matches Ok(made)
                        &&& is_flush_made(made, old(self).view@, contents)
                        &&& final(self).pending
                        &&& final(self).pending_flush == Some(contents.cot is Some)
                    },
                    Err(err) => {
                        &&& r == Err::<(AuthGenFlush, Option<CotRequest>), AuthGenStoreError>(err)
                        &&& !final(self).pending
                        &&& final(self).pending_flush == old(self).pending_flush
                    },
                }
            },
    {
        if self.pending {
            return Err(AuthGenStoreError::UnexpectedFlush);
        }
        let masks = self.masks();
        proof {
            let ranges = masks.ranges@;
            let memory = self.memory();
            let no_bits = Seq::<bool>::empty();
            lemma_sizes(memory.mask_keys, memory.masked, ranges, keys@, no_bits, ranges.len());
            lemma_sizes(memory.mask_bits, memory.masked, ranges, choices@, no_bits, ranges.len());
        }
        match self.set_masks(&masks, keys, choices) {
            Ok(cot) => self.send_contents(cot),
            Err(err) => Err(err),
        }
    }

    /// The inputs whose masks the next flush makes.
    fn masks(&self) -> (r: RangeSet)
        requires
            self.wf(),
        ensures
            r.wf(),
            r.ranges@ == masks_of(self.view@),
    {
        let inputs = self.view.gen_masks.union(&self.view.eval_masks);
        let masks = inputs.union(&self.view.public);
        proof {
            lemma_united(self.view, inputs, masks);
        }
        masks
    }

    /// Sends what a flush holds once the masks are set; `cot` says which COTs were queued.
    pub fn send_contents(&mut self, cot: Option<CotRequest>) -> (r: Result<
        (AuthGenFlush, Option<CotRequest>),
        AuthGenStoreError,
    >)
        requires
            old(self).wf(),
        ensures
            final(self).wf(),
            final(self).rng == old(self).rng,
            final(self).view == old(self).view,
            final(self).key_store.delta == old(self).key_store.delta,
            final(self).mask_store.delta == old(self).mask_store.delta,
            final(self).buffer_decode == old(self).buffer_decode,
            final(self).auth_hash == old(self).auth_hash,
            ({
                let (memory, want) = contents_sent(
                    old(self).memory(),
                    old(self).key_store.delta,
                    old(self).view@,
                    requested(cot),
                );
                &&& final(self).memory() == memory
                &&& match want {
                    Ok(contents) => {
                        &&& r matches Ok(made)
                        &&& is_flush_made(made, old(self).view@, contents)
                        &&& final(self).pending
                        &&& final(self).pending_flush == Some(cot is Some)
                    },
                    Err(err) => {
                        &&& r == Err::<(AuthGenFlush, Option<CotRequest>), AuthGenStoreError>(err)
                        &&& final(self).pending == old(self).pending
                        &&& final(self).pending_flush == old(self).pending_flush
                    },
                }
            }),
    {
        proof {
            lemma_contents_aligned(
                self.memory(),
                self.key_store.delta,
                self.view@,
                requested(cot),
            );
        }
        let view = self.view.copy();

        // Prove Gen's share of Eval input wires and public wires.
        let share_proof = match self.send_shares(&view.eval_reveal, &view.public_decode) {
            Ok(shares) => shares,
            Err(err) => return Err(err),
        };

        // Send half masked inputs corresponding to Gen's input wires.
        let half_masked_inputs = match self.send_inputs(&view.gen_reveal) {
            Ok(inputs) => inputs,
            Err(err) => return Err(err),
        };

        // for both gen and eval's input wires here
        let labels = match self.make_labels(&view.labels) {
            Ok(labels) => labels,
            Err(err) => return Err(err),
        };

        // Prove Gen's share of Gen's input wires for decoding.
        let decode_share_proof = if !view.gen_decode.is_empty() {
            match self.mask_store.prove_share(&view.gen_decode) {
                Ok((bits, macs)) => Some(ShareProof { bits, macs }),
                Err(err) => return Err(AuthGenStoreError::AuthBitStore(err)),
            }
        } else {
            None
        };
        self.pending = true;
        self.pending_flush = Some(cot.is_some());
        let flush = AuthGenFlush {
            view,
            share_proof,
            half_masked_inputs,
            labels,
            decode_share_proof,
        };
        Ok((flush, cot))
    }

    /// Sets the MACs that the COTs gave.
    fn receive_macs(&mut self, masks: &RangeSet, macs: Option<Vec<Mac>>) -> (r: Result<
        (),
        AuthGenStoreError,
    >)
        requires
            masks.wf(),
            macs matches Some(macs) ==> write_reaches(
                old(self).memory().mask_macs,
                masks.ranges@,
                macs@,
            ),
        ensures
            final(self).same_frame(old(self)),
            final(self).rng == old(self).rng,
            ({
                let (memory, err) = macs_received(
                    old(self).memory(),
                    masks.ranges@,
                    cot_macs(macs),
                );
                &&& final(self).memory() == memory
                &&& r == refusal(err)
            }),
    {
        match macs {
            None => Ok(()),
            Some(macs) => match self.mask_store.macs.try_set_ranges(masks, macs.as_slice()) {
                Ok(()) => Ok(()),
                Err(err) => Err(AuthGenStoreError::AuthBitStore(err)),
            },
        }
    }

    /// Checks the evaluator's shares of inputs.
    fn receive_shares(
        &mut self,
        gen_reveal: &RangeSet,
        public: &RangeSet,
        shares: &Option<ShareProof>,
    ) -> (r: Result<(), AuthGenStoreError>)
        requires
            gen_reveal.wf(),
            public.wf(),
            shares matches Some(shares) ==> shares.bits@.len() >= gen_reveal.size()
                && shares.macs@.len() >= gen_reveal.size(),
        ensures
            final(self).same_frame(old(self)),
            final(self).rng == old(self).rng,
            ({
                let (memory, err) = shares_received(
                    old(self).memory(),
                    old(self).mask_store.delta,
                    gen_reveal.ranges@,
                    public.ranges@,
                    shown(*shares),
                );
                &&& final(self).memory() == memory
                &&& r == refusal(err)
            }),
    {
        let (bits, macs) = match shares {
            None => return Ok(()),
            Some(ShareProof { bits, macs }) => (bits, macs),
        };
        let n: usize = gen_reveal.len();
        let bits1 = part(bits.as_slice(), 0, n);
        let bits2 = part(bits.as_slice(), n, bits.len());
        let macs1 = part(macs.as_slice(), 0, n);
        let macs2 = part(macs.as_slice(), n, macs.len());
        assert(bits1@ =~= bits@.take(n as int) && bits2@ =~= bits@.skip(n as int));
        assert(macs1@ =~= macs@.take(n as int) && macs2@ =~= macs@.skip(n as int));
        proof {
            lemma_read_len(self.mask_store.keys@, public.ranges@, public.ranges@.len());
        }
        match self.mask_store.check_share(gen_reveal, bits1.as_slice(), macs1.as_slice()) {
            Ok(()) => {},
            Err(err) => return Err(AuthGenStoreError::AuthBitStore(err)),
        }
        match self.mask_store.check_share(public, bits2.as_slice(), macs2.as_slice()) {
            Ok(()) => {},
            Err(err) => return Err(AuthGenStoreError::AuthBitStore(err)),
        }
        // Update masked values of gen's input wires and public wires with share proof bits
        proof {
            let masked = self.masked_value_store@;
            lemma_all_reach(masked, masked, gen_reveal.ranges@, bits1@, bits1@);
        }
        match self.masked_value_store.update_xor_ranges(gen_reveal, bits1.as_slice()) {
            Ok(()) => {},
            Err(err) => return Err(AuthGenStoreError::Store(err)),
        }
        proof {
            let masked = self.masked_value_store@;
            lemma_all_reach(masked, masked, public.ranges@, bits2@, bits2@);
        }
        match self.masked_value_store.update_xor_ranges(public, bits2.as_slice()) {
            Ok(()) => Ok(()),
            Err(err) => Err(AuthGenStoreError::Store(err)),
        }
    }

    /// The bits that the labels of outputs stand for.
    fn output_bits(&self, decode_info: &RangeSet, labels: &Vec<Mac>) -> (r: Result<
        Vec<bool>,
        AuthGenStoreError,
    >)
        requires
            decode_info.wf(),
        ensures
            match label_values(
                self.memory(),
                self.key_store.delta,
                decode_info.ranges@,
                labels@,
            ) {
                Ok(bits) => r matches Ok(b) && b@ == bits,
                Err(err) => r == Err::<Vec<bool>, AuthGenStoreError>(err),
            },
    {
        // Expected output labels
        let output_keys = match self.key_store.keys.try_get_ranges(decode_info) {
            Ok(keys) => keys,
            Err(err) => return Err(AuthGenStoreError::KeyStore(err)),
        };
        let delta = self.key_store.delta;
        let mut masked_outputs: Vec<bool> = Vec::with_capacity(output_keys.len());
        let count: usize = if output_keys.len() < labels.len() {
            output_keys.len()
        } else {
            labels.len()
        };
        for index in 0..count
            invariant
                count == compared(output_keys@, labels@),
                delta == self.key_store.delta,
                read_ranges(
                    self.key_store.keys@,
                    decode_info.ranges@,
                    decode_info.ranges@.len(),
                ) == Ok::<Seq<Key>, StoreError>(output_keys@),
                label_bits(output_keys@, labels@, delta, index as nat) == Ok::<Seq<bool>, usize>(
                    masked_outputs@,
                ),
        {
            proof {
                lemma_label_bits_stop(
                    output_keys@,
                    labels@,
                    delta,
                    (index + 1) as nat,
                    count as nat,
                );
            }
            let (key, mac) = (output_keys[index], labels[index]);
            let bit = if mac == key.auth(false, &delta) {
                false
            } else if mac == key.auth(true, &delta) {
                true
            } else {
                return Err(AuthGenStoreError::OutputLabelMismatch { index });
            };
            masked_outputs.push(bit);
        }
        Ok(masked_outputs)
    }

    /// Sets the masked values of outputs.
    fn receive_outputs(&mut self, decode_info: &RangeSet, labels: &Vec<Mac>) -> (r: Result<
        (),
        AuthGenStoreError,
    >)
        requires
            decode_info.wf(),
            outputs_fit(
                old(self).memory(),
                old(self).key_store.delta,
                decode_info.ranges@,
                labels@,
            ),
        ensures
            final(self).same_frame(old(self)),
            final(self).rng == old(self).rng,
            ({
                let (memory, err) = outputs_received(
                    old(self).memory(),
                    old(self).key_store.delta,
                    decode_info.ranges@,
                    labels@,
                );
                &&& final(self).memory() == memory
                &&& r == refusal(err)
            }),
    {
        let masked_outputs = match self.output_bits(decode_info, labels) {
            Ok(bits) => bits,
            Err(err) => return Err(err),
        };
        match self.masked_value_store.try_set_ranges(decode_info, masked_outputs.as_slice()) {
            Ok(()) => Ok(()),
            Err(err) => Err(AuthGenStoreError::Store(err)),
        }
    }

    /// Decodes a slice.
    fn decode_slice(&mut self, slice: Slice, bits: &[bool]) -> (r: Result<(), AuthGenStoreError>)
        requires
            slice.wf(),
        ensures
            final(self).same_frame(old(self)),
            final(self).rng == old(self).rng,
            final(self).memory() == slice_decoded(old(self).memory(), slice, bits@).0,
            r == refusal(slice_decoded(old(self).memory(), slice, bits@).1),
    {
        match self.data_store.try_set(slice, bits) {
            Ok(()) => {},
            Err(err) => return Err(AuthGenStoreError::Store(err)),
        }
        let masked = match self.masked_value_store.try_get(slice) {
            Ok(masked) => masked,
            Err(err) => return Err(AuthGenStoreError::Store(err)),
        };
        match self.data_store.update_xor(slice, masked.as_slice()) {
            Ok(()) => {},
            Err(err) => return Err(AuthGenStoreError::Store(err)),
        }
        let masks = match self.mask_store.bits.try_get(slice) {
            Ok(masks) => masks,
            Err(err) => return Err(AuthGenStoreError::AuthBitStore(err)),
        };
        match self.data_store.update_xor(slice, masks.as_slice()) {
            Ok(()) => Ok(()),
            Err(err) => Err(AuthGenStoreError::Store(err)),
        }
    }

    /// Checks the evaluator's shares of values to decode, and decodes these.
    fn receive_decode(&mut self, eval_decode: &RangeSet, shares: &Option<ShareProof>) -> (r: Result<
        (),
        AuthGenStoreError,
    >)
        requires
            eval_decode.wf(),
        ensures
            final(self).same_frame(old(self)),
            final(self).rng == old(self).rng,
            ({
                let (memory, err) = decode_received(
                    old(self).memory(),
                    old(self).mask_store.delta,
                    eval_decode.ranges@,
                    shown(*shares),
                );
                &&& final(self).memory() == memory
                &&& r == refusal(err)
            }),
    {
        let (bits, macs) = match shares {
            None => return Ok(()),
            Some(ShareProof { bits, macs }) => (bits, macs),
        };
        match self.mask_store.check_share(eval_decode, bits.as_slice(), macs.as_slice()) {
            Ok(()) => {},
            Err(err) => return Err(AuthGenStoreError::AuthBitStore(err)),
        }
        let ghost all = eval_decode.ranges@;
        proof {
            lemma_read_len(self.mask_store.keys@, all, all.len());
        }
        // Decode eval's input wires.
        let mut at: usize = 0;
        for k in 0..eval_decode.ranges.len()
            invariant
                all == eval_decode.ranges@,
                canonical(all),
                offset(all, all.len()) == bits.len(),
                at == offset(all, k as nat),
                self.same_frame(old(self)),
                self.rng == old(self).rng,
                shown(*shares) == Some((bits@, macs@)),
                share_error(
                    old(self).memory().mask_keys,
                    all,
                    bits@,
                    macs@,
                    old(self).mask_store.delta,
                ) is None,
                ranges_decoded(old(self).memory(), all, bits@, k as nat) == (
                    self.memory(),
                    None::<AuthGenStoreError>,
                ),
        {
            let slice = eval_decode.ranges[k];
            proof {
                lemma_offset(all, (k + 1) as nat);
                lemma_decoded_stop(old(self).memory(), all, bits@, (k + 1) as nat);
                assert(all[k as int].start < all[k as int].end);
            }
            let own = part(bits.as_slice(), at, at + slice.len());
            assert(own@ == piece(bits@, all, k as nat));
            match self.decode_slice(slice, own.as_slice()) {
                Ok(()) => {},
                Err(err) => return Err(err),
            }
            at = at + slice.len();
        }
        Ok(())
    }

    /// Flushes decode operations: those whose values are set leave the buffer.
    fn flush_decode(&mut self) -> (r: Vec<Decoded>)
        requires
            old(self).wf(),
        ensures
            final(self).wf(),
            are_decoded(
                r@,
                decodable(old(self).buffer_decode@, old(self).data_store@),
                old(self).data_store@,
            ),
            final(self).buffer_decode@ == undecodable(
                old(self).buffer_decode@,
                old(self).data_store@,
            ),
            *final(self) == (AuthGenStore {
                buffer_decode: final(self).buffer_decode,
                ..*old(self)
            }),
    {
        let ghost (slices, data) = (self.buffer_decode@, self.data_store@);
        let mut decoded: Vec<Decoded> = Vec::new();
        let mut waiting: Vec<Slice> = Vec::new();
        for i in 0..self.buffer_decode.len()
            invariant
                *self == *old(self),
                self.wf(),
                slices == self.buffer_decode@,
                data == self.data_store@,
                are_decoded(decoded@, decodable(slices.take(i as int), data), data),
                waiting@ == undecodable(slices.take(i as int), data),
                forall|k: int| 0 <= k < waiting@.len() ==> (#[trigger] waiting@[k]).wf(),
        {
            let slice = self.buffer_decode[i];
            proof {
                assert(self.buffer_decode@[i as int].wf());
                lemma_filter_take(slices, |slice: Slice| all_set(data, slice), i as int);
                lemma_filter_take(slices, |slice: Slice| !all_set(data, slice), i as int);
            }
            if self.data_store.is_set(slice) {
                let values = self.data_store.try_get(slice).unwrap();
                decoded.push((slice, values));
            } else {
                waiting.push(slice);
            }
        }
        assert(slices.take(slices.len() as int) =~= slices);
        self.buffer_decode = waiting;
        decoded
    }

    /// Copies the memory; nothing is pending in the copy.
    fn copy_memory(&self) -> (r: AuthGenStore)
        ensures
            r.memory() == self.memory(),
            r.key_store.delta == self.key_store.delta,
            r.mask_store.delta == self.mask_store.delta,
    {
        AuthGenStore {
            rng: self.rng,
            key_store: KeyStore { delta: self.key_store.delta, keys: self.key_store.keys.copy() },
            mask_store: AuthBitStore {
                delta: self.mask_store.delta,
                bits: self.mask_store.bits.copy(),
                macs: self.mask_store.macs.copy(),
                keys: self.mask_store.keys.copy(),
            },
            masked_value_store: self.masked_value_store.copy(),
            data_store: self.data_store.copy(),
            view: AuthFlushView::new(),
            buffer_decode: Vec::new(),
            auth_hash: self.auth_hash,
            pending: false,
            pending_flush: None,
        }
    }

    /// Whether a flush holds enough to be received: something for each address that is handled
    /// before the flush is refused, if it is.
    pub fn can_receive(&self, flush: &AuthEvalFlush, macs: &Option<Vec<Mac>>) -> (r: bool)
        requires
            self.wf(),
        ensures
            r == self.takes(*flush, *macs),
    {
        if !self.pending || self.pending_flush.is_none() || !flush.view.equals(&self.view) {
            return true;
        }
        let masks = self.masks();
        let mut copy = self.copy_memory();
        if let (Some(true), Some(macs)) = (self.pending_flush, macs) {
            if !copy.mask_store.macs.reached_by(&masks, macs.as_slice()) {
                return false;
            }
            match copy.mask_store.macs.try_set_ranges(&masks, macs.as_slice()) {
                Ok(()) => {},
                Err(_) => return true,
            }
        }
        if let Some(shares) = &flush.share_proof {
            let n: usize = self.view.gen_reveal.len();
            if shares.bits.len() < n || shares.macs.len() < n {
                return false;
            }
        }
        match copy.receive_shares(
            &self.view.gen_reveal,
            &self.view.public_decode,
            &flush.share_proof,
        ) {
            Ok(()) => {},
            Err(_) => return true,
        }
        let inputs = flush.half_masked_inputs.as_slice();
        if !copy.masked_value_store.flips_reached_by(&self.view.eval_reveal, inputs) {
            return false;
        }
        match copy.masked_value_store.update_xor_ranges(&self.view.eval_reveal, inputs) {
            Ok(()) => {},
            Err(_) => return true,
        }
        match copy.output_bits(&self.view.decode_info, &flush.labels) {
            Ok(bits) => copy.masked_value_store.reached_by(
                &self.view.decode_info,
                bits.as_slice(),
            ),
            Err(_) => true,
        }
    }

    /// Receives a flush from the evaluator.
    ///
    /// The MACs of the COTs are handed in if they are ready. The values that can be decoded now
    /// are returned.
    pub fn receive_flush(&mut self, flush: AuthEvalFlush, macs: Option<Vec<Mac>>) -> (r: Result<
        Vec<Decoded>,
        AuthGenStoreError,
    >)
        requires
            old(self).wf(),
            old(self).takes(flush, macs),
        ensures
            final(self).wf(),
            if !old(self).pending || old(self).pending_flush is None {
                &&& r == Err::<Vec<Decoded>, AuthGenStoreError>(
                    AuthGenStoreError::UnexpectedFlush,
                )
                &&& *final(self) == *old(self)
            } else if flush.view@ != old(self).view@ {
                &&& r matches Err(err)
                &&& err matches AuthGenStoreError::InconsistentFlush { expected, actual }
                &&& expected@ == old(self).view@
                &&& actual@ == flush.view@
                &&& *final(self) == (AuthGenStore { pending_flush: None, ..*old(self) })
            } else if old(self).pending_flush == Some(true) && macs is None {
                &&& r == Err::<Vec<Decoded>, AuthGenStoreError>(AuthGenStoreError::CotNotReady)
                &&& *final(self) == (AuthGenStore { pending_flush: None, ..*old(self) })
            } else {
                let (memory, err) = flush_received(
                    old(self).memory(),
                    old(self).key_store.delta,
                    old(self).view@,
                    if old(self).pending_flush == Some(true) {
                        cot_macs(macs)
                    } else {
                        None
                    },
                    shown(flush.share_proof),
                    flush.half_masked_inputs@,
                    flush.labels@,
                    shown(flush.decode_share_proof),
                );
                &&& final(self).memory() == memory
                &&& final(self).rng == old(self).rng
                &&& final(self).key_store.delta == old(self).key_store.delta
                &&& final(self).auth_hash == old(self).auth_hash
                &&& final(self).pending_flush is None
                &&& match err {
                    Some(err) => {
                        &&& r == Err::<Vec<Decoded>, AuthGenStoreError>(err)
                        &&& final(self).pending
                        &&& final(self).view == old(self).view
                        &&& final(self).buffer_decode == old(self).buffer_decode
                    },
                    None => {
                        &&& r matches Ok(decoded)
                        &&& are_decoded(
                            decoded@,
                            decodable(old(self).buffer_decode@, memory.data),
                            memory.data,
                        )
                        &&& final(self).buffer_decode@ == undecodable(
                            old(self).buffer_decode@,
                            memory.data,
                        )
                        &&& final(self).view.is_idle()
                        &&& !final(self).pending
                    },
                }
            },
    {
        if !self.pending {
            return Err(AuthGenStoreError::UnexpectedFlush);
        }
        let cot = match self.pending_flush {
            Some(cot) => cot,
            None => return Err(AuthGenStoreError::UnexpectedFlush),
        };
        self.pending_flush = None;
        let AuthEvalFlush { view, share_proof, half_masked_inputs, labels, decode_share_proof } =
            flush;
        if !view.equals(&self.view) {
            return Err(
                AuthGenStoreError::InconsistentFlush { expected: self.view.copy(), actual: view },
            );
        }
        // Receive OT macs for masks, expects COT to be flushed.
        let view = self.view.copy();
        let inputs = view.gen_masks.union(&view.eval_masks);
        let masks = inputs.union(&view.public);
        let macs = if cot {
            match macs {
                Some(macs) => Some(macs),
                None => return Err(AuthGenStoreError::CotNotReady),
            }
        } else {
            None
        };
        proof {
            lemma_united(view, inputs, masks);
            lemma_flush_received_aligned(
                self.memory(),
                self.key_store.delta,
                view@,
                cot_macs(macs),
                shown(share_proof),
                half_masked_inputs@,
                labels@,
                shown(decode_share_proof),
            );
        }
        match self.receive_macs(&masks, macs) {
            Ok(()) => {},
            Err(err) => return Err(err),
        }
        match self.receive_shares(&view.gen_reveal, &view.public_decode, &share_proof) {
            Ok(()) => {},
            Err(err) => return Err(err),
        }
        // Update masked values with eval's half masked inputs
        match self.masked_value_store.update_xor_ranges(
            &view.eval_reveal,
            half_masked_inputs.as_slice(),
        ) {
            Ok(()) => {},
            Err(err) => return Err(AuthGenStoreError::Store(err)),
        }
        match self.receive_outputs(&view.decode_info, &labels) {
            Ok(()) => {},
            Err(err) => return Err(err),
        }
        match self.receive_decode(&view.eval_decode, &decode_share_proof) {
            Ok(()) => {},
            Err(err) => return Err(err),
        }
        self.view = AuthFlushView::new();
        let decoded = self.flush_decode();
        self.pending = false;
        Ok(decoded)
    }
}

/// An error, if there is one, as a result.
pub open spec fn refusal(err: Option<AuthGenStoreError>) -> Result<(), AuthGenStoreError> {
    match err {
        Some(err) => Err(err),
        None => Ok(()),
    }
}

/// What a filter keeps of one item more.
proof fn lemma_filter_take(slices: Seq<Slice>, keep: spec_fn(Slice) -> bool, i: int)
    requires
        0 <= i < slices.len(),
    ensures
        slices.take(i + 1).filter(keep) == if keep(slices[i]) {
            slices.take(i).filter(keep).push(slices[i])
        } else {
            slices.take(i).filter(keep)
        },
{
    reveal(Seq::filter);
    assert(slices.take(i + 1).drop_last() =~= slices.take(i));
}

proof fn lemma_label_bits_stop(keys: Seq<Key>, labels: Seq<Mac>, delta: Delta, n: nat, m: nat)
    requires
        n <= m,
    ensures
        label_bits(keys, labels, delta, n) is Err ==> label_bits(keys, labels, delta, m)
            == label_bits(keys, labels, delta, n),
    decreases m,
{
    if n < m {
        lemma_label_bits_stop(keys, labels, delta, n, (m - 1) as nat);
    }
}

/// The bits of labels are found up to the first label that stands for none.
pub proof fn lemma_label_bits(keys: Seq<Key>, labels: Seq<Mac>, delta: Delta, n: nat)
    requires
        n <= usize::MAX,
    ensures
        match label_bits(keys, labels, delta, n) {
            Ok(bits) => {
                &&& bits.len() == n
                &&& forall|i: int|
                    0 <= i < n ==> #[trigger] label_bit(keys[i], labels[i], delta) == Some(bits[i])
            },
            Err(index) => {
                &&& index < n
                &&& label_bit(keys[index as int], labels[index as int], delta) is None
                &&& forall|i: int|
                    0 <= i < index ==> (#[trigger] label_bit(keys[i], labels[i], delta)) is Some
            },
        },
    decreases n,
{
    if n > 0 {
        lemma_label_bits(keys, labels, delta, (n - 1) as nat);
    }
}

proof fn lemma_decoded_stop(memory: GenMemory, ranges: Seq<Slice>, bits: Seq<bool>, n: nat)
    requires
        n <= ranges.len(),
    ensures
        ranges_decoded(memory, ranges, bits, n).1 is Some ==> ranges_decoded(
            memory,
            ranges,
            bits,
            ranges.len(),
        ) == ranges_decoded(memory, ranges, bits, n),
    decreases ranges.len() - n,
{
    if n < ranges.len() {
        lemma_decoded_stop(memory, ranges, bits, n + 1);
    }
}

/// Writing and flipping keep the size of a memory.
proof fn lemma_sizes<T>(
    memory: Memory<T>,
    bits: Memory<bool>,
    ranges: Seq<Slice>,
    values: Seq<T>,
    flips: Seq<bool>,
    n: nat,
)
    ensures
        write_ranges(memory, ranges, values, n).0.len() == memory.len(),
        write_each(memory, ranges, values, n).0.len() == memory.len(),
        flip_ranges(bits, ranges, flips, n).0.len() == bits.len(),
    decreases n,
{
    if n > 0 {
        lemma_sizes(memory, bits, ranges, values, flips, (n - 1) as nat);
    }
}

proof fn lemma_mask_public_size(
    masked: Memory<bool>,
    data: Memory<bool>,
    ranges: Seq<Slice>,
    bits: Seq<bool>,
    n: nat,
)
    ensures
        mask_public(masked, data, ranges, bits, n).0.len() == masked.len(),
    decreases n,
{
    if n > 0 {
        lemma_mask_public_size(masked, data, ranges, bits, (n - 1) as nat);
    }
}

proof fn lemma_inputs_aligned(memory: GenMemory, ranges: Seq<Slice>, n: nat)
    requires
        aligned(memory),
    ensures
        aligned(inputs_sent(memory, ranges, n).0),
    decreases n,
{
    if n > 0 {
        lemma_inputs_aligned(memory, ranges, (n - 1) as nat);
    }
}

proof fn lemma_decoded_aligned(memory: GenMemory, ranges: Seq<Slice>, bits: Seq<bool>, n: nat)
    requires
        aligned(memory),
    ensures
        aligned(ranges_decoded(memory, ranges, bits, n).0),
    decreases n,
{
    if n > 0 {
        lemma_decoded_aligned(memory, ranges, bits, (n - 1) as nat);
    }
}

/// Sending what a flush holds leaves all stores with the same addresses, whether it succeeds or not.
pub proof fn lemma_contents_aligned(
    memory: GenMemory,
    delta: Delta,
    view: FlushRanges,
    cot: Option<(Seq<Key>, Seq<bool>)>,
)
    requires
        aligned(memory),
    ensures
        aligned(contents_sent(memory, delta, view, cot).0),
{
    let no_bits = Seq::<bool>::empty();
    let reveal = view.eval_reveal;
    if let Ok((bits1, macs1)) = share_proof(memory.mask_bits, memory.mask_macs, reveal) {
        lemma_sizes(memory.masked, memory.masked, reveal, bits1, no_bits, reveal.len());
        let masked = write_ranges(memory.masked, reveal, bits1, reveal.len()).0;
        let public = view.public_decode;
        if let Ok((bits2, macs2)) = share_proof(memory.mask_bits, memory.mask_macs, public) {
            lemma_mask_public_size(masked, memory.data, public, bits2, public.len());
        }
    }
    let (memory, shares) = shares_sent(memory, reveal, view.public_decode);
    assert(aligned(memory));
    lemma_inputs_aligned(memory, view.gen_reveal, view.gen_reveal.len());
}

/// Receiving a flush leaves all stores with the same addresses, whether it succeeds or not.
pub proof fn lemma_flush_received_aligned(
    memory: GenMemory,
    delta: Delta,
    view: FlushRanges,
    macs: Option<Seq<Mac>>,
    shares: Option<(Seq<bool>, Seq<Mac>)>,
    inputs: Seq<bool>,
    labels: Seq<Mac>,
    decode: Option<(Seq<bool>, Seq<Mac>)>,
)
    requires
        aligned(memory),
    ensures
        aligned(flush_received(memory, delta, view, macs, shares, inputs, labels, decode).0),
{
    let ranges = masks_of(view);
    if let Some(macs) = macs {
        lemma_sizes(memory.mask_macs, memory.masked, ranges, macs, inputs, ranges.len());
    }
    let (memory, _) = macs_received(memory, ranges, macs);
    assert(aligned(memory));
    let (reveal, public) = (view.gen_reveal, view.public_decode);
    if let Some((bits, proofs)) = shares {
        let n = offset(reveal, reveal.len()) as int;
        lemma_sizes(memory.masked, memory.masked, reveal, bits, bits.take(n), reveal.len());
        let masked = flip_ranges(memory.masked, reveal, bits.take(n), reveal.len()).0;
        lemma_sizes(masked, masked, public, bits, bits.skip(n), public.len());
    }
    let (memory, _) = shares_received(memory, delta, reveal, public, shares);
    assert(aligned(memory));
    let reveal = view.eval_reveal;
    lemma_sizes(memory.masked, memory.masked, reveal, inputs, inputs, reveal.len());
    let (memory, _) = inputs_received(memory, reveal, inputs);
    assert(aligned(memory));
    let info = view.decode_info;
    if let Ok(bits) = label_values(memory, delta, info, labels) {
        lemma_sizes(memory.masked, memory.masked, info, bits, bits, info.len());
    }
    let (memory, _) = outputs_received(memory, delta, info, labels);
    assert(aligned(memory));
    if let Some((bits, proofs)) = decode {
        lemma_decoded_aligned(memory, view.eval_decode, bits, view.eval_decode.len());
    }
}

/// The union of the three sets is in the one canonical form.
proof fn lemma_united(view: AuthFlushView, inputs: RangeSet, masks: RangeSet)
    requires
        masks.wf(),
        inputs.addresses() == view.gen_masks.addresses().union(view.eval_masks.addresses()),
        masks.addresses() == inputs.addresses().union(view.public.addresses()),
    ensures
        masks.ranges@ == masks_of(view@),
{
    let (a, b, c) = (view@.gen_masks, view@.eval_masks, view@.public);
    assert forall|i: int|
        covers(masks.ranges@, i) == (covers(a, i) || covers(b, i) || covers(c, i)) by {
        assert(masks.addresses().contains(i) == (inputs.addresses().contains(i)
            || view.public.addresses().contains(i)));
        assert(inputs.addresses().contains(i) == (view.gen_masks.addresses().contains(i)
            || view.eval_masks.addresses().contains(i)));
    }
    let want = masks_of(view@);
    assert forall|i: int| covers(masks.ranges@, i) == covers(want, i) by {
        assert(covers(want, i) == (covers(a, i) || covers(b, i) || covers(c, i)));
    }
    lemma_one_form(masks.ranges@, want);
}

proof fn lemma_mask_public_stops(
    masked: Memory<bool>,
    data: Memory<bool>,
    ranges: Seq<Slice>,
    bits: Seq<bool>,
    n: nat,
)
    requires
        n <= ranges.len(),
    ensures
        mask_public(masked, data, ranges, bits, n).1 is Some ==> mask_public(
            masked,
            data,
            ranges,
            bits,
            ranges.len(),
        ) == mask_public(masked, data, ranges, bits, n),
    decreases ranges.len() - n,
{
    if n < ranges.len() {
        lemma_mask_public_stops(masked, data, ranges, bits, n + 1);
    }
}

proof fn lemma_inputs_stop(memory: GenMemory, ranges: Seq<Slice>, n: nat)
    requires
        n <= ranges.len(),
    ensures
        inputs_sent(memory, ranges, n).1 is Err ==> inputs_sent(memory, ranges, ranges.len())
            == inputs_sent(memory, ranges, n),
    decreases ranges.len() - n,
{
    if n < ranges.len() {
        lemma_inputs_stop(memory, ranges, n + 1);
    }
}

proof fn lemma_labels_stop(memory: GenMemory, delta: Delta, ranges: Seq<Slice>, n: nat)
    requires
        n <= ranges.len(),
    ensures
        labels_of(memory, delta, ranges, n) is Err ==> labels_of(
            memory,
            delta,
            ranges,
            ranges.len(),
        ) == labels_of(memory, delta, ranges, n),
    decreases ranges.len() - n,
{
    if n < ranges.len() {
        lemma_labels_stop(memory, delta, ranges, n + 1);
    }
}

} // verus!
