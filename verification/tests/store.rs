//! Memory stores and what the parties exchange when they flush.

use mpz_garble::block::Block;
use mpz_garble::correlated::{Delta, Key, Mac};
use mpz_garble::rng::SeededRng;
use mpz_garble::store::auth_gen::CotRequest;
use mpz_garble::store::flush::{GarblerFlushUnchecked, MacCommitment};
use mpz_garble::store::{
    AuthEvalFlush, AuthFlushView, AuthGenStore, AuthGenStoreError, BitStore, GarblerFlush,
    RangeSet, ShareProof, Slice, StoreError,
};

/// A flush of the evaluator that only says what it does.
fn flush_of(view: AuthFlushView) -> AuthEvalFlush {
    AuthEvalFlush {
        view,
        share_proof: None,
        half_masked_inputs: vec![],
        labels: vec![],
        decode_share_proof: None,
    }
}

/// A store with an input of four bits, whose masks are made; the evaluator's bits and its MACs.
struct Fixture {
    store: AuthGenStore,
    delta: Delta,
    slice: Slice,
    data: Vec<bool>,
    choices: Vec<bool>,
    eval_bits: Vec<bool>,
    eval_macs: Vec<Mac>,
}

impl Fixture {
    fn new() -> Fixture {
        let mut rng = SeededRng::seed_from_u64(17);
        let delta = Delta::random(&mut rng);
        let delta_b = Delta::random(&mut rng);
        let mut store = AuthGenStore::new(rng, delta);
        let slice = store.alloc_raw(4);
        let data = vec![true, false, true, true];
        store.assign_raw(slice, &data).unwrap();
        assert!(store.is_assigned_raw(slice));
        assert!(store.is_set_keys(slice));
        assert!(!store.is_set_masks(slice));
        assert!(!store.wants_flush());

        let mut view = AuthFlushView::new();
        view.gen_masks = RangeSet::from_slice(slice);
        store.set_view(view.copy());
        assert!(store.wants_flush());
        let (flush, request) = store.send_flush().unwrap();
        assert!(flush.view.equals(&view));
        let request = request.unwrap();
        assert_eq!((request.keys.len(), request.choices.len()), (4, 4));

        // The oblivious transfers: each party gets the MACs of its bits.
        let eval_bits = vec![false, true, true, false];
        let eval_macs = auth(&request.keys, &eval_bits, &delta);
        let keys: Vec<Key> = (0..4u8).map(|i| Key::from(Block::from([i; 16]))).collect();
        let gen_macs = auth(&keys, &request.choices, &delta_b);
        let decoded = store.receive_flush(flush_of(view), Some(gen_macs.clone())).unwrap();
        assert!(decoded.is_empty());
        assert!(store.is_set_masks(slice));
        assert_eq!(store.try_get_mask_bits(slice).unwrap(), request.choices);
        assert_eq!(store.try_get_mask_macs(slice).unwrap(), gen_macs);
        assert_eq!(store.try_get_mask_keys(slice).unwrap(), request.keys);
        let choices = request.choices;
        Fixture { store, delta, slice, data, choices, eval_bits, eval_macs }
    }
}

/// The MACs of bits.
fn auth(keys: &[Key], bits: &[bool], delta: &Delta) -> Vec<Mac> {
    keys.iter().zip(bits).map(|(key, bit)| key.auth(*bit, delta)).collect()
}

#[test]
fn inputs_are_masked_and_labelled() {
    let mut f = Fixture::new();
    let mut view = AuthFlushView::new();
    view.gen_reveal = RangeSet::from_slice(f.slice);
    f.store.set_view(view.copy());
    let (flush, request) = f.store.send_flush().unwrap();
    assert!(request.is_none());
    let half: Vec<bool> = (0..4).map(|i| f.choices[i] ^ f.data[i]).collect();
    assert_eq!(flush.half_masked_inputs, half);

    let mut answer = flush_of(view);
    answer.share_proof = Some(ShareProof { bits: f.eval_bits.clone(), macs: f.eval_macs.clone() });
    f.store.receive_flush(answer, None).unwrap();
    let masked: Vec<bool> = (0..4).map(|i| half[i] ^ f.eval_bits[i]).collect();
    assert_eq!(f.store.try_get_masked_values(f.slice).unwrap(), masked);

    let mut view = AuthFlushView::new();
    view.labels = RangeSet::from_slice(f.slice);
    f.store.set_view(view.copy());
    let (flush, _) = f.store.send_flush().unwrap();
    let keys = f.store.try_get_keys(f.slice).unwrap();
    assert_eq!(flush.labels, auth(&keys, &masked, &f.delta));
    f.store.receive_flush(flush_of(view), None).unwrap();
    assert_eq!(f.store.get_raw(f.slice).unwrap(), f.data);
}

#[test]
fn forged_shares_are_refused() {
    let mut f = Fixture::new();
    let mut view = AuthFlushView::new();
    view.gen_reveal = RangeSet::from_slice(f.slice);
    f.store.set_view(view.copy());
    f.store.send_flush().unwrap();
    let mut bits = f.eval_bits.clone();
    bits[2] = !bits[2];
    let mut answer = flush_of(view);
    answer.share_proof = Some(ShareProof { bits, macs: f.eval_macs.clone() });
    assert!(matches!(
        f.store.receive_flush(answer, None),
        Err(AuthGenStoreError::AuthBitStore(StoreError::InvalidShare { index: 2 }))
    ));
}

/// A store with an output of two bits that waits to be decoded, and its keys.
fn with_output(seed: u64) -> (AuthGenStore, Delta, Slice, Vec<Key>, Vec<Key>) {
    let mut rng = SeededRng::seed_from_u64(seed);
    let delta = Delta::random(&mut rng);
    let keys: Vec<Key> = (0..2).map(|_| Key::from(rng.next_block())).collect();
    let mask_keys: Vec<Key> = (0..2).map(|_| Key::from(rng.next_block())).collect();
    let mut store = AuthGenStore::new(rng, delta);
    let slice = store.alloc_output(2);
    store.set_output(slice, &keys, &[true, false], &[Mac::default(); 2], &mask_keys).unwrap();
    assert!(store.decode_raw(slice).is_none());
    (store, delta, slice, keys, mask_keys)
}

#[test]
fn outputs_are_decoded() {
    let (mut store, delta, slice, keys, mask_keys) = with_output(5);
    let mut view = AuthFlushView::new();
    view.decode_info = RangeSet::from_slice(slice);
    view.eval_decode = RangeSet::from_slice(slice);
    store.set_view(view.copy());
    store.send_flush().unwrap();

    // The masked values are 1 and 1; the masks are 1 + 0 and 0 + 1.
    let mut answer = flush_of(view);
    answer.labels = auth(&keys, &[true, true], &delta);
    let bits = vec![false, true];
    let macs = auth(&mask_keys, &bits, &delta);
    answer.decode_share_proof = Some(ShareProof { bits, macs });
    let decoded = store.receive_flush(answer, None).unwrap();
    assert_eq!(decoded, vec![(slice, vec![false, false])]);
    assert_eq!(store.get_raw(slice).unwrap(), vec![false, false]);
    // What is set is decoded at once.
    assert_eq!(store.decode_raw(slice), Some(vec![false, false]));
}

#[test]
fn labels_of_outputs_are_checked() {
    let (mut store, delta, slice, keys, _) = with_output(6);
    let mut view = AuthFlushView::new();
    view.decode_info = RangeSet::from_slice(slice);
    store.set_view(view.copy());
    store.send_flush().unwrap();
    let mut answer = flush_of(view);
    answer.labels = auth(&keys, &[true, true], &delta);
    answer.labels[1] = Mac::default();
    assert!(matches!(
        store.receive_flush(answer, None),
        Err(AuthGenStoreError::OutputLabelMismatch { index: 1 })
    ));
}

#[test]
fn flushes_out_of_turn_are_refused() {
    let (mut store, _, slice, _, _) = with_output(7);
    assert!(matches!(
        store.receive_flush(flush_of(AuthFlushView::new()), None),
        Err(AuthGenStoreError::UnexpectedFlush)
    ));
    let mut view = AuthFlushView::new();
    view.decode_info = RangeSet::from_slice(slice);
    store.set_view(view);
    store.send_flush().unwrap();
    assert!(matches!(store.send_flush(), Err(AuthGenStoreError::UnexpectedFlush)));
    assert!(matches!(
        store.receive_flush(flush_of(AuthFlushView::new()), None),
        Err(AuthGenStoreError::InconsistentFlush { .. })
    ));
}

#[test]
fn the_transfers_are_waited_for() {
    let mut rng = SeededRng::seed_from_u64(2);
    let delta = Delta::random(&mut rng);
    let mut store = AuthGenStore::new(rng, delta);
    let slice = store.alloc_raw(3);
    let mut view = AuthFlushView::new();
    view.eval_masks = RangeSet::from_slice(slice);
    store.set_view(view.copy());
    store.send_flush().unwrap();
    assert!(matches!(
        store.receive_flush(flush_of(view), None),
        Err(AuthGenStoreError::CotNotReady)
    ));
}

#[test]
fn the_hash_accumulates() {
    let mut rng = SeededRng::seed_from_u64(3);
    let delta = Delta::random(&mut rng);
    let (a, b) = (rng.next_block(), rng.next_block());
    let mut store = AuthGenStore::new(rng, delta);
    assert_eq!(store.delta(), &delta);
    assert_eq!(store.get_hash(), Block::zero());
    store.update_hash(a);
    store.update_hash(b);
    assert_eq!(store.get_hash(), a ^ b);
}

#[test]
fn slots_are_set_once() {
    let mut store = BitStore::new();
    let slice = store.allocate(3);
    let whole = Slice { start: 0, end: 4 };
    assert_eq!(store.try_get(slice), Err(StoreError::Uninit { slice }));
    assert_eq!(store.try_get(whole), Err(StoreError::OutOfBounds { slice: whole, len: 3 }));
    assert_eq!(
        store.try_set(slice, &[true]),
        Err(StoreError::LengthMismatch { expected: 3, actual: 1 })
    );
    assert_eq!(store.try_set(slice, &[true, false, true]), Ok(()));
    assert_eq!(store.try_set(slice, &[true; 3]), Err(StoreError::AlreadySet { slice }));
    assert_eq!(store.try_get(slice), Ok(vec![true, false, true]));
    assert_eq!(store.update_xor(slice, &[true, true, false]), Ok(()));
    assert_eq!(store.try_get(slice), Ok(vec![false, true, true]));
}

#[test]
fn unions_are_canonical() {
    let set = |start, end| RangeSet::from_slice(Slice { start, end });
    let a = set(0, 4).union(&set(8, 10));
    assert_eq!(a.len(), 6);
    let b = set(3, 8);
    assert!(a.union(&b).equals(&set(0, 10)));
    assert!(b.union(&a).equals(&set(0, 10)));
    assert!(set(5, 5).is_empty());
    assert!(RangeSet::new().union(&a).equals(&a));
}

#[test]
fn commitments_are_counted() {
    let commitment = MacCommitment { first: Block::zero(), second: Block::zero() };
    let refused = GarblerFlush::try_from(GarblerFlushUnchecked {
        macs: vec![],
        key_bits: vec![true, false],
        mac_commitments: vec![commitment],
    });
    assert_eq!(
        refused.unwrap_err(),
        "garbler sent flush with invalid number of MAC commitments"
    );
    let accepted = GarblerFlush::try_from(GarblerFlushUnchecked {
        macs: vec![Mac::default()],
        key_bits: vec![true],
        mac_commitments: vec![commitment],
    });
    assert_eq!(accepted.unwrap().key_bits, vec![true]);
}

#[test]
fn short_flushes_are_refused_for_what_comes_first() {
    // One label for two addresses: a wrong one is refused, a right one leaves the rest unsaid.
    let (mut store, delta, slice, keys, _) = with_output(8);
    let mut view = AuthFlushView::new();
    view.decode_info = RangeSet::from_slice(slice);
    store.set_view(view.copy());
    store.send_flush().unwrap();
    let mut answer = flush_of(view);
    answer.labels = auth(&keys[..1], &[true], &delta);
    assert!(!store.can_receive(&answer, &None));
    answer.labels = vec![Mac::default()];
    assert!(store.can_receive(&answer, &None));
    assert!(matches!(
        store.receive_flush(answer, None),
        Err(AuthGenStoreError::OutputLabelMismatch { index: 0 })
    ));
}

#[test]
fn forged_shares_are_refused_before_inputs_are_read() {
    let mut f = Fixture::new();
    let mut view = AuthFlushView::new();
    let middle = f.slice.start + 2;
    view.gen_reveal = RangeSet::from_slice(Slice { start: f.slice.start, end: middle });
    view.eval_reveal = RangeSet::from_slice(Slice { start: middle, end: f.slice.end });
    f.store.set_view(view.copy());
    f.store.send_flush().unwrap();
    let (right, macs) = (f.eval_bits[..2].to_vec(), f.eval_macs[..2].to_vec());
    let forged = vec![!right[0], right[1]];
    let mut answer = flush_of(view);
    // No half-masked input of the evaluator's is there.
    answer.share_proof = Some(ShareProof { bits: right, macs: macs.clone() });
    assert!(!f.store.can_receive(&answer, &None));
    answer.share_proof = Some(ShareProof { bits: forged, macs });
    assert!(f.store.can_receive(&answer, &None));
    assert!(matches!(
        f.store.receive_flush(answer, None),
        Err(AuthGenStoreError::AuthBitStore(StoreError::InvalidShare { index: 0 }))
    ));
}

#[test]
fn keys_and_choices_can_be_given() {
    let mut rng = SeededRng::seed_from_u64(21);
    let delta = Delta::random(&mut rng);
    let keys: Vec<Key> = rng.next_blocks(3).into_iter().map(Key::from).collect();
    let mask_keys: Vec<Key> = rng.next_blocks(3).into_iter().map(Key::from).collect();
    let choices = vec![true, false, true];
    let mut store = AuthGenStore::new(rng, delta);
    let slice = store.alloc_with_keys(&keys);
    assert_eq!(store.try_get_keys(slice).unwrap(), keys);

    let mut view = AuthFlushView::new();
    view.gen_masks = RangeSet::from_slice(slice);
    store.set_view(view);
    let (_, request) = store.send_flush_with(mask_keys.clone(), choices.clone()).unwrap();
    let request = request.unwrap();
    assert_eq!((&request.keys, &request.choices), (&mask_keys, &choices));
    assert_eq!(store.try_get_mask_keys(slice).unwrap(), mask_keys);
    assert_eq!(store.try_get_mask_bits(slice).unwrap(), choices);
}

#[test]
fn too_few_keys_are_refused() {
    let mut rng = SeededRng::seed_from_u64(22);
    let delta = Delta::random(&mut rng);
    let mut store = AuthGenStore::new(rng, delta);
    let slice = store.alloc_raw(3);
    let mut view = AuthFlushView::new();
    view.gen_masks = RangeSet::from_slice(slice);
    store.set_view(view);
    assert!(matches!(
        store.send_flush_with(vec![Key::default(); 2], vec![false; 3]),
        Err(AuthGenStoreError::AuthBitStore(StoreError::LengthMismatch { expected: 3, actual: 2 }))
    ));
    assert!(!store.pending);
}

#[test]
fn a_flush_can_be_sent_in_steps() {
    let start = || {
        let mut rng = SeededRng::seed_from_u64(23);
        let delta = Delta::random(&mut rng);
        let mut store = AuthGenStore::new(rng, delta);
        let slice = store.alloc_raw(3);
        let mut view = AuthFlushView::new();
        view.gen_masks = RangeSet::from_slice(slice);
        store.set_view(view);
        (store, slice)
    };
    let (mut whole, slice) = start();
    let (_, request) = whole.send_flush().unwrap();
    let request = request.unwrap();

    let (mut store, _) = start();
    let keys = store.send_keys().unwrap().unwrap();
    assert_eq!(keys, request.keys);
    // The choices come once the keys are queued.
    assert_eq!(store.try_get_mask_keys(slice).unwrap(), keys);
    assert!(store.try_get_mask_bits(slice).is_err());
    assert!(!store.pending);
    let choices = store.send_choices().unwrap().unwrap();
    assert_eq!(choices, request.choices);
    let (_, cot) = store.send_contents(Some(CotRequest { keys, choices })).unwrap();
    assert_eq!(cot.unwrap().keys, request.keys);
    assert!(store.pending);
    assert_eq!(store.rng, whole.rng);
    assert!(matches!(store.send_keys(), Err(AuthGenStoreError::UnexpectedFlush)));
    store.drop_cot();
    assert!(matches!(
        store.receive_flush(flush_of(AuthFlushView::new()), None),
        Err(AuthGenStoreError::UnexpectedFlush)
    ));
}
