//! The half-gates scheme: what is refused, ids of gates, and slots of wires.

use mpz_garble::auth_eval::{AuthEval, AuthEvaluatorError};
use mpz_garble::auth_gen::{AuthGen, AuthGeneratorError};
use mpz_garble::block::Block;
use mpz_garble::circuit::{Circuit, CircuitError, EncryptedGate, Gate};
use mpz_garble::correlated::{Delta, Key, Mac};
use mpz_garble::half_gates::remapped_garbler::{
    RemappedGarbler, RemappedGarblerError, WireRemapping,
};
use mpz_garble::half_gates::{Evaluator, EvaluatorError, Garbler, GarblerError};
use mpz_garble::rng::SeededRng;
use mpz_garble::shares::AuthBitShare;

/// A cipher that mixes key, tweak and block.
fn cipher(key: [u8; 16]) -> impl Fn(Block, Block) -> Block {
    move |tweak: Block, x: Block| {
        let mixed = x.bits.rotate_left(7) ^ tweak.bits.wrapping_mul(0x9e37_79b9_7f4a_7c15);
        Block { bits: mixed.wrapping_mul(0x2545_f491_4f6c_dd1d) ^ Block::from(key).bits }
    }
}

/// (a AND b) XOR a, and its inverse.
fn circuit() -> Circuit {
    let gates = vec![
        Gate::And { x: 0, y: 1, z: 2 },
        Gate::Xor { x: 2, y: 0, z: 3 },
        Gate::Inv { x: 3, z: 4 },
    ];
    Circuit::new(2, 5, 3, 5, gates).unwrap()
}

#[test]
fn states_are_kept_to() {
    let circ = circuit();
    let delta = Delta::random(&mut SeededRng::seed_from_u64(1));
    let keys = [Key::default(); 2];

    let mut garbler = Garbler::new(delta);
    assert!(!garbler.is_setup());
    assert!(matches!(garbler.generate(&circ, &keys, &cipher), Err(GarblerError::NotSetup)));

    let mut garbler = Garbler::with_initial(delta, 5, 6);
    let msg = garbler.setup().unwrap();
    assert!(garbler.is_setup());
    assert_eq!(msg.initial_gid, 5);
    assert!(matches!(
        garbler.generate(&circ, &keys[..1], &cipher),
        Err(GarblerError::InputLength { expected: 2, actual: 1 })
    ));
    let worker = garbler.alloc_worker(2).unwrap();
    // One gate was allocated before; each takes two ids.
    assert_eq!((worker.initial_id, worker.count), (7, 2));
    assert!(worker.generate(&circ, &keys, &cipher).is_ok());
    let worker = garbler.alloc_worker(0).unwrap();
    assert_eq!(worker.initial_id, 11);
    assert!(matches!(
        worker.generate(&circ, &keys, &cipher),
        Err(GarblerError::GateCountMismatch { expected: 0, actual: 1 })
    ));
    let iter = garbler.generate(&circ, &keys, &cipher).unwrap();
    assert!(matches!(iter.finish(), Err(GarblerError::NotFinished)));
    assert!(matches!(garbler.setup(), Err(GarblerError::AlreadySetup)));

    let mut evaluator = Evaluator::new();
    let macs = [Mac::default(); 2];
    assert!(matches!(evaluator.evaluate(&circ, &macs, &cipher), Err(EvaluatorError::NotSetup)));
    let mut evaluator = Evaluator::default();
    evaluator.setup(msg).unwrap();
    assert!(evaluator.is_setup());
    assert!(matches!(evaluator.setup(msg), Err(EvaluatorError::AlreadySetup)));
    assert!(matches!(
        evaluator.evaluate(&circ, &macs[..1], &cipher),
        Err(EvaluatorError::InputLength { expected: 2, actual: 1 })
    ));
    let worker = evaluator.alloc_worker(0).unwrap();
    assert!(matches!(
        worker.evaluate(&circ, &macs, &cipher),
        Err(EvaluatorError::GateCountMismatch { expected: 0, actual: 1 })
    ));
    let consumer = evaluator.evaluate(&circ, &macs, &cipher).unwrap();
    assert!(matches!(consumer.finish(), Err(EvaluatorError::NotFinished)));
}

#[test]
fn all_inputs_give_the_right_macs() {
    let circ = circuit();
    let mut rng = SeededRng::seed_from_u64(2);
    let delta = Delta::random(&mut rng);
    let keys = [Key::from(rng.next_block()), Key::from(rng.next_block())];
    let mut garbler = Garbler::with_initial(delta, 1, 0);
    let msg = garbler.setup().unwrap();
    let mut iter = garbler.generate(&circ, &keys, &cipher).unwrap();
    let gate = iter.next().unwrap();
    assert!(iter.next().is_none());
    let outputs = iter.finish().unwrap().outputs;
    for (a, b) in [(false, false), (false, true), (true, false), (true, true)] {
        let mut evaluator = Evaluator::default();
        evaluator.setup(msg).unwrap();
        let macs = [keys[0].auth(a, &delta), keys[1].auth(b, &delta)];
        let mut consumer = evaluator.evaluate(&circ, &macs, &cipher).unwrap();
        consumer.next(gate);
        let result = consumer.finish().unwrap().outputs;
        let value = (a && b) ^ a;
        assert_eq!(result[0], outputs[0].auth(value, &delta));
        assert_eq!(result[1], outputs[1].auth(!value, &delta));
    }
}

#[test]
fn batches_end_with_empty_gates() {
    let circ = circuit();
    let delta = Delta::random(&mut SeededRng::seed_from_u64(3));
    let keys = [Key::default(); 2];
    let mut garbler = Garbler::with_initial(delta, 1, 0);
    garbler.setup().unwrap();
    let mut batches = garbler.generate_batched(&circ, &keys, &cipher).unwrap();
    let batch = batches.next().unwrap().into_array();
    assert_eq!(batch.len(), 128);
    assert_ne!(batch[0], EncryptedGate::default());
    assert!(batch[1..].iter().all(|gate| *gate == EncryptedGate::default()));
    assert!(batches.next().is_none());
}

#[test]
fn descriptions_that_are_no_circuits() {
    assert!(matches!(Circuit::new(3, 2, 0, 1, vec![]), Err(CircuitError::Inputs)));
    let twice = vec![Gate::Inv { x: 0, z: 2 }, Gate::Inv { x: 1, z: 2 }];
    assert!(matches!(Circuit::new(2, 3, 2, 3, twice), Err(CircuitError::Gate { index: 1 })));
    let early = vec![Gate::Inv { x: 3, z: 2 }, Gate::Inv { x: 1, z: 3 }];
    assert!(matches!(Circuit::new(2, 4, 2, 4, early), Err(CircuitError::Gate { index: 0 })));
    assert!(matches!(Circuit::new(2, 4, 1, 4, vec![]), Err(CircuitError::Outputs)));
}

#[test]
fn slots_are_shared() {
    // Each inverter's operand is read for the last time.
    let gates = (0..6).map(|i| Gate::Inv { x: 1 + i, z: 2 + i }).collect();
    let circ = Circuit::new(2, 8, 7, 8, gates).unwrap();
    let remapping = WireRemapping::compute(&circ);
    assert!(remapping.num_slots() < circ.feed_count());
    assert_eq!(remapping.inputs(), 0..2);
    assert_eq!(remapping.outputs(), 7..8);
    assert!((0..8).all(|wire| remapping.slot(wire) < remapping.num_slots()));

    let garbler = RemappedGarbler::new(remapping);
    let delta = Delta::random(&mut SeededRng::seed_from_u64(4));
    let hash = cipher([0; 16]);
    assert!(matches!(
        garbler.generate(&circ, delta, &[Key::default()], &hash),
        Err(RemappedGarblerError::InputLength { expected: 2, actual: 1 })
    ));
    let key = Key::from(Block::from([9; 16]));
    let iter = garbler.generate(&circ, delta, &[key, key], &hash).unwrap();
    // Six inverters cancel out.
    assert_eq!(iter.finish().unwrap().outputs, vec![key]);
}

#[test]
fn unfinished_slots_are_refused() {
    let circ = circuit();
    let garbler = RemappedGarbler::new(WireRemapping::compute(&circ));
    let delta = Delta::random(&mut SeededRng::seed_from_u64(4));
    let hash = cipher([0; 16]);
    let mut batches =
        garbler.generate_batched(&circ, delta, &[Key::default(); 2], &hash).unwrap();
    assert!(batches.has_gates());
    batches.next().unwrap();
    assert_eq!(batches.finish().unwrap().outputs.len(), 2);
    let iter = garbler.generate(&circ, delta, &[Key::default(); 2], &hash).unwrap();
    assert!(matches!(iter.finish(), Err(RemappedGarblerError::NotFinished)));
}

#[test]
fn authenticated_parties_count_their_inputs() {
    let circ = circuit();
    let delta = Delta::random(&mut SeededRng::seed_from_u64(6)).set_lsb(true);
    let hash = |x: Block| Block { bits: x.bits.wrapping_mul(3) };
    let tweaked = cipher([0; 16]);
    let two = [AuthBitShare::default(); 2];

    let mut generator = AuthGen::new(0, 3);
    assert!(matches!(
        generator.generate_pre_1(&circ, delta, &[], &[], &hash),
        Err(AuthGeneratorError::InvalidAuthBitCount { expected: 2, actual: 0 })
    ));
    generator.generate_pre_1(&circ, delta, &two, &two[..1], &hash).unwrap();
    assert!(matches!(
        generator.generate(&circ, delta, &[Key::default()], vec![], vec![], &tweaked),
        Err(AuthGeneratorError::InvalidInputKeyCount { expected: 2, actual: 1 })
    ));
    assert!(matches!(
        generator.generate(&circ, delta, &[Key::default(); 2], vec![], vec![true], &tweaked),
        Err(AuthGeneratorError::InvalidDerandCount { expected: 1, actual: 0 })
    ));

    let mut evaluator = AuthEval::new(0, 3);
    assert!(matches!(
        evaluator.evaluate_pre_1(&circ, delta, &[], &[], &hash),
        Err(AuthEvaluatorError::InvalidAuthBitCount { expected: 2, actual: 0 })
    ));
    evaluator.evaluate_pre_1(&circ, delta, &two, &two[..1], &hash).unwrap();
    let macs = [Mac::default(); 2];
    assert!(matches!(
        evaluator.evaluate(&circ, delta, &macs[..1], vec![], vec![], vec![], &tweaked),
        Err(AuthEvaluatorError::InvalidInputMacCount { expected: 2, actual: 1 })
    ));
    assert!(matches!(
        evaluator.evaluate(&circ, delta, &macs, vec![true], vec![], vec![], &tweaked),
        Err(AuthEvaluatorError::InvalidMaskedInputCount { expected: 2, actual: 1 })
    ));
    assert!(matches!(
        evaluator.evaluate(&circ, delta, &macs, vec![true; 2], vec![true], vec![], &tweaked),
        Err(AuthEvaluatorError::InvalidDerandCount { expected: 1, actual: 0 })
    ));
}

/// Garbles a circuit with the wires as they are and with slots, and compares the gates and the
/// labels of the outputs.
fn compare_garblers(circ: &Circuit) {
    let mut rng = SeededRng::seed_from_u64(12);
    let delta = Delta::random(&mut rng);
    let keys: Vec<Key> = rng.next_blocks(circ.input_count()).into_iter().map(Key::from).collect();

    let mut garbler = Garbler::with_initial(delta, 1, 0);
    garbler.setup().unwrap();
    let mut iter = garbler.generate(circ, &keys, &cipher).unwrap();
    let hash = cipher([0; 16]);
    let remapped = RemappedGarbler::new(WireRemapping::compute(circ));
    let mut remapped_iter = remapped.generate(circ, delta, &keys, &hash).unwrap();
    while let Some(gate) = iter.next() {
        assert_eq!(remapped_iter.next(), Some(gate));
    }
    assert_eq!(remapped_iter.next(), None);
    assert_eq!(iter.finish().unwrap().outputs, remapped_iter.finish().unwrap().outputs);
}

#[test]
fn outputs_keep_their_slots() {
    // Each inverter but the last feeds another one, and every wire is an output.
    let gates = vec![Gate::Inv { x: 0, z: 1 }, Gate::Inv { x: 1, z: 2 }];
    let circ = Circuit::new(1, 3, 0, 3, gates).unwrap();
    let remapping = WireRemapping::compute(&circ);
    assert_eq!(remapping.num_slots(), 3);
    assert_ne!(remapping.slot(0), remapping.slot(1));
    assert_ne!(remapping.slot(0), remapping.slot(2));
    assert_ne!(remapping.slot(1), remapping.slot(2));
    compare_garblers(&circ);
}

#[test]
fn wires_that_are_read_twice_free_one_slot() {
    let gates = vec![
        Gate::Xor { x: 0, y: 0, z: 2 },
        Gate::Xor { x: 1, y: 2, z: 3 },
        Gate::And { x: 1, y: 2, z: 4 },
        Gate::Xor { x: 3, y: 4, z: 5 },
    ];
    let circ = Circuit::new(2, 6, 5, 6, gates).unwrap();
    let remapping = WireRemapping::compute(&circ);
    // Wires 1 and 2 are still read when wire 3 is driven, and wire 3 when wire 4 is.
    assert_ne!(remapping.slot(1), remapping.slot(2));
    assert_ne!(remapping.slot(2), remapping.slot(3));
    assert_ne!(remapping.slot(1), remapping.slot(3));
    assert_ne!(remapping.slot(3), remapping.slot(4));
    compare_garblers(&circ);
}

#[test]
fn authenticated_parties_keep_their_buffers() {
    let delta = Delta::random(&mut SeededRng::seed_from_u64(6)).set_lsb(true);
    let hash = |x: Block| Block { bits: x.bits.wrapping_mul(3) };
    let tweaked = cipher([0; 16]);
    let large = vec![Gate::Xor { x: 0, y: 1, z: 2 }, Gate::Inv { x: 2, z: 3 }];
    let large = Circuit::new(2, 4, 3, 4, large).unwrap();
    let small = Circuit::new(1, 2, 1, 2, vec![Gate::Inv { x: 0, z: 1 }]).unwrap();
    let shares = [AuthBitShare::default(); 2];
    let (a, b, c) = (Block::from([1; 16]), Block::from([2; 16]), Block::from([7; 16]));

    // The larger circuit's labels and masked values stay behind those of the smaller one.
    let mut evaluator = AuthEval::new(0, 3);
    evaluator.evaluate_pre_1(&large, delta, &shares, &[], &hash).unwrap();
    let macs = [Mac::from(a), Mac::from(b)];
    let masked = vec![true, false];
    let consumer =
        evaluator.evaluate(&large, delta, &macs, masked, vec![], vec![], &tweaked).unwrap();
    assert_eq!(consumer.finish().unwrap().masked_values, vec![true, false, true, false]);
    assert_eq!(evaluator.labels, vec![a, b, a ^ b, a ^ b]);
    let consumer = evaluator
        .evaluate(&small, delta, &[Mac::from(c)], vec![false], vec![], vec![], &tweaked)
        .unwrap();
    assert_eq!(consumer.finish().unwrap().masked_values, vec![false, true, true, false]);
    assert_eq!(evaluator.labels, vec![c, c, a ^ b, a ^ b]);
    assert_eq!(evaluator.masked_values, vec![false, true, true, false]);

    let mut generator = AuthGen::new(0, 3);
    generator.generate_pre_1(&large, delta, &shares, &[], &hash).unwrap();
    let keys = [Key::from(a), Key::from(b)];
    let iter = generator.generate(&large, delta, &keys, vec![], vec![], &tweaked).unwrap();
    iter.finish(vec![true, false, true, false]).unwrap();
    let offset = *delta.as_block();
    assert_eq!(generator.labels, vec![a, b, a ^ b, a ^ b ^ offset]);
    assert_eq!(generator.masked_values, vec![true, false, true, false]);
    let iter =
        generator.generate(&small, delta, &[Key::from(c)], vec![], vec![], &tweaked).unwrap();
    iter.finish(vec![false, true]).unwrap();
    assert_eq!(generator.labels, vec![c, c ^ offset, a ^ b, a ^ b ^ offset]);
    assert_eq!(generator.masked_values, vec![false, true]);
}
