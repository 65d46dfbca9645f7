//! The three-halves scheme: single gates, small circuits, labels and control bits.

use mpz_garble::block::Block;
use mpz_garble::circuit::{Circuit, Gate};
use mpz_garble::correlated::{Delta, Key, Mac};
use mpz_garble::rng::SeededRng;
use mpz_garble::three_halves::circuit::ControlBits;
use mpz_garble::three_halves::control::{
    expand_marginal, extract_r_p_marginal, sample_r_odd, EXPANDED_MARGINALS, R_A, R_B, R_BAR_A,
    R_BAR_B, R_BAR_DOLLAR_BASIS_0, R_BAR_DOLLAR_BASIS_1, R_DOLLAR_BASIS_0, R_DOLLAR_BASIS_1, R_P,
    S1, S2, SAMPLE_R_BAR_TABLE,
};
use mpz_garble::three_halves::garbling::{evaluate_and_gate, garble_and_gate};
use mpz_garble::three_halves::gate::{
    apply_m_to_hashes, apply_r_to_inputs, compute_hashes, compute_input_contribution,
    expand_evaluator_marginal, garble_and, Choices,
};
use mpz_garble::three_halves::matrices::{K, M, V, V_INV};
use mpz_garble::three_halves::random_bits::RandomBitSource;
use mpz_garble::three_halves::slicing::SlicedLabel;
use mpz_garble::three_halves::{
    evaluate_garbled_circuits, EncryptedGate, Evaluator, EvaluatorError, EvaluatorOutput,
    GarbledCircuit, Garbler, GarblerError, GarblerOutput,
};
use rand::{Rng, SeedableRng};
use rand_chacha::ChaCha12Rng;
use std::sync::Arc;

/// A tweaked hash of 128 bits.
fn hash(tweak: Block, x: Block) -> Block {
    let mut bytes = [0u8; 32];
    bytes[..16].copy_from_slice(&tweak.to_bytes());
    bytes[16..].copy_from_slice(&x.to_bytes());
    let digest = blake3::hash(&bytes);
    let mut out = [0u8; 16];
    out.copy_from_slice(&digest.as_bytes()[..16]);
    Block::from(out)
}

/// A circuit with one output; its gates drive the wires behind the inputs in order.
fn circuit(inputs: usize, gates: Vec<Gate>) -> Circuit {
    let last = inputs + gates.len();
    Circuit::new(inputs, last, last - 1, last, gates).unwrap()
}

/// The bitwise sum of two numbers of `n` bits.
fn xor(n: usize) -> Circuit {
    let gates = (0..n).map(|i| Gate::Xor { x: i, y: n + i, z: 2 * n + i }).collect();
    Circuit::new(2 * n, 3 * n, 2 * n, 3 * n, gates).unwrap()
}

/// Helper function to run a garble-evaluate-verify test
fn test_circuit_correctness(circ: Circuit, input_combinations: &[(Vec<bool>, bool)]) {
    for (input_bits, expected_output) in input_combinations {
        let mut rng = SeededRng::seed_from_u64(42);
        let delta = Delta::random(&mut rng);

        let input_keys: Vec<Key> =
            (0..input_bits.len()).map(|_| Key::from(rng.next_block())).collect();

        // Garble the circuit
        let gb = Garbler::default();
        let mut gb_iter = gb.generate(&circ, delta, &input_keys, &mut rng, hash).unwrap();

        let mut encrypted_gates = Vec::new();
        while let Some(gate) = gb_iter.next() {
            encrypted_gates.push(gate);
        }

        let GarblerOutput { outputs: output_labels } = gb_iter.finish().unwrap();

        // Select input MACs based on input bits
        // Key is 0-label, Key ⊕ Δ is 1-label
        let delta_block = *delta.as_block();
        let input_macs: Vec<Mac> = input_bits
            .iter()
            .enumerate()
            .map(|(i, &bit)| {
                let key_block = *input_keys[i].as_block();
                if bit {
                    (key_block ^ delta_block).into()
                } else {
                    key_block.into()
                }
            })
            .collect();

        // Evaluate the circuit
        let mut ev = Evaluator::default();
        let mut ev_consumer = ev.evaluate(&circ, &input_macs, hash).unwrap();

        for gate in encrypted_gates {
            ev_consumer.next(gate);
        }

        let EvaluatorOutput { outputs: output_macs } = ev_consumer.finish().unwrap();

        // Verify output
        let false_label = Mac::from(*output_labels[0].as_block());
        let true_label = Mac::from(*output_labels[0].as_block() ^ *delta.as_block());
        let expected_mac = if *expected_output { &true_label } else { &false_label };

        assert_eq!(
            &output_macs[0], expected_mac,
            "Failed for inputs {:?}: expected {}, got wrong output",
            input_bits, expected_output
        );
    }
}

/// Test: Single AND gate (1 gate)
#[test]
fn test_single_and_gate() {
    let circ = circuit(2, vec![Gate::And { x: 0, y: 1, z: 2 }]);

    let test_cases = vec![
        (vec![false, false], false),
        (vec![false, true], false),
        (vec![true, false], false),
        (vec![true, true], true),
    ];

    test_circuit_correctness(circ, &test_cases);
}

/// Test: Chained AND gates (2 gates) - (a AND b) AND c
#[test]
fn test_chained_and_gates() {
    let circ = circuit(3, vec![Gate::And { x: 0, y: 1, z: 3 }, Gate::And { x: 3, y: 2, z: 4 }]);

    let test_cases = vec![
        (vec![false, false, false], false),
        (vec![false, false, true], false),
        (vec![false, true, false], false),
        (vec![false, true, true], false),
        (vec![true, false, false], false),
        (vec![true, false, true], false),
        (vec![true, true, false], false),
        (vec![true, true, true], true),
    ];

    test_circuit_correctness(circ, &test_cases);
}

/// Test: XOR then AND (1 gate) - (a XOR b) AND c
#[test]
fn test_xor_then_and() {
    let circ = circuit(3, vec![Gate::Xor { x: 0, y: 1, z: 3 }, Gate::And { x: 3, y: 2, z: 4 }]);

    let test_cases = vec![
        (vec![false, false, false], false), // (0 XOR 0) AND 0 = 0
        (vec![false, false, true], false),  // (0 XOR 0) AND 1 = 0
        (vec![false, true, false], false),  // (0 XOR 1) AND 0 = 0
        (vec![false, true, true], true),    // (0 XOR 1) AND 1 = 1
        (vec![true, false, false], false),  // (1 XOR 0) AND 0 = 0
        (vec![true, false, true], true),    // (1 XOR 0) AND 1 = 1
        (vec![true, true, false], false),   // (1 XOR 1) AND 0 = 0
        (vec![true, true, true], false),    // (1 XOR 1) AND 1 = 0
    ];

    test_circuit_correctness(circ, &test_cases);
}

/// Test: AND, XOR, AND (2 gates) - ((a AND b) XOR c) AND d
#[test]
fn test_and_xor_and() {
    let circ = circuit(
        4,
        vec![
            Gate::And { x: 0, y: 1, z: 4 },
            Gate::Xor { x: 4, y: 2, z: 5 },
            Gate::And { x: 5, y: 3, z: 6 },
        ],
    );

    let test_cases = vec![
        (vec![false, false, false, false], false),
        (vec![false, false, false, true], false),
        (vec![false, false, true, false], false),
        (vec![false, false, true, true], true),
        (vec![false, true, false, false], false),
        (vec![false, true, false, true], false),
        (vec![false, true, true, false], false),
        (vec![false, true, true, true], true),
        (vec![true, false, false, false], false),
        (vec![true, false, false, true], false),
        (vec![true, false, true, false], false),
        (vec![true, false, true, true], true),
        (vec![true, true, false, false], false),
        (vec![true, true, false, true], true),
        (vec![true, true, true, false], false),
        (vec![true, true, true, true], false),
    ];

    test_circuit_correctness(circ, &test_cases);
}

/// Test: Four chained AND gates (4 gates)
#[test]
fn test_four_chained_and_gates() {
    let circ = circuit(
        4,
        vec![
            Gate::And { x: 0, y: 1, z: 4 },
            Gate::And { x: 2, y: 3, z: 5 },
            Gate::And { x: 4, y: 5, z: 6 },
        ],
    );

    // Only test a subset of the 16 combinations for speed
    let test_cases = vec![
        (vec![false, false, false, false], false),
        (vec![true, false, true, false], false),
        (vec![true, true, false, false], false),
        (vec![true, true, true, false], false),
        (vec![true, true, true, true], true),
    ];

    test_circuit_correctness(circ, &test_cases);
}

/// NOT(a AND NOT b): inverters before and behind an AND gate.
#[test]
fn inverters_flip_the_value() {
    let circ = circuit(
        2,
        vec![
            Gate::Inv { x: 1, z: 2 },
            Gate::And { x: 0, y: 2, z: 3 },
            Gate::Id { x: 3, z: 4 },
            Gate::Inv { x: 4, z: 5 },
        ],
    );
    let test_cases = vec![
        (vec![false, false], true),
        (vec![false, true], true),
        (vec![true, false], false),
        (vec![true, true], true),
    ];
    test_circuit_correctness(circ, &test_cases);
}

/// Test: XOR-only circuit produces no encrypted gates
#[test]
fn test_xor_only_circuit() {
    let mut rng = SeededRng::seed_from_u64(0);

    let circ = xor(8);
    assert_eq!(circ.and_count(), 0);

    let a = 1u8;
    let b = 2u8;
    let expected = a ^ b;

    let delta = Delta::random(&mut rng);

    let input_keys: Vec<Key> =
        (0..circ.inputs().len()).map(|_| Key::from(rng.next_block())).collect();

    let input_bits: Vec<bool> =
        [a, b].iter().flat_map(|byte| (0..8).map(move |i| byte >> i & 1 == 1)).collect();

    // Garble
    let gb = Garbler::default();
    let mut gb_iter = gb.generate_batched(&circ, delta, &input_keys, &mut rng, hash).unwrap();

    let mut encrypted_gates = Vec::new();
    while let Some(batch) = gb_iter.next() {
        encrypted_gates.extend(batch.into_array());
    }

    assert_eq!(
        encrypted_gates.len(),
        0,
        "XOR-only circuit should produce no encrypted gates"
    );

    let GarblerOutput { outputs: output_labels } = gb_iter.finish().unwrap();

    let delta_block = *delta.as_block();
    let input_macs: Vec<Mac> =
        input_keys.iter().zip(&input_bits).map(|(key, &bit)| key.auth(bit, &delta)).collect();

    // Evaluate
    let mut ev = Evaluator::default();
    let mut ev_consumer = ev.evaluate(&circ, &input_macs, hash).unwrap();

    for gate in encrypted_gates {
        ev_consumer.next(gate);
    }

    let EvaluatorOutput { outputs: output_macs } = ev_consumer.finish().unwrap();

    // Decode: check if mac equals true_label (false_label XOR delta)
    let output: u8 = output_macs
        .iter()
        .zip(&output_labels)
        .enumerate()
        .map(|(i, (mac, false_label))| {
            let true_label = Mac::from(*false_label.as_block() ^ delta_block);
            ((*mac == true_label) as u8) << i
        })
        .sum();

    assert_eq!(output, expected);
}

/// Tests all 4 input combinations: (0,0), (0,1), (1,0), (1,1)
#[test]
fn test_evaluate_and_gate_all_inputs() {
    let mut rng = SeededRng::seed_from_u64(12345);
    let delta = Delta::random(&mut rng);
    let circ = circuit(2, vec![Gate::And { x: 0, y: 1, z: 2 }]);
    let input_keys: Vec<Key> = (0..2).map(|_| Key::from(rng.next_block())).collect();

    // Garble the circuit
    let gb = Garbler::default();
    let mut gb_iter = gb.generate(&circ, delta, &input_keys, &mut rng, hash).unwrap();

    // Extract the single encrypted gate
    let encrypted_gate = gb_iter.next().expect("should have one gate");
    assert!(gb_iter.next().is_none(), "should only have one gate");
    let output_label = gb_iter.finish().unwrap().outputs[0];

    // Test cases: (a_bit, b_bit, expected_output_bit)
    let test_cases = [
        (false, false, false), // AND(0,0) = 0
        (false, true, false),  // AND(0,1) = 0
        (true, false, false),  // AND(1,0) = 0
        (true, true, true),    // AND(1,1) = 1
    ];

    for (a_bit, b_bit, expected_output) in test_cases {
        let input_macs = vec![input_keys[0].auth(a_bit, &delta), input_keys[1].auth(b_bit, &delta)];

        // Evaluate
        let mut ev = Evaluator::default();
        let mut ev_consumer = ev.evaluate(&circ, &input_macs, hash).unwrap();
        ev_consumer.next(encrypted_gate);

        let EvaluatorOutput { outputs } = ev_consumer.finish().unwrap();

        // Verify output: compute 1-label as 0-label XOR delta
        let false_mac = Mac::from(*output_label.as_block());
        let true_mac = Mac::from(*output_label.as_block() ^ *delta.as_block());
        let expected_mac = if expected_output { true_mac } else { false_mac };

        assert_eq!(
            outputs[0], expected_mac,
            "AND({},{}) should be {}",
            a_bit as u8, b_bit as u8, expected_output as u8
        );
    }
}

#[test]
fn garbler_test_garbling_deterministic() {
    let mut rng = SeededRng::seed_from_u64(42);

    let mut a0 = rng.next_block();
    let mut b0 = rng.next_block();
    let mut delta = rng.next_block();
    a0.set_lsb(false);
    b0.set_lsb(false);
    delta.set_lsb(true);

    // Use the same random bits for both calls
    let rand_bits = [true, false];

    // Test with permute bits both false (since labels have LSB=0)
    let (z1, pi_z1, gate1) =
        garble_and(&hash, &a0, &b0, false, false, &Delta::new(delta), 1, rand_bits);
    let (z2, pi_z2, gate2) =
        garble_and(&hash, &a0, &b0, false, false, &Delta::new(delta), 1, rand_bits);

    assert_eq!(z1, z2);
    assert_eq!(pi_z1, pi_z2);
    assert_eq!(gate1, gate2);
}

#[test]
fn test_garble_xor_circuit() {
    let mut rng = SeededRng::seed_from_u64(42);
    let circ = xor(8);

    let mut delta = rng.next_block();
    delta.set_lsb(true);
    let delta = Delta::new(delta);

    let input_keys: Vec<Key> =
        (0..circ.inputs().len()).map(|_| Key::from(rng.next_block())).collect();

    let gb = Garbler::default();
    let iter = gb.generate(&circ, delta, &input_keys, &mut rng, hash).unwrap();

    // XOR circuit has no AND gates
    assert!(!iter.has_gates());

    let output = iter.finish().unwrap();
    assert_eq!(output.outputs.len(), circ.outputs().len());
}

/// Three blocks: two labels and an offset.
fn three_blocks(rng: &mut SeededRng) -> (Block, Block, Block) {
    (rng.next_block(), rng.next_block(), rng.next_block())
}

/// Test 1: Garbling produces consistent output
#[test]
fn garbling_test_garbling_deterministic() {
    let mut rng = SeededRng::seed_from_u64(42);
    let (a0, b0, delta) = three_blocks(&mut rng);
    let gid = 1;
    let rand_bits = [true, false];

    let result1 = garble_and_gate(&hash, a0, b0, delta, gid, rand_bits);
    let result2 = garble_and_gate(&hash, a0, b0, delta, gid, rand_bits);

    assert_eq!(result1.output_label, result2.output_label);
    assert_eq!(result1.gate, result2.gate);
    assert_eq!(result1.control_bits, result2.control_bits);
}

/// Test 2: Different random bits produce different control bits
#[test]
fn test_random_bits_affect_control() {
    let mut rng = SeededRng::seed_from_u64(42);
    let (a0, b0, delta) = three_blocks(&mut rng);
    let gid = 1;

    let result1 = garble_and_gate(&hash, a0, b0, delta, gid, [false, false]);
    let result2 = garble_and_gate(&hash, a0, b0, delta, gid, [true, false]);
    let result3 = garble_and_gate(&hash, a0, b0, delta, gid, [false, true]);
    let result4 = garble_and_gate(&hash, a0, b0, delta, gid, [true, true]);

    // Control bits should differ
    assert_ne!(result1.control_bits, result2.control_bits);
    assert_ne!(result1.control_bits, result3.control_bits);
    assert_ne!(result1.control_bits, result4.control_bits);
}

/// Test 3: Different gate IDs produce different hashes
#[test]
fn test_gate_id_affects_output() {
    let mut rng = SeededRng::seed_from_u64(42);
    let (a0, b0, delta) = three_blocks(&mut rng);
    let rand_bits = [false, false];

    let result1 = garble_and_gate(&hash, a0, b0, delta, 1, rand_bits);
    let result2 = garble_and_gate(&hash, a0, b0, delta, 2, rand_bits);

    // Output labels should differ due to different gate IDs
    assert_ne!(result1.output_label, result2.output_label);
}

/// Test 4: Hash computation produces expected structure
#[test]
fn test_hash_computation() {
    let mut rng = SeededRng::seed_from_u64(42);
    let (a0, b0, delta) = three_blocks(&mut rng);
    let gid = 1;

    let hashes = compute_hashes(&hash, a0, b0, delta, gid);

    // All 6 hashes should be different
    for i in 0..6 {
        for j in (i + 1)..6 {
            assert_ne!(hashes[i], hashes[j], "Hashes {} and {} should differ", i, j);
        }
    }
}

/// Test 5: Matrix application produces non-zero results
#[test]
fn test_matrix_application() {
    let mut rng = SeededRng::seed_from_u64(42);
    let (a0, b0, delta) = three_blocks(&mut rng);
    let gid = 1;

    let hashes = compute_hashes(&hash, a0, b0, delta, gid);
    let m_result = apply_m_to_hashes(&hashes);

    // At least some rows should be non-zero
    let non_zero_count = m_result.iter().filter(|row| **row != 0).count();
    assert!(non_zero_count > 0, "M·H should have non-zero rows");

    // Each row is the sum of the hashes that the row of M has.
    for (row, sum) in m_result.iter().enumerate() {
        let expected =
            (0..6).filter(|c| M[row][*c] == 1).fold(0, |sum, c| sum ^ hashes[c]);
        assert_eq!(*sum, expected);
    }
}

/// Test 6: Output label has correct Free-XOR relationship
#[test]
fn test_output_label_structure() {
    let mut rng = SeededRng::seed_from_u64(42);
    let (a0, b0, delta) = three_blocks(&mut rng);

    // Garble multiple gates to check consistency
    for gid in 1..10 {
        let rand_bits: [bool; 2] = [rng.next_bool(), rng.next_bool()];
        let result = garble_and_gate(&hash, a0, b0, delta, gid, rand_bits);

        // The output label C₀ should be a valid block
        assert_ne!(result.output_label, Block::zero());

        // Gate ciphertexts should be populated
        let gate = result.gate;
        // At least one should be non-zero (probabilistically)
        let has_nonzero = gate.g0 != [0u8; 8] || gate.g1 != [0u8; 8] || gate.g2 != [0u8; 8];
        // This might occasionally fail by chance, but very unlikely
        assert!(has_nonzero || gid > 5, "Gate ciphertexts should have some non-zero values");
    }
}

/// Applies a matrix of bits to words.
fn apply<const N: usize>(matrix: &[[u8; N]], x: &[u64]) -> Vec<u64> {
    matrix
        .iter()
        .map(|row| row.iter().zip(x).filter(|(c, _)| **c == 1).fold(0, |sum, (_, w)| sum ^ w))
        .collect()
}

/// Test 7: V⁻¹ application is consistent with V
///
/// V · (V⁻¹ · x) should equal x projected onto the column space of V.
#[test]
fn test_v_inv_application() {
    let mut rng = SeededRng::seed_from_u64(123);

    // Create a random 8-element RHS
    let rhs: Vec<u64> = (0..8).map(|_| rng.next_u64()).collect();

    // Apply V⁻¹, then V
    let output = apply(&V_INV, &rhs);
    let reconstructed = apply(&V, &output);

    // The reconstructed should be in the column space of V
    let output2 = apply(&V_INV, &reconstructed);
    let reconstructed2 = apply(&V, &output2);

    assert_eq!(reconstructed, reconstructed2, "Projection should be idempotent");
    assert_eq!(output, output2);
}

/// Test 8: THE CRITICAL TEST - Garble then evaluate for all 4 input combinations
#[test]
fn test_garble_then_evaluate_all_inputs() {
    let mut rng = SeededRng::seed_from_u64(999);

    // Test multiple random instances
    for trial in 0..10 {
        // Generate random labels with proper LSB structure for pointer bits
        let (mut a0, mut b0, mut delta) = three_blocks(&mut rng);

        // Ensure delta has LSB = 1 (Free-XOR requirement)
        delta.set_lsb(true);

        // Ensure A₀ and B₀ have LSB = 0 (so pointer bit indicates the actual bit value)
        a0.set_lsb(false);
        b0.set_lsb(false);

        let a1 = a0 ^ delta; // A₁ has LSB = 1
        let b1 = b0 ^ delta; // B₁ has LSB = 1

        let gid = trial + 1;
        let rand_bits: [bool; 2] = [rng.next_bool(), rng.next_bool()];

        // Garble the AND gate
        let garbled = garble_and_gate(&hash, a0, b0, delta, gid, rand_bits);
        let c0 = garbled.output_label;
        let c1 = c0 ^ delta; // Expected output for 1∧1

        // Test all 4 input combinations
        let test_cases = [
            (a0, b0, 0, 0, c0), // 0 ∧ 0 = 0
            (a0, b1, 0, 1, c0), // 0 ∧ 1 = 0
            (a1, b0, 1, 0, c0), // 1 ∧ 0 = 0
            (a1, b1, 1, 1, c1), // 1 ∧ 1 = 1
        ];

        for (a_label, b_label, i, j, expected) in test_cases {
            let result = evaluate_and_gate(
                &hash,
                a_label,
                b_label,
                &garbled.gate,
                &garbled.control_bits,
                gid,
            );

            assert_eq!(
                result, expected,
                "Trial {}: evaluate({},{}) failed. Expected {:?}, got {:?}",
                trial, i, j, expected, result
            );
        }
    }
}

/// Test 9: Evaluation produces consistent results
#[test]
fn test_evaluation_deterministic() {
    let mut rng = SeededRng::seed_from_u64(42);

    let (mut a0, mut b0, mut delta) = three_blocks(&mut rng);
    delta.set_lsb(true);
    a0.set_lsb(false);
    b0.set_lsb(false);

    let gid = 1;
    let rand_bits = [true, false];

    let garbled = garble_and_gate(&hash, a0, b0, delta, gid, rand_bits);

    // Evaluate twice with same inputs
    let result1 = evaluate_and_gate(&hash, a0, b0, &garbled.gate, &garbled.control_bits, gid);
    let result2 = evaluate_and_gate(&hash, a0, b0, &garbled.gate, &garbled.control_bits, gid);

    assert_eq!(result1, result2, "Evaluation should be deterministic");
}

#[test]
fn test_random_bits_match_rng() {
    let seed = 42;

    let mut rng1 = SeededRng::seed_from_u64(seed);
    let mut source = RandomBitSource::new(32, &mut rng1);

    let mut rng2 = ChaCha12Rng::seed_from_u64(seed);
    let expected: u32 = rng2.random();

    // Extract 32 bits in mixed order: 1, 2, 1, 2, 1, 2, ... (10 calls = 15 bits)
    // Then 1, 2, 1, 2, 1, 2, 1, 1, 1 (9 calls = 17 bits) = 32 total
    let mut actual: u32 = 0;
    let mut bit_idx = 0;

    // Mixed extraction pattern
    for _ in 0..5 {
        actual |= (source.next_bit() as u32) << bit_idx;
        bit_idx += 1;
        let two = source.next_two_bits();
        actual |= (two[0] as u32) << bit_idx;
        actual |= (two[1] as u32) << (bit_idx + 1);
        bit_idx += 2;
    }
    // Remaining 17 bits
    for _ in 0..5 {
        let two = source.next_two_bits();
        actual |= (two[0] as u32) << bit_idx;
        actual |= (two[1] as u32) << (bit_idx + 1);
        bit_idx += 2;
    }
    for _ in 0..7 {
        actual |= (source.next_bit() as u32) << bit_idx;
        bit_idx += 1;
    }

    assert_eq!(actual, expected);
}

/// Round-trip conversion
///
/// Splitting and recombining should give back the original block.
#[test]
fn test_roundtrip() {
    let mut rng = SeededRng::seed_from_u64(42);

    // Test with random block
    let block = rng.next_block();
    let sliced = SlicedLabel::from_block(block);
    let recovered = sliced.to_block();
    assert_eq!(block, recovered, "Round-trip failed");

    // Test with zero block
    let zero_sliced = SlicedLabel::from_block(Block::zero());
    assert_eq!(zero_sliced.left, [0u8; 8]);
    assert_eq!(zero_sliced.right, [0u8; 8]);
    assert_eq!(zero_sliced.to_block(), Block::zero());

    // Test with all-ones block
    let ones = Block::from([0xffu8; 16]);
    let ones_sliced = SlicedLabel::from_block(ones);
    assert_eq!(ones_sliced.left, [0xffu8; 8]);
    assert_eq!(ones_sliced.right, [0xffu8; 8]);
    assert_eq!(ones_sliced.to_block(), ones);
}

/// From/Into trait implementations
#[test]
fn test_from_into_traits() {
    let mut rng = SeededRng::seed_from_u64(999);
    let block = rng.next_block();

    // Test From<Block> for SlicedLabel
    let sliced: SlicedLabel = block.into();
    assert_eq!(sliced, SlicedLabel::from_block(block));

    // Test From<SlicedLabel> for Block
    let recovered: Block = sliced.into();
    assert_eq!(recovered, block);
}

/// Test: Verify expand_marginal correctly indexes EXPANDED_MARGINALS table
#[test]
fn test_expand_marginal_indexing() {
    // Verify expand_marginal correctly indexes EXPANDED_MARGINALS table
    // Index = (c₁ << 1) | c₂
    assert_eq!(expand_marginal(&[0, 0]), EXPANDED_MARGINALS[0]); // index 0b00 = 0
    assert_eq!(expand_marginal(&[0, 1]), EXPANDED_MARGINALS[1]); // index 0b01 = 1
    assert_eq!(expand_marginal(&[1, 0]), EXPANDED_MARGINALS[2]); // index 0b10 = 2
    assert_eq!(expand_marginal(&[1, 1]), EXPANDED_MARGINALS[3]); // index 0b11 = 3
}

/// The product of two matrices of bits.
fn product<const A: usize, const B: usize>(x: &[[u8; A]], y: &[[u8; B]; A]) -> Vec<Vec<u8>> {
    x.iter()
        .map(|row| {
            (0..B).map(|c| (0..A).fold(0, |sum, k| sum ^ (row[k] & y[k][c]))).collect()
        })
        .collect()
}

#[test]
fn test_k_times_v_is_zero() {
    assert!(product(&K, &V).iter().flatten().all(|c| *c == 0));
}

#[test]
fn test_k_times_m_is_zero() {
    assert!(product(&K, &M).iter().flatten().all(|c| *c == 0));
}

#[test]
fn test_v_inv_is_left_inverse() {
    let one = product(&V_INV, &V);
    for i in 0..5 {
        for j in 0..5 {
            assert_eq!(one[i][j], (i == j) as u8);
        }
    }
}

/// The rank of a matrix of bits.
fn rank<const C: usize>(matrix: &[[u8; C]]) -> usize {
    let mut rows: Vec<[u8; C]> = matrix.to_vec();
    let mut rank = 0;
    for col in 0..C {
        if let Some(pivot) = (rank..rows.len()).find(|r| rows[*r][col] == 1) {
            rows.swap(rank, pivot);
            for r in 0..rows.len() {
                if r != rank && rows[r][col] == 1 {
                    for c in 0..C {
                        rows[r][c] ^= rows[rank][c];
                    }
                }
            }
            rank += 1;
        }
    }
    rank
}

#[test]
fn test_matrix_ranks() {
    assert_eq!(rank(&V), 5);
    assert_eq!(rank(&M), 5);
}

#[test]
fn test_k_rank() {
    assert_eq!(rank(&K), 3);
}

#[test]
fn test_v_inv_m_matches_paper() {
    // Equation 12 of the paper
    let expected: [[u8; 6]; 5] = [
        [1, 0, 0, 0, 1, 0], // Row 0
        [0, 0, 1, 0, 1, 0], // Row 1
        [1, 1, 0, 0, 0, 0], // Row 2
        [0, 0, 1, 1, 0, 0], // Row 3
        [0, 0, 0, 0, 1, 1], // Row 4
    ];
    assert_eq!(product(&V_INV, &M), expected);
}

#[test]
fn verify_k_r_dollar_is_zero() {
    assert!(product(&K, &R_DOLLAR_BASIS_0).iter().flatten().all(|c| *c == 0));
    assert!(product(&K, &R_DOLLAR_BASIS_1).iter().flatten().all(|c| *c == 0));
}

#[test]
fn verify_k_r_p_constraint() {
    let expected: [[u8; 6]; 3] = [[0, 0, 0, 0, 1, 0], [0, 0, 0, 0, 0, 1], [0, 0, 0, 0, 0, 0]];
    assert_eq!(product(&K, &R_P), expected);
}

#[test]
fn verify_k_r_a_constraint() {
    let expected: [[u8; 6]; 3] = [[0, 0, 0, 0, 0, 0], [0, 0, 0, 0, 0, 0], [0, 0, 0, 0, 1, 0]];
    assert_eq!(product(&K, &R_A), expected);
}

#[test]
fn verify_k_r_b_constraint() {
    let expected: [[u8; 6]; 3] = [[0, 0, 0, 0, 0, 0], [0, 0, 0, 0, 0, 0], [0, 0, 0, 0, 0, 1]];
    assert_eq!(product(&K, &R_B), expected);
}

#[test]
fn verify_sample_r_bar_table() {
    for index in 0..16usize {
        let bit = |i: usize| index >> i & 1 == 1;
        let (pi_a, pi_b, r0, r1) = (bit(3), bit(2), bit(1), bit(0));
        let (a, b) = (!pi_a, !pi_b);

        // r_bar = r0·R̄$_BASIS_0 ⊕ r1·R̄$_BASIS_1 ⊕ a·R̄_A ⊕ b·R̄_B
        let mut expected = [[0u8; 2]; 4];
        for ij in 0..4 {
            for k in 0..2 {
                expected[ij][k] = (r0 as u8 * R_BAR_DOLLAR_BASIS_0[ij][k])
                    ^ (r1 as u8 * R_BAR_DOLLAR_BASIS_1[ij][k])
                    ^ (a as u8 * R_BAR_A[ij][k])
                    ^ (b as u8 * R_BAR_B[ij][k]);
            }
        }
        assert_eq!(SAMPLE_R_BAR_TABLE[index], expected);
        assert_eq!(sample_r_odd(pi_a, pi_b, [r0, r1]), expected);
    }
}

#[test]
fn verify_expanded_marginals() {
    for c in 0..4usize {
        let (c1, c2) = ((c >> 1) as u8, (c & 1) as u8);
        for row in 0..2 {
            for col in 0..4 {
                let expected = (c1 * S1[row][col]) ^ (c2 * S2[row][col]);
                assert_eq!(EXPANDED_MARGINALS[c][row][col], expected);
            }
        }
    }
}

#[test]
fn verify_r_p_marginals() {
    for i in 0..2 {
        for j in 0..2 {
            let marginal = extract_r_p_marginal(i, j);
            for half in 0..2 {
                assert_eq!(marginal[half], R_P[4 * i + 2 * j + half][..4]);
            }
        }
    }
}

#[test]
fn control_bits_pack_and_unpack() {
    let r_bar = [[1, 0], [0, 1], [1, 1], [0, 0]];
    let bits = ControlBits::new(r_bar);
    assert_eq!(bits.bits, 0b0011_1001);
    for ij in 0..4 {
        assert_eq!(bits.get(ij), r_bar[ij]);
    }
    assert_eq!(sample_r_odd(true, true, [false, false]).len(), 4);
}

#[test]
fn wrong_numbers_are_refused() {
    let circ = circuit(2, vec![Gate::And { x: 0, y: 1, z: 2 }]);
    let mut rng = SeededRng::seed_from_u64(5);
    let delta = Delta::random(&mut rng);
    let gb = Garbler::default();
    let one = [Key::default()];
    let before = rng;
    assert!(matches!(
        gb.generate(&circ, delta, &one, &mut rng, hash),
        Err(GarblerError::InputLength { expected: 2, actual: 1 })
    ));
    assert_eq!(rng, before);
    let two = [Key::default(), Key::default()];
    let iter = gb.generate(&circ, delta, &two, &mut rng, hash).unwrap();
    assert!(matches!(iter.finish(), Err(GarblerError::NotFinished)));

    let mut ev = Evaluator::default();
    assert!(matches!(
        ev.evaluate(&circ, &[], hash),
        Err(EvaluatorError::InputLength { expected: 2, actual: 0 })
    ));
    let consumer = ev.evaluate(&circ, &[Mac::default(), Mac::default()], hash).unwrap();
    assert!(matches!(consumer.finish(), Err(EvaluatorError::NotFinished)));

    let circ = Arc::new(circ);
    let good = (
        circ.clone(),
        vec![Mac::default(); 2],
        GarbledCircuit { gates: vec![EncryptedGate::default()] },
    );
    let bad = (circ.clone(), vec![Mac::default(); 2], GarbledCircuit { gates: vec![] });
    assert!(matches!(
        evaluate_garbled_circuits(vec![good, bad], hash),
        Err(EvaluatorError::NotFinished)
    ));
}

#[test]
fn batches_are_padded_with_empty_gates() {
    let circ = circuit(3, vec![Gate::And { x: 0, y: 1, z: 3 }, Gate::And { x: 3, y: 2, z: 4 }]);
    let mut rng = SeededRng::seed_from_u64(6);
    let delta = Delta::random(&mut rng);
    let keys = [Key::default(); 3];
    let gb = Garbler::default();
    let mut again = rng;
    let mut batches = gb.generate_batched(&circ, delta, &keys, &mut rng, hash).unwrap();
    let mut iter = gb.generate(&circ, delta, &keys, &mut again, hash).unwrap();
    let batch = batches.next().unwrap().into_array();
    assert_eq!(batch[0], iter.next().unwrap());
    assert_eq!(batch[1], iter.next().unwrap());
    assert!(batch[2..].iter().all(|gate| *gate == EncryptedGate::default()));
    assert!(batches.next().is_none());
    assert_eq!(batches.finish().unwrap().outputs, iter.finish().unwrap().outputs);
}

// What the evaluator adds from the labels that it holds is the garbler's row, though it does not
// know the offset.
#[test]
fn the_view_is_the_row_of_the_garbler() {
    let mut rng = SeededRng::seed_from_u64(77);
    let (a0, b0, delta) = three_blocks(&mut rng);
    let halves = |block: Block| (block.bits as u64, (block.bits >> 64) as u64);
    let ((al, ar), (bl, br), (dl, dr)) = (halves(a0), halves(b0), halves(delta));
    for bits in 0..16u8 {
        let bit = |n: u8| bits & (1 << n) != 0;
        let p = Choices { pi_a: bit(3), pi_b: bit(2), r0: bit(1), r1: bit(0) };
        let rows = apply_r_to_inputs(p, &[al, ar, bl, br, dl, dr]);
        let control = ControlBits::new(sample_r_odd(p.pi_a, p.pi_b, [p.r0, p.r1]));
        for i in 0..2 {
            for j in 0..2 {
                let marginal = expand_evaluator_marginal(&control, i, j);
                let a = a0 ^ delta.mul_bool(i == 1);
                let b = b0 ^ delta.mul_bool(j == 1);
                for half in 0..2 {
                    assert_eq!(
                        compute_input_contribution(&marginal, half, &a, &b),
                        rows[2 * (2 * i + j) + half]
                    );
                }
            }
        }
    }
}

#[test]
fn random_bits_can_be_given() {
    let mut rng = SeededRng::seed_from_u64(78);
    let delta = Delta::random(&mut rng);
    let circ = circuit(2, vec![Gate::And { x: 0, y: 1, z: 2 }]);
    let keys = [Key::from(rng.next_block()), Key::from(rng.next_block())];
    let gb = Garbler::default();
    let mut drawn = rng;
    let mut iter = gb.generate(&circ, delta, &keys, &mut drawn, hash).unwrap();
    let words = rng.next_words(1);
    let bits = RandomBitSource { data: words.clone(), bit_idx: 0 };
    let mut given = gb.generate_with(&circ, delta, &keys, bits, hash).unwrap();
    assert_eq!(iter.next(), given.next());
    assert_eq!(iter.finish().unwrap().outputs, given.finish().unwrap().outputs);
    let bits = RandomBitSource { data: words, bit_idx: 0 };
    assert!(matches!(
        gb.generate_with(&circ, delta, &keys[..1], bits, hash),
        Err(GarblerError::InputLength { expected: 2, actual: 1 })
    ));
}
