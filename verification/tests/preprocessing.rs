//! Authenticated bits and triples, and vector oblivious linear evaluation.

use mpz_garble::block::Block;
use mpz_garble::block_vole::{BlockVoleError, ExtendedVole, IdealBlockVole, IdealSubfieldVole};
use mpz_garble::correlated::Delta;
use mpz_garble::fcp::BinaryMatrix;
use mpz_garble::fpre::{
    bit_shares_from_cot, build_keyed_share, build_share, fpre, fpre_with_deltas, verify_fpre, Fpre,
};
use mpz_garble::rng::SeededRng;
use mpz_garble::shares::{AuthBit, AuthTriple};
use mpz_garble::triples::shuffle;
use rand::{Rng, SeedableRng};
use rand_chacha::ChaCha12Rng;

#[test]
fn test_ideal_subfield_vole() {
    let delta = Block::from([0xABu8; 16]);
    let mut vole = IdealSubfieldVole::new(42, delta);

    let outputs = vole.generate(100);

    for out in &outputs {
        // Verify: mac = choice * delta + key
        let expected_mac = if out.choice {
            out.key ^ delta
        } else {
            out.key
        };
        assert_eq!(out.mac, expected_mac);
    }
}

#[test]
fn test_ideal_block_subfield_vole() {
    let mut vole = IdealBlockVole::new(42);

    // A's input: 10 bits
    let a = vec![true, false, true, true, false, false, true, false, true, false];

    // B's correlations: 3 different beta values
    let betas = vec![
        Block::from([1u8; 16]),
        Block::from([2u8; 16]),
        Block::from([3u8; 16]),
    ];

    let (sender_out, receiver_out) = vole.subfield_vole(&a, &betas).unwrap();

    // Verify dimensions
    assert_eq!(sender_out.b.len(), 3);
    assert_eq!(receiver_out.v.len(), 3);
    for i in 0..3 {
        assert_eq!(sender_out.b[i].len(), 10);
        assert_eq!(receiver_out.v[i].len(), 10);
    }

    // Verify correlation: v_i[j] = a[j] * β_i + b_i[j]
    for i in 0..3 {
        for j in 0..10 {
            let expected = if a[j] {
                betas[i] ^ sender_out.b[i][j]
            } else {
                sender_out.b[i][j]
            };
            assert_eq!(receiver_out.v[i][j], expected);
        }
    }
}

#[test]
fn test_ideal_block_vole() {
    let mut vole = IdealBlockVole::new(42);

    // A's input: 5 field elements
    let a: Vec<Block> = (0..5).map(|i| Block::from([i as u8; 16])).collect();

    // B's correlations: 2 different beta values
    let betas = vec![Block::from([10u8; 16]), Block::from([20u8; 16])];

    let (sender_out, receiver_out) = vole.block_vole(&a, &betas).unwrap();

    // Verify dimensions
    assert_eq!(sender_out.b.len(), 2);
    assert_eq!(receiver_out.v.len(), 2);

    // Verify correlation: v_i[j] = a[j] * β_i + b_i[j]
    for i in 0..2 {
        for j in 0..5 {
            let expected = a[j].gfmul(betas[i]) ^ sender_out.b[i][j];
            assert_eq!(receiver_out.v[i][j], expected);
        }
    }
}

#[test]
fn test_extended_vole() {
    // Create base VOLE with L=5 outputs
    let delta = Block::from([0xFFu8; 16]);
    let mut base_vole = IdealSubfieldVole::new(42, delta);
    let base = base_vole.generate(5);

    // Create a 10x5 matrix (extend from 5 to 10)
    let matrix = BinaryMatrix::from_seed(10, 5, 123);

    // Extend
    let extended = ExtendedVole::new(base.clone());
    let outputs = extended.extend(&matrix);

    assert_eq!(outputs.len(), 10);

    // Verify each extended output maintains the VOLE correlation
    for (i, out) in outputs.iter().enumerate() {
        // Manually compute what the output should be
        let mut expected_key = Block::zero();
        let mut expected_choice = false;
        for j in 0..5 {
            if matrix.get(i, j) {
                expected_key = expected_key ^ base[j].key;
                expected_choice ^= base[j].choice;
            }
        }
        let expected_mac = if expected_choice {
            expected_key ^ delta
        } else {
            expected_key
        };

        assert_eq!(out.key, expected_key);
        assert_eq!(out.choice, expected_choice);
        assert_eq!(out.mac, expected_mac);
    }
}

#[test]
fn test_block_vole_same_a_across_instances() {
    // The key property of block VOLE: A uses the SAME input vector
    // across all k VOLE instances, while B has different betas.

    let mut vole = IdealBlockVole::new(42);

    let a = vec![true, true, false, true, false];
    let betas = vec![
        Block::from([1u8; 16]),
        Block::from([2u8; 16]),
        Block::from([3u8; 16]),
        Block::from([4u8; 16]),
    ];

    let (sender_out, receiver_out) = vole.subfield_vole(&a, &betas).unwrap();

    // For each position j, the difference between v values
    // should reflect the beta differences when a[j] = 1
    for j in 0..5 {
        if a[j] {
            // When a[j] = 1:
            // v_i[j] = β_i + b_i[j]
            // v_k[j] = β_k + b_k[j]
            // So v_i[j] XOR v_k[j] = β_i XOR β_k XOR b_i[j] XOR b_k[j]

            // The correlations are maintained
            for i in 0..4 {
                let expected = betas[i] ^ sender_out.b[i][j];
                assert_eq!(receiver_out.v[i][j], expected);
            }
        } else {
            // When a[j] = 0:
            // v_i[j] = b_i[j]
            for i in 0..4 {
                assert_eq!(receiver_out.v[i][j], sender_out.b[i][j]);
            }
        }
    }
}

#[test]
fn test_fpre() {
    let num_wires = 10000;
    let num_and = 6000;
    let bucket_size = 5;

    let mut rng = SeededRng::seed_from_u64(0);
    let (fpre_gen, fpre_eval) = fpre(num_wires, num_and, bucket_size, 0, &mut rng);

    assert!(verify_fpre(&fpre_gen, &fpre_eval));
}

#[test]
fn test_fpre_insecure() {
    let num_input = 100;
    let num_and = 50;
    let mut fpre = Fpre::new(5, num_input, num_and);
    fpre.generate();

    assert_eq!(fpre.auth_bits.len(), num_input + num_and);
    assert_eq!(fpre.auth_triples.len(), num_and);

    for bit in &fpre.auth_bits {
        assert!(bit.verify(fpre.delta_a(), fpre.delta_b()));
    }
    for triple in &fpre.auth_triples {
        assert!(triple.verify(fpre.delta_a(), fpre.delta_b()));
    }

    let (fpre_gen, fpre_eval) = fpre.into_gen_eval();

    // wire shares length
    assert_eq!(fpre_gen.wire_shares.len(), num_input + num_and);
    assert_eq!(fpre_eval.wire_shares.len(), num_input + num_and);

    // triple shares length
    assert_eq!(fpre_gen.triple_shares.len(), num_and);
    assert_eq!(fpre_eval.triple_shares.len(), num_and);

    // Check generator/evaluator shares align
    for (gen_share, eval_share) in fpre_gen.wire_shares.iter().zip(&fpre_eval.wire_shares) {
        let bit = AuthBit { gen_share: *gen_share, eval_share: *eval_share };
        assert!(bit.verify(&fpre_gen.delta_a, &fpre_eval.delta_b));
    }

    for (a, b) in fpre_gen.triple_shares.iter().zip(&fpre_eval.triple_shares) {
        let triple = AuthTriple {
            x: AuthBit { gen_share: a.x, eval_share: b.x },
            y: AuthBit { gen_share: a.y, eval_share: b.y },
            z: AuthBit { gen_share: a.z, eval_share: b.z },
        };
        assert!(triple.verify(&fpre_gen.delta_a, &fpre_eval.delta_b));
    }
}

#[test]
fn a_forged_share_is_refused() {
    let mut fpre = Fpre::new(5, 4, 2);
    fpre.generate();
    let mut bit = fpre.auth_bits[0];
    bit.gen_share.value = !bit.gen_share.value;
    assert!(!bit.verify(fpre.delta_a(), fpre.delta_b()));
    let mut triple = fpre.auth_triples[0];
    triple.z = fpre.gen_auth_bit(!triple.z.full_bit());
    assert!(!triple.verify(fpre.delta_a(), fpre.delta_b()));
}

#[test]
fn shares_from_cot_are_paired() {
    let mut rng = SeededRng::seed_from_u64(8);
    let delta_a = Delta::random(&mut rng).set_lsb(true);
    let delta_b = Delta::random(&mut rng).set_lsb(false);
    let (a, b) = bit_shares_from_cot(50, delta_a, delta_b).unwrap();
    assert_eq!((a.len(), b.len()), (50, 50));
    for (gen_share, eval_share) in a.iter().zip(&b) {
        let bit = AuthBit { gen_share: *gen_share, eval_share: *eval_share };
        assert!(bit.verify(&delta_a, &delta_b));
        // The generator's delta has its least significant bit set, the evaluator's has not.
        assert_eq!(eval_share.mac.pointer(), eval_share.bit() ^ gen_share.key.pointer());
        assert_eq!(gen_share.mac.pointer(), eval_share.key.pointer());
    }
}

#[test]
fn no_instances_are_refused() {
    let mut vole = IdealBlockVole::new(1);
    let one = Block::from([1u8; 16]);
    assert!(matches!(vole.subfield_vole(&[true], &[]), Err(BlockVoleError::InvalidK(0))));
    assert!(matches!(vole.block_vole(&[one], &[]), Err(BlockVoleError::InvalidK(0))));
}

// Multiplication in the field of 2^128 elements.
#[test]
fn products_and_inverses_of_blocks() {
    let mut rng = SeededRng::seed_from_u64(11);
    let (a, b, c) = (rng.next_block(), rng.next_block(), rng.next_block());
    assert_eq!(a.gfmul(b), b.gfmul(a));
    assert_eq!(a.gfmul(b ^ c), a.gfmul(b) ^ a.gfmul(c));
    assert_eq!(a.gfmul(b).gfmul(c), a.gfmul(b.gfmul(c)));
    let inverse = a.gf_inverse().unwrap();
    let one = a.gfmul(inverse);
    assert_eq!(b.gfmul(one), b);
    assert_eq!(Block::zero().gf_inverse(), None);
}

// The draws are those of the ChaCha generator with 12 rounds.
#[test]
fn draws_are_those_of_chacha() {
    let mut rng = SeededRng::seed_from_u64(3);
    let mut chacha = ChaCha12Rng::seed_from_u64(3);
    assert_eq!(rng.next_u64(), chacha.random::<u64>());
    assert_eq!(rng.next_block().bits, chacha.random::<u128>());
    assert_eq!(rng.next_bool(), chacha.random::<bool>());
    assert_eq!(rng.next_coin(), chacha.random_bool(0.5));
    for max in [1usize, 2, 10, 1000] {
        assert_eq!(rng.next_index(max), chacha.random_range(0..=max));
    }
    assert_eq!(rng.next_words(3), (0..3).map(|_| chacha.random::<u64>()).collect::<Vec<_>>());
    assert_eq!(rng.next_bools(9), (0..9).map(|_| chacha.random::<bool>()).collect::<Vec<_>>());
}

#[test]
fn a_shuffle_is_an_order() {
    let mut order = shuffle(12, 100);
    assert_eq!(order, shuffle(12, 100));
    assert_ne!(order, shuffle(13, 100));
    order.sort();
    assert_eq!(order, (0..100).collect::<Vec<usize>>());
}

#[test]
fn choices_can_be_given() {
    let delta = Block::from([0xABu8; 16]);
    let mut vole = IdealSubfieldVole::new(42, delta);
    let choices = [true, false, true];
    let outputs = vole.generate_with_choices(&choices);
    assert_eq!(outputs.len(), 3);
    for (out, choice) in outputs.iter().zip(choices) {
        assert_eq!(out.choice, choice);
        assert_eq!(out.mac, if choice { out.key ^ delta } else { out.key });
    }
    assert_eq!(vole.delta(), delta);
}

#[test]
fn keys_of_shares_have_a_clear_bit() {
    let mut rng = SeededRng::seed_from_u64(31);
    let delta = Delta::random(&mut rng);
    for bit in [false, true] {
        let share = build_keyed_share(Block::from([0xFF; 16]), bit, &delta);
        let mut key = Block::from([0xFF; 16]);
        key.set_lsb(false);
        assert_eq!(share.value, bit);
        assert_eq!(*share.key.as_block(), key);
        assert_eq!(share.mac, share.key.auth(bit, &delta));
        for _ in 0..8 {
            let share = build_share(&mut rng, bit, &delta);
            assert_eq!(share.value, bit);
            assert!(!share.key.pointer());
            assert_eq!(share.mac, share.key.auth(bit, &delta));
        }
    }
}

#[test]
fn correlations_can_be_given() {
    let delta_a = Delta::new(Block::from([0x35; 16]));
    let delta_b = Delta::new(Block::from([0x53; 16])).set_lsb(false);
    let (fpre_gen, fpre_eval) = fpre_with_deltas(8, 5, 3, delta_a, delta_b);
    assert_eq!((fpre_gen.delta_a, fpre_eval.delta_b), (delta_a, delta_b));
    assert_eq!((fpre_gen.wire_shares.len(), fpre_gen.triple_shares.len()), (13, 5));
    assert!(verify_fpre(&fpre_gen, &fpre_eval));
}
