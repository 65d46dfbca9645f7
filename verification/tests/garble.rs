//! End-to-end: circuits are garbled, evaluated and decoded.

use std::sync::Arc;

use aes::cipher::{BlockCipherEncrypt, KeyInit};
use aes::Aes128;
use mpz_garble::auth_eval::{AuthEval, AuthEvalOutput};
use mpz_garble::auth_gen::{AuthGen, AuthGenOutput};
use mpz_garble::block::Block;
use mpz_garble::circuit::{Circuit, Gate, GarbledCircuit};
use mpz_garble::correlated::{Delta, Key, Mac};
use mpz_garble::fpre::bit_shares_from_cot;
use mpz_garble::half_gates::evaluator as ev;
use mpz_garble::half_gates::garbler as gb;
use mpz_garble::half_gates::remapped_garbler::{RemappedGarbler, WireRemapping};
use mpz_garble::half_gates::{
    evaluate_garbled_circuits, Evaluator, EvaluatorOutput, Garbler, GarblerOutput,
};
use mpz_garble::rng::SeededRng;
use mpz_garble::three_halves;

const SSP: usize = 40;

/// A tweaked hash of 128 bits.
fn hash(tweak: Block, x: Block) -> Block {
    keyed_hash([7; 16], tweak, x)
}

/// A tweaked hash under a key.
fn keyed_hash(key: [u8; 16], tweak: Block, x: Block) -> Block {
    let mut bytes = [0u8; 48];
    bytes[..16].copy_from_slice(&key);
    bytes[16..32].copy_from_slice(&tweak.to_bytes());
    bytes[32..].copy_from_slice(&x.to_bytes());
    let digest = blake3::hash(&bytes);
    let mut out = [0u8; 16];
    out.copy_from_slice(&digest.as_bytes()[..16]);
    Block::from(out)
}

/// A hash of 128 bits without a tweak.
fn plain_hash(x: Block) -> Block {
    hash(Block::zero(), x)
}

/// The keys of inputs.
fn draw_keys(rng: &mut SeededRng, n: usize) -> Vec<Key> {
    (0..n).map(|_| Key::from(rng.next_block())).collect()
}

/// The bits of bytes, the least significant one of each byte first.
fn bits_of(bytes: &[u8]) -> Vec<bool> {
    bytes.iter().flat_map(|byte| (0..8).map(move |i| byte >> i & 1 == 1)).collect()
}

/// The bytes of bits, the least significant one of each byte first.
fn bytes_of(bits: &[bool]) -> Vec<u8> {
    bits.chunks(8)
        .map(|chunk| chunk.iter().enumerate().fold(0, |byte, (i, bit)| byte | (*bit as u8) << i))
        .collect()
}

/// Encrypts a block.
fn encrypt(key: [u8; 16], msg: [u8; 16]) -> [u8; 16] {
    let cipher = Aes128::new_from_slice(&key).unwrap();
    let mut out = msg.into();
    cipher.encrypt_block(&mut out);
    out.into()
}

/// A circuit under construction.
struct Builder {
    inputs: usize,
    next: usize,
    gates: Vec<Gate>,
}

impl Builder {
    fn new(inputs: usize) -> Builder {
        Builder { inputs, next: inputs, gates: Vec::new() }
    }

    fn wire(&mut self) -> usize {
        self.next += 1;
        self.next - 1
    }

    fn xor(&mut self, x: usize, y: usize) -> usize {
        let z = self.wire();
        self.gates.push(Gate::Xor { x, y, z });
        z
    }

    fn and(&mut self, x: usize, y: usize) -> usize {
        let z = self.wire();
        self.gates.push(Gate::And { x, y, z });
        z
    }

    fn inv(&mut self, x: usize) -> usize {
        let z = self.wire();
        self.gates.push(Gate::Inv { x, z });
        z
    }

    fn id(&mut self, x: usize) -> usize {
        let z = self.wire();
        self.gates.push(Gate::Id { x, z });
        z
    }

    fn finish(mut self, outputs: &[usize]) -> Circuit {
        let start = self.next;
        for wire in outputs {
            self.id(*wire);
        }
        Circuit::new(self.inputs, self.next, start, self.next, self.gates).unwrap()
    }

    /// A linear map: bit `i` of the result is the sum of the bits that row `i` has.
    fn linear(&mut self, rows: &[u8], x: &[usize]) -> Vec<usize> {
        rows.iter()
            .map(|row| {
                let mut terms = (0..x.len()).filter(|j| row >> j & 1 == 1).map(|j| x[j]);
                let first = terms.next().unwrap();
                let rest: Vec<usize> = terms.collect();
                rest.into_iter().fold(first, |sum, term| self.xor(sum, term))
            })
            .collect()
    }

    fn xor_all(&mut self, x: &[usize], y: &[usize]) -> Vec<usize> {
        x.iter().zip(y).map(|(x, y)| self.xor(*x, *y)).collect()
    }

    /// The product of two polynomials of degree 1.
    fn product_2(&mut self, x: &[usize], y: &[usize]) -> [usize; 3] {
        let low = self.and(x[0], y[0]);
        let high = self.and(x[1], y[1]);
        let sx = self.xor(x[0], x[1]);
        let sy = self.xor(y[0], y[1]);
        let all = self.and(sx, sy);
        let mid = self.xor(all, low);
        let mid = self.xor(mid, high);
        [low, mid, high]
    }

    /// The product in the field of 16 elements, z^4 = z + 1.
    fn product_16(&mut self, x: &[usize], y: &[usize]) -> Vec<usize> {
        let low = self.product_2(&x[..2], &y[..2]);
        let high = self.product_2(&x[2..], &y[2..]);
        let sx = self.xor_all(&x[..2], &x[2..]);
        let sy = self.xor_all(&y[..2], &y[2..]);
        let all = self.product_2(&sx, &sy);
        let mid = self.xor_all(&all, &low);
        let mid = self.xor_all(&mid, &high);
        let c2 = self.xor(low[2], mid[0]);
        let c4 = self.xor(mid[2], high[0]);
        // z^4 = z + 1, z^5 = z^2 + z, z^6 = z^3 + z^2
        let r0 = self.xor(low[0], c4);
        let r1 = self.xor(low[1], c4);
        let r1 = self.xor(r1, high[1]);
        let r2 = self.xor(c2, high[1]);
        let r2 = self.xor(r2, high[2]);
        let r3 = self.xor(mid[1], high[2]);
        vec![r0, r1, r2, r3]
    }

    /// The S-box.
    fn s_box(&mut self, tower: &Tower, x: &[usize]) -> Vec<usize> {
        let t = self.linear(&tower.into_tower, x);
        let (low, high) = (t[..4].to_vec(), t[4..].to_vec());
        let high_sq = self.linear(&SQUARE, &high);
        let scaled = self.linear(&tower.times_lambda, &high_sq);
        let low_sq = self.linear(&SQUARE, &low);
        let cross = self.product_16(&high, &low);
        let norm = self.xor_all(&scaled, &low_sq);
        let norm = self.xor_all(&norm, &cross);
        // The inverse of the norm is its 14th power.
        let n2 = self.linear(&SQUARE, &norm);
        let n4 = self.linear(&SQUARE, &n2);
        let n8 = self.linear(&SQUARE, &n4);
        let n6 = self.product_16(&n2, &n4);
        let inverse = self.product_16(&n6, &n8);
        let out_high = self.product_16(&high, &inverse);
        let sum = self.xor_all(&high, &low);
        let out_low = self.product_16(&sum, &inverse);
        let mut inverted = out_low;
        inverted.extend(out_high);
        let out = self.linear(&tower.out_of_tower, &inverted);
        (0..8).map(|i| if 0x63 >> i & 1 == 1 { self.inv(out[i]) } else { out[i] }).collect()
    }
}

/// The square in the field of 16 elements.
const SQUARE: [u8; 4] = [0b0101, 0b0100, 0b1010, 0b1000];

/// The product in the field of 256 elements.
fn product_256(mut x: u8, mut y: u8) -> u8 {
    let mut sum = 0;
    while y != 0 {
        if y & 1 == 1 {
            sum ^= x;
        }
        x = x << 1 ^ if x & 0x80 != 0 { 0x1b } else { 0 };
        y >>= 1;
    }
    sum
}

/// The rows of the matrix with the given columns.
fn rows_of(columns: &[u8], n: usize) -> Vec<u8> {
    (0..n)
        .map(|i| columns.iter().enumerate().fold(0, |row, (j, c)| row | (c >> i & 1) << j))
        .collect()
}

/// The maps between the field of 256 elements and the tower y^2 + y + lambda over 16 elements.
struct Tower {
    into_tower: Vec<u8>,
    out_of_tower: Vec<u8>,
    times_lambda: Vec<u8>,
}

impl Tower {
    fn new() -> Tower {
        let t = (2..=255u8)
            .find(|t| {
                let sq = product_256(*t, *t);
                product_256(sq, sq) ^ t ^ 1 == 0
            })
            .unwrap();
        let powers: Vec<u8> = (0..4).map(|i| (0..i).fold(1, |p, _| product_256(p, t))).collect();
        // lambda = z^3 is such that y^2 + y + lambda has no root among the 16 elements.
        let lambda = powers[3];
        let s = (0..=255u8).find(|s| product_256(*s, *s) ^ s ^ lambda == 0).unwrap();
        let mut columns = powers.clone();
        columns.extend(powers.iter().map(|p| product_256(*p, s)));
        let image = |v: u8| {
            columns.iter().enumerate().fold(0, |sum, (i, c)| sum ^ if v >> i & 1 == 1 { *c } else { 0 })
        };
        let preimages: Vec<u8> =
            (0..8).map(|i| (0..=255u8).find(|v| image(*v) == 1 << i).unwrap()).collect();
        // The affine map of the S-box behind the way out of the tower.
        let affine = |v: u8| {
            v ^ v.rotate_left(1) ^ v.rotate_left(2) ^ v.rotate_left(3) ^ v.rotate_left(4)
        };
        let out: Vec<u8> = columns.iter().map(|c| affine(*c)).collect();
        let scaled: Vec<u8> = (0..4)
            .map(|i| {
                let v = product_256(powers[i], lambda);
                (0..16u8).find(|w| image(*w) == v).unwrap()
            })
            .collect();
        Tower {
            into_tower: rows_of(&preimages, 8),
            out_of_tower: rows_of(&out, 8),
            times_lambda: rows_of(&scaled, 4),
        }
    }
}

/// AES-128: a key and a message to the ciphertext.
fn aes128() -> Circuit {
    let tower = Tower::new();
    let mut b = Builder::new(256);
    let byte = |start: usize, i: usize| -> Vec<usize> { (start + 8 * i..start + 8 * i + 8).collect() };
    let mut key: Vec<Vec<usize>> = (0..16).map(|i| byte(0, i)).collect();
    let mut state: Vec<Vec<usize>> = (0..16).map(|i| b.xor_all(&byte(128, i), &key[i])).collect();
    let mut rcon = 1u8;
    for round in 1..=10 {
        // The next round key.
        let mut word: Vec<Vec<usize>> =
            [13, 14, 15, 12].iter().map(|i| b.s_box(&tower, &key[*i])).collect();
        for i in 0..8 {
            if rcon >> i & 1 == 1 {
                word[0][i] = b.inv(word[0][i]);
            }
        }
        rcon = product_256(rcon, 2);
        for i in 0..16 {
            let before = if i < 4 { word[i].clone() } else { key[i - 4].clone() };
            key[i] = b.xor_all(&key[i], &before);
        }
        // The round.
        let boxed: Vec<Vec<usize>> = state.iter().map(|x| b.s_box(&tower, x)).collect();
        let shifted: Vec<Vec<usize>> =
            (0..16).map(|i| boxed[(i + 4 * (i % 4)) % 16].clone()).collect();
        let mixed = if round == 10 {
            shifted
        } else {
            let mut mixed = Vec::new();
            for i in 0..16 {
                let column = i / 4 * 4;
                let at = |k: usize| &shifted[column + (i + k) % 4];
                let pair = b.xor_all(at(0), at(1));
                // Doubling.
                let mut twice = vec![pair[7]];
                for k in 1..8 {
                    let bit = pair[k - 1];
                    twice.push(if 0x1b >> k & 1 == 1 { b.xor(bit, pair[7]) } else { bit });
                }
                let rest = b.xor_all(at(1), at(2));
                let rest = b.xor_all(&rest, at(3));
                mixed.push(b.xor_all(&twice, &rest));
            }
            mixed
        };
        state = (0..16).map(|i| b.xor_all(&mixed[i], &key[i])).collect();
    }
    let outputs: Vec<usize> = state.into_iter().flatten().collect();
    b.finish(&outputs)
}

/// The bitwise sum of two numbers of `n` bits.
fn xor(n: usize) -> Circuit {
    let mut b = Builder::new(2 * n);
    let outputs: Vec<usize> = (0..n).map(|i| b.xor(i, n + i)).collect();
    b.finish(&outputs)
}

/// The outputs of a circuit.
fn run(circ: &Circuit, inputs: &[bool]) -> Vec<bool> {
    let mut wires = vec![false; circ.feed_count()];
    wires[..inputs.len()].copy_from_slice(inputs);
    for gate in circ.gates() {
        match *gate {
            Gate::Xor { x, y, z } => wires[z] = wires[x] != wires[y],
            Gate::And { x, y, z } => wires[z] = wires[x] && wires[y],
            Gate::Inv { x, z } => wires[z] = !wires[x],
            Gate::Id { x, z } => wires[z] = wires[x],
        }
    }
    wires[circ.outputs()].to_vec()
}

#[test]
fn aes_circuit_encrypts() {
    let circ = aes128();
    let (key, msg) = ([69u8; 16], [42u8; 16]);
    let inputs = bits_of(&[key, msg].concat());
    assert_eq!(bytes_of(&run(&circ, &inputs)), encrypt(key, msg));
}

/// Test a single AND gate with all 4 input combinations
fn and_gate_is_correct() {
    let mut rng = SeededRng::seed_from_u64(0);
    let cipher = &hash;

    let delta = Delta::random(&mut rng);
    let x_0 = rng.next_block();
    let x_1 = x_0 ^ *delta.as_block();
    let y_0 = rng.next_block();
    let y_1 = y_0 ^ *delta.as_block();
    let gid: u128 = 1;

    let (z_0, encrypted_gate) = gb::and_gate(cipher, &x_0, &y_0, &delta, gid);
    let z_1 = z_0 ^ *delta.as_block();

    assert_eq!(ev::and_gate(cipher, &x_0, &y_0, &encrypted_gate, gid), z_0);
    assert_eq!(ev::and_gate(cipher, &x_0, &y_1, &encrypted_gate, gid), z_0);
    assert_eq!(ev::and_gate(cipher, &x_1, &y_0, &encrypted_gate, gid), z_0);
    assert_eq!(ev::and_gate(cipher, &x_1, &y_1, &encrypted_gate, gid), z_1);
}

#[test]
fn lib_test_and_gate() {
    and_gate_is_correct();
}

#[test]
fn tests_test_and_gate() {
    and_gate_is_correct();
}

/// Checks the outputs of both parties against the expected bytes.
fn check_outputs(output_keys: &[Key], output_macs: &[Mac], expected: &[u8], delta: &Delta) {
    assert_eq!(output_keys.len(), 8 * expected.len());
    assert!(output_keys
        .iter()
        .zip(output_macs)
        .zip(bits_of(expected))
        .all(|((key, mac), bit)| &key.auth(bit, delta) == mac));

    let output: Vec<bool> = output_macs
        .iter()
        .zip(output_keys)
        .map(|(mac, key)| mac.pointer() ^ key.pointer())
        .collect();

    assert_eq!(bytes_of(&output), expected);
}

/// Garbles and evaluates a circuit in batches.
fn stream(circ: &Circuit, input: &[u8], expected: &[u8], mut garbler: Garbler, delta: Delta, rng: &mut SeededRng) {
    let input_keys = draw_keys(rng, circ.inputs().len());
    let input_macs: Vec<Mac> = input_keys
        .iter()
        .zip(bits_of(input))
        .map(|(key, bit)| key.auth(bit, &delta))
        .collect();

    let new_cipher = |key: [u8; 16]| move |tweak: Block, x: Block| keyed_hash(key, tweak, x);
    let setup = garbler.setup().unwrap();
    let mut evaluator = Evaluator::default();
    evaluator.setup(setup).unwrap();

    let mut gb_iter = garbler.generate_batched(circ, &input_keys, &new_cipher).unwrap();
    let mut ev_consumer = evaluator.evaluate_batched(circ, &input_macs, &new_cipher).unwrap();

    while let Some(batch) = gb_iter.next() {
        ev_consumer.next(batch);
    }

    let GarblerOutput { outputs: output_keys } = gb_iter.finish().unwrap();
    let EvaluatorOutput { outputs: output_macs } = ev_consumer.finish().unwrap();
    check_outputs(&output_keys, &output_macs, expected, &delta);
}

#[test]
fn lib_test_garble() {
    let mut rng = SeededRng::seed_from_u64(0);
    let key = [69u8; 16];
    let msg = [42u8; 16];
    let delta = Delta::random(&mut rng);
    let garbler = Garbler::new(delta);
    stream(&aes128(), &[key, msg].concat(), &encrypt(key, msg), garbler, delta, &mut rng);
}

#[test]
fn tests_test_garble() {
    let mut rng = SeededRng::seed_from_u64(0);
    let key = [69u8; 16];
    let msg = [42u8; 16];
    let delta = Delta::random(&mut rng);
    let garbler = Garbler::with_initial(delta, 1, 99);
    stream(&aes128(), &[key, msg].concat(), &encrypt(key, msg), garbler, delta, &mut rng);
}

/// Garbles a circuit twice and evaluates both at once.
fn preprocess(mut garbler: Garbler, delta: Delta, rng: &mut SeededRng) {
    let circ = Arc::new(aes128());
    let key = [69u8; 16];
    let msg = [42u8; 16];
    let expected = encrypt(key, msg);

    let input_keys = draw_keys(rng, circ.inputs().len());
    let input_macs: Vec<Mac> = input_keys
        .iter()
        .zip(bits_of(&[key, msg].concat()))
        .map(|(key, bit)| key.auth(bit, &delta))
        .collect();

    let new_cipher = |key: [u8; 16]| move |tweak: Block, x: Block| keyed_hash(key, tweak, x);
    let setup = garbler.setup().unwrap();
    let mut evaluator = Evaluator::default();
    evaluator.setup(setup).unwrap();

    let mut circuits = Vec::new();
    let mut output_keys = Vec::new();
    for _ in 0..2 {
        let worker = garbler.alloc_worker(circ.and_count()).unwrap();
        let mut iter = worker.generate_batched(&circ, &input_keys, &new_cipher).unwrap();
        let mut gates = Vec::new();
        while let Some(batch) = iter.next() {
            gates.extend(batch.into_array());
        }
        circuits.push((circ.clone(), input_macs.clone(), GarbledCircuit { gates }));
        output_keys.push(iter.finish().unwrap().outputs);
    }
    let workers = vec![
        evaluator.alloc_worker(circ.and_count()).unwrap(),
        evaluator.alloc_worker(circ.and_count()).unwrap(),
    ];
    let outputs = evaluate_garbled_circuits(circuits, workers, &new_cipher).unwrap();

    assert_eq!(outputs.len(), 2);
    for (output, keys) in outputs.iter().zip(&output_keys) {
        check_outputs(keys, &output.outputs, &expected, &delta);
    }
}

#[test]
fn lib_test_garble_preprocessed() {
    let mut rng = SeededRng::seed_from_u64(0);
    let delta = Delta::random(&mut rng);
    preprocess(Garbler::new(delta), delta, &mut rng);
}

#[test]
fn tests_test_garble_preprocessed() {
    let mut rng = SeededRng::seed_from_u64(0);
    let delta = Delta::random(&mut rng);
    preprocess(Garbler::with_initial(delta, 1, 99), delta, &mut rng);
}

// Tests garbling a circuit with no AND gates
#[test]
fn lib_test_garble_no_and() {
    let mut rng = SeededRng::seed_from_u64(0);
    let circ = xor(8);
    assert_eq!(circ.and_count(), 0);
    let a = 1u8;
    let b = 2u8;
    let delta = Delta::random(&mut rng);
    stream(&circ, &[a, b], &[a ^ b], Garbler::new(delta), delta, &mut rng);
}

#[test]
fn tests_test_garble_no_and() {
    let mut rng = SeededRng::seed_from_u64(0);
    let circ = xor(8);
    assert_eq!(circ.and_count(), 0);
    let a = 1u8;
    let b = 2u8;
    let delta = Delta::random(&mut rng);
    stream(&circ, &[a, b], &[a ^ b], Garbler::with_initial(delta, 1, 99), delta, &mut rng);
}

#[test]
fn test_auth_garble() {
    let mut rng = SeededRng::seed_from_u64(0);

    let key = [69u8; 16];
    let msg = [42u8; 16];
    let circuit = &aes128();
    let expected = encrypt(key, msg);

    let delta_a = Delta::random(&mut rng).set_lsb(true);
    let delta_b = Delta::random(&mut rng).set_lsb(false);

    // Calculate total number of shares needed
    let bucket_size = (SSP as f64 / (circuit.and_count() as f64).log2()).ceil() as usize;
    let num_input_shares = circuit.inputs().len();
    let num_and_shares = circuit.and_count() * (3 * bucket_size + 1);
    let total_shares = num_input_shares + num_and_shares;

    // Get all shares in one call
    let (gen_all_shares, eval_all_shares) =
        bit_shares_from_cot(total_shares, delta_a, delta_b).unwrap();

    // Split into input and AND shares
    let (gen_input_shares, gen_and_shares) = gen_all_shares.split_at(num_input_shares);
    let (eval_input_shares, eval_and_shares) = eval_all_shares.split_at(num_input_shares);

    // Coin-tossing to agree on a seed
    let seed = 0;

    let mut gb = AuthGen::new(seed, bucket_size);
    let mut ev = AuthEval::new(seed, bucket_size);

    let input_keys = draw_keys(&mut rng, circuit.inputs().len());
    let masked_inputs: Vec<bool> = bits_of(&[key, msg].concat())
        .into_iter()
        .enumerate()
        .map(|(i, b)| b ^ gen_input_shares[i].bit() ^ eval_input_shares[i].bit())
        .collect();

    // Calculate MACs for authenticated garbling
    let input_macs: Vec<Mac> = masked_inputs
        .iter()
        .enumerate()
        .map(|(i, b)| {
            if *b {
                Mac::from(*input_keys[i].as_block()) + Mac::from(*delta_a.as_block())
            } else {
                Mac::from(*input_keys[i].as_block())
            }
        })
        .collect();

    let (c_gen, mut g_gen) = gb
        .generate_pre_1(circuit, delta_a, gen_input_shares, gen_and_shares, &plain_hash)
        .unwrap();
    let (c_eval, mut g_eval) = ev
        .evaluate_pre_1(circuit, delta_b, eval_input_shares, eval_and_shares, &plain_hash)
        .unwrap();

    let gr_gen = g_eval.clone();
    let gr_eval = g_gen.clone();

    let d_gen = gb.generate_pre_2(delta_a, c_gen, &mut g_gen, gr_gen, &plain_hash).unwrap();
    let d_eval = ev.evaluate_pre_2(delta_b, c_eval, &mut g_eval, gr_eval, &plain_hash).unwrap();

    let dr_gen = d_eval.clone();
    let dr_eval = d_gen.clone();

    let data_gen = gb.generate_pre_3(delta_a, &mut g_gen, d_gen, dr_gen).unwrap();
    let data_eval = ev.evaluate_pre_3(delta_b, &mut g_eval, d_eval, dr_eval).unwrap();

    for (g_gen, g_eval) in g_gen.iter().zip(g_eval.iter()) {
        assert_eq!(g_gen, g_eval, "fpre triple check failed");
    }

    // The equality check over a salted digest.
    let (digest, salt, salted) = gb.check_equality(g_gen.clone(), &plain_hash, &hash).unwrap();
    let eval_digest = ev.check_equality(g_eval.clone(), &plain_hash).unwrap();
    assert_eq!(eval_digest, digest);
    assert_eq!(ev.check_salt(salt, eval_digest, &hash).unwrap(), salted);

    let data_recv_gen = data_eval.clone();
    let data_recv_eval = data_gen.clone();

    gb.generate_pre_4(data_gen, data_recv_gen).unwrap();
    ev.evaluate_pre_4(data_eval, data_recv_eval).unwrap();

    gb.generate_free(circuit).unwrap();
    ev.evaluate_free(circuit).unwrap();

    let (px_gen, py_gen) = gb.generate_de(circuit).unwrap();
    let (px_eval, py_eval) = ev.evaluate_de(circuit).unwrap();

    let mut gen_iter =
        gb.generate_batched(circuit, delta_a, &input_keys, px_eval, py_eval, &hash).unwrap();
    let mut ev_consumer = ev
        .evaluate_batched(circuit, delta_b, &input_macs, masked_inputs, px_gen, py_gen, &hash)
        .unwrap();

    while let Some(batch) = gen_iter.next() {
        ev_consumer.next(batch);
    }

    let AuthEvalOutput {
        output_labels: eval_output_labels,
        output_auth_bits: eval_output_auth_bits,
        auth_hash: eval_auth_hash,
        masked_output_values,
        masked_values,
    } = ev_consumer.finish().unwrap();

    let AuthGenOutput {
        output_labels: gen_output_labels,
        output_auth_bits: gen_output_auth_bits,
        auth_hash: gen_auth_hash,
    } = gen_iter.finish(masked_values).unwrap();

    // authentication check
    assert_eq!(gen_auth_hash, eval_auth_hash, "auth hash mismatch");

    let masks: Vec<bool> = gen_output_auth_bits
        .iter()
        .zip(eval_output_auth_bits.iter())
        .map(|(gen_auth_bit, eval_auth_bit)| gen_auth_bit.bit() ^ eval_auth_bit.bit())
        .collect();

    // Unmask the output
    let output: Vec<bool> = masked_output_values
        .iter()
        .enumerate()
        .map(|(i, masked_value)| masked_value ^ masks[i])
        .collect();

    assert_eq!(bytes_of(&output), expected, "output mismatch");

    // Check output labels
    for (i, (gen_label, eval_label)) in
        gen_output_labels.iter().zip(eval_output_labels.iter()).enumerate()
    {
        let xor = *gen_label.as_block() ^ *eval_label.as_block();
        let masked_value = masked_output_values[i];
        let expected = delta_a.mul_bool(masked_value);
        assert_eq!(xor, expected, "output label mismatch");
    }
}

#[test]
fn test_wire_remapping_reduces_slots() {
    let circ = aes128();
    let remapping = WireRemapping::compute(&circ);

    println!("feed_count: {}", circ.feed_count());
    println!("num_slots:  {}", remapping.num_slots());

    // Should have significant reduction
    assert!(
        remapping.num_slots() < circ.feed_count() / 10,
        "Expected >10x reduction, got {}x",
        circ.feed_count() / remapping.num_slots()
    );
}

/// A correlation and the keys of a circuit's inputs.
fn delta_and_keys(circ: &Circuit) -> (Delta, Vec<Key>) {
    let mut rng = SeededRng::seed_from_u64(42);
    let mut delta = rng.next_block();
    delta.set_lsb(true);
    let input_keys = draw_keys(&mut rng, circ.inputs().len());
    (Delta::new(delta), input_keys)
}

#[test]
fn test_remapped_garbler_produces_same_output_count() {
    let circ = aes128();
    let remapping = WireRemapping::compute(&circ);
    let garbler = RemappedGarbler::new(remapping);
    let (delta, input_keys) = delta_and_keys(&circ);

    let mut iter = garbler.generate(&circ, delta, &input_keys, &hash).unwrap();

    // Consume all gates
    let mut gate_count = 0;
    while iter.has_gates() {
        iter.next();
        gate_count += 1;
    }

    assert_eq!(gate_count, circ.and_count());

    let output = iter.finish().unwrap();
    assert_eq!(output.outputs.len(), circ.outputs().len());
}

#[test]
fn test_remapped_matches_standard_garbler() {
    let circ = aes128();
    let remapping = WireRemapping::compute(&circ);
    let (delta, input_keys) = delta_and_keys(&circ);

    // Standard garbler
    let mut std_garbler = Garbler::with_initial(delta, 1, 0);
    std_garbler.setup().unwrap();
    let new_cipher = |_: [u8; 16]| |tweak: Block, x: Block| hash(tweak, x);
    let mut std_iter = std_garbler.generate(&circ, &input_keys, &new_cipher).unwrap();
    let mut std_gates = Vec::new();
    while let Some(gate) = std_iter.next() {
        std_gates.push(gate);
    }

    // Remapped garbler
    let rem_garbler = RemappedGarbler::new(remapping);
    let mut rem_iter = rem_garbler.generate(&circ, delta, &input_keys, &hash).unwrap();
    let mut rem_gates = Vec::new();
    while let Some(gate) = rem_iter.next() {
        rem_gates.push(gate);
    }

    // Gates should be identical
    assert_eq!(std_gates.len(), rem_gates.len());
    for (i, (std, rem)) in std_gates.iter().zip(rem_gates.iter()).enumerate() {
        assert_eq!(std, rem, "Gate {} mismatch", i);
    }
    assert_eq!(std_iter.finish().unwrap().outputs, rem_iter.finish().unwrap().outputs);
}

/// Garbles AES-128 with three halves.
fn garble_th() -> (Circuit, Vec<three_halves::EncryptedGate>, Vec<Mac>, Vec<Key>, Block, [u8; 16]) {
    let mut rng = SeededRng::seed_from_u64(0);
    let circ = aes128();
    let key = [69u8; 16];
    let msg = [42u8; 16];
    let expected = encrypt(key, msg);
    let delta = Delta::random(&mut rng);
    let input_keys = draw_keys(&mut rng, circ.inputs().len());
    let input_bits = bits_of(&[key, msg].concat());

    // Garble
    let garbler = three_halves::Garbler::default();
    let mut iter = garbler.generate_batched(&circ, delta, &input_keys, &mut rng, hash).unwrap();
    let mut gates = Vec::new();
    while let Some(batch) = iter.next() {
        gates.extend(batch.into_array());
    }
    let output_labels = iter.finish().unwrap().outputs;

    let delta_block = *delta.as_block();
    let input_macs: Vec<Mac> = input_keys
        .iter()
        .zip(&input_bits)
        .map(|(key, &bit)| {
            let key_block = *key.as_block();
            if bit {
                (key_block ^ delta_block).into()
            } else {
                key_block.into()
            }
        })
        .collect();
    (circ, gates, input_macs, output_labels, delta_block, expected)
}

/// Decodes: a MAC is that of the bit 1 if it is the 0-label plus Δ.
fn decode_th(macs: &[Mac], labels: &[Key], delta: Block) -> Vec<u8> {
    let bits: Vec<bool> = macs
        .iter()
        .zip(labels)
        .map(|(mac, false_label)| *mac == Mac::from(*false_label.as_block() ^ delta))
        .collect();
    bytes_of(&bits)
}

/// Test: AES128 circuit
#[test]
fn test_aes128_circuit() {
    let (circ, gates, input_macs, output_labels, delta, expected) = garble_th();

    // Evaluate
    let mut ev = three_halves::Evaluator::default();
    let mut consumer = ev.evaluate(&circ, &input_macs, hash).unwrap();
    for gate in gates {
        consumer.next(gate);
    }
    let output_macs = consumer.finish().unwrap().outputs;
    assert_eq!(decode_th(&output_macs, &output_labels, delta), expected);
}

/// Test: AES128 with circuit reuse (preprocessed garbling)
#[test]
fn test_aes128_preprocessed() {
    let (circ, gates, input_macs, output_labels, delta, expected) = garble_th();

    // Evaluate the same circuit twice using preprocessed gates
    for _ in 0..2 {
        let mut ev = three_halves::Evaluator::with_capacity(16);
        let mut consumer = ev.evaluate(&circ, &input_macs, hash).unwrap();
        for gate in &gates {
            consumer.next(*gate);
        }
        let output_macs = consumer.finish().unwrap().outputs;
        assert_eq!(decode_th(&output_macs, &output_labels, delta), expected);
    }

    // And in bulk
    let circ = Arc::new(circ);
    let circuits = vec![
        (circ.clone(), input_macs.clone(), three_halves::GarbledCircuit { gates: gates.clone() }),
        (circ.clone(), input_macs.clone(), three_halves::GarbledCircuit { gates }),
    ];
    for output in three_halves::evaluate_garbled_circuits(circuits, hash).unwrap() {
        assert_eq!(decode_th(&output.outputs, &output_labels, delta), expected);
    }
}
