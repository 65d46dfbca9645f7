//! Garbling and evaluating a single AND gate whose 0-labels have color bit 0.
//!
//! Every row of the equations takes the left half of a hash, and Δ is added to the rows of (1, 1):
//! with other halves, or without Δ, the right-hand side is in general outside the column space of V,
//! and no gate gives each pair of labels its result.

use vstd::prelude::*;

use crate::block::Block;
use crate::hash::{is_tweak_hash, tweak_fn, TweakFn};
use crate::three_halves::circuit::{ControlBits, EncryptedGate, ThreeHalvesGate};
use crate::three_halves::gate::{evaluate_and, evaluated_and, solve_and, solved_and, Choices};
use crate::three_halves::laws::lemma_and_gate;

verus! {

/// Output of garbling a Three Halves AND gate.
#[derive(Clone, Copy, Debug)]
pub struct GarbledGate {
    /// Output wire label for input 0 (C₀)
    pub output_label: Block,
    /// Gate ciphertexts (1.5κ bits)
    pub gate: ThreeHalvesGate,
    /// Control bits for evaluator
    pub control_bits: ControlBits,
}

/// Garble an AND gate using the Three Halves scheme.
///
/// # Arguments
/// * `cipher` - The hash
/// * `a0` - Input wire A, label for bit 0
/// * `b0` - Input wire B, label for bit 0
/// * `delta` - Global correlation Δ
/// * `gid` - Gate ID
/// * `rand_bits` - 2 random bits for control matrix randomization
///
/// # Returns
/// The garbled gate containing output label, ciphertexts, and control bits.
pub fn garble_and_gate<H: Fn(Block, Block) -> Block>(
    cipher: &H,
    a0: Block,
    b0: Block,
    delta: Block,
    gid: usize,
    rand_bits: [bool; 2],
) -> (r: GarbledGate)
    requires
        is_tweak_hash(*cipher),
    ensures
        ({
            let p = Choices { pi_a: false, pi_b: false, r0: rand_bits@[0], r1: rand_bits@[1] };
            (r.output_label, (EncryptedGate { gate: r.gate, control_bits: r.control_bits })@)
                == solved_and(tweak_fn(*cipher), a0, b0, p, delta, gid as u128)
        }),
{
    let p = Choices { pi_a: false, pi_b: false, r0: rand_bits[0], r1: rand_bits[1] };
    let (c, encrypted) = solve_and(cipher, &a0, &b0, p, delta, gid as u128);
    GarbledGate { output_label: c, gate: encrypted.gate, control_bits: encrypted.control_bits }
}

/// A garbled gate, evaluated on the labels of bits `i` and `j`, gives C₀, plus Δ if both bits are
/// set.
pub proof fn lemma_garbled_gate(
    h: TweakFn,
    a0: Block,
    b0: Block,
    r0: bool,
    r1: bool,
    delta: Block,
    gid: u128,
    i: bool,
    j: bool,
)
    requires
        !a0.low_bit(),
        !b0.low_bit(),
        delta.low_bit(),
    ensures
        ({
            let p = Choices { pi_a: false, pi_b: false, r0, r1 };
            let (c0, gate) = solved_and(h, a0, b0, p, delta, gid);
            evaluated_and(h, a0.xor(delta.times(i)), b0.xor(delta.times(j)), gate, gid)
                == c0.xor(delta.times(i && j))
        }),
{
    let p = Choices { pi_a: false, pi_b: false, r0, r1 };
    lemma_and_gate(h, a0, b0, p, delta, gid, i, j);
}

/// Evaluate a Three Halves AND gate.
///
/// # Arguments
/// * `cipher` - The hash
/// * `a` - Input wire A label (for bit i)
/// * `b` - Input wire B label (for bit j)
/// * `gate` - Gate ciphertexts from garbling
/// * `control_bits` - Control bits from garbling
/// * `gid` - Gate ID
///
/// # Returns
/// The output wire label C_{i∧j}
pub fn evaluate_and_gate<H: Fn(Block, Block) -> Block>(
    cipher: &H,
    a: Block,
    b: Block,
    gate: &ThreeHalvesGate,
    control_bits: &ControlBits,
    gid: usize,
) -> (r: Block)
    requires
        is_tweak_hash(*cipher),
    ensures
        r == evaluated_and(
            tweak_fn(*cipher),
            a,
            b,
            (EncryptedGate { gate: *gate, control_bits: *control_bits })@,
            gid as u128,
        ),
{
    evaluate_and(cipher, &a, &b, &EncryptedGate::new(*gate, *control_bits), gid as u128)
}

} // verus!
