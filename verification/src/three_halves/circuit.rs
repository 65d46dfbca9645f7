//! Circuit types for Three-Halves garbling scheme

use vstd::prelude::*;

use crate::fields::words::{from_le_bytes, le_number, to_le_bytes};
use crate::three_halves::control::bit;

verus! {

/// Gate ciphertexts for a Three Halves AND gate.
///
/// Contains 3 ciphertexts of κ/2 bits each = 1.5κ bits total.
/// This is smaller than half-gates which uses 2κ bits.
#[derive(Clone, Copy, Debug, PartialEq, Eq)]
pub struct ThreeHalvesGate {
    /// Gate ciphertext G₀ (κ/2 = 64 bits)
    pub g0: [u8; 8],
    /// Gate ciphertext G₁ (κ/2 = 64 bits)
    pub g1: [u8; 8],
    /// Gate ciphertext G₂ (κ/2 = 64 bits)
    pub g2: [u8; 8],
}

impl ThreeHalvesGate {
    /// Create a new gate from three κ/2-bit ciphertexts.
    pub fn new(g0: [u8; 8], g1: [u8; 8], g2: [u8; 8]) -> (r: ThreeHalvesGate)
        ensures
            r == (ThreeHalvesGate { g0, g1, g2 }),
    {
        ThreeHalvesGate { g0, g1, g2 }
    }
}

/// Control bits for evaluator (compressed form).
///
/// The r_bar is a 4×2 matrix where each row r_bar[ij] contains the coefficients
/// [c₁, c₂] for input position (i,j). The evaluator expands this to a 2×4
/// marginal using: R_ij = c₁·S₁ ⊕ c₂·S₂
///
/// Stored as a packed u8: bits [2*ij, 2*ij+1] hold [c₁, c₂] for position ij.
#[derive(Clone, Copy, Debug, PartialEq, Eq, Structural)]
pub struct ControlBits {
    /// The packed bits.
    pub bits: u8,
}

/// The bit of a byte at a position, counted from the least significant one.
pub open spec fn bit_of(byte: u8, position: int) -> bool {
    if position == 0 {
        byte % 2 == 1
    } else if position == 1 {
        (byte / 2) % 2 == 1
    } else if position == 2 {
        (byte / 4) % 2 == 1
    } else if position == 3 {
        (byte / 8) % 2 == 1
    } else if position == 4 {
        (byte / 16) % 2 == 1
    } else if position == 5 {
        (byte / 32) % 2 == 1
    } else if position == 6 {
        (byte / 64) % 2 == 1
    } else {
        (byte / 128) % 2 == 1
    }
}

/// The coefficient `k` for input position `ij` in the packed bits.
pub open spec fn coefficient(bits: u8, ij: int, k: int) -> bool {
    bit_of(bits, 2 * ij + k)
}

/// A byte of bits, those of input position `ij` at 2·ij and 2·ij + 1.
pub open spec fn packed(r_bar: spec_fn(int, int) -> u8) -> u8 {
    (r_bar(0, 0) + 2 * r_bar(0, 1) + 4 * r_bar(1, 0) + 8 * r_bar(1, 1) + 16 * r_bar(2, 0) + 32
        * r_bar(2, 1) + 64 * r_bar(3, 0) + 128 * r_bar(3, 1)) as u8
}

impl ControlBits {
    /// Create new control bits from the compressed r_bar representation.
    ///
    /// Packs the 4×2 matrix into a single byte.
    pub fn new(r_bar: [[u8; 2]; 4]) -> (r: ControlBits)
        ensures
            r.bits == packed(|ij: int, k: int| (r_bar@[ij]@[k] % 2) as u8),
            forall|ij: int, k: int|
                0 <= ij < 4 && 0 <= k < 2 ==> #[trigger] coefficient(r.bits, ij, k) == (
                r_bar@[ij]@[k] % 2 == 1),
    {
        let bits: u8 = r_bar[0][0] % 2 + 2 * (r_bar[0][1] % 2) + 4 * (r_bar[1][0] % 2) + 8 * (
        r_bar[1][1] % 2) + 16 * (r_bar[2][0] % 2) + 32 * (r_bar[2][1] % 2) + 64 * (r_bar[3][0] % 2)
            + 128 * (r_bar[3][1] % 2);
        assert forall|ij: int, k: int| 0 <= ij < 4 && 0 <= k < 2 implies #[trigger] coefficient(
            bits,
            ij,
            k,
        ) == (r_bar@[ij]@[k] % 2 == 1) by {
            assert(ij == 0 || ij == 1 || ij == 2 || ij == 3);
            assert(k == 0 || k == 1);
        }
        ControlBits { bits }
    }

    /// Get the coefficients [c₁, c₂] for input position (i, j).
    pub fn get(&self, ij: usize) -> (r: [u8; 2])
        requires
            ij < 4,
        ensures
            r@[0] == bit(coefficient(self.bits, ij as int, 0)),
            r@[1] == bit(coefficient(self.bits, ij as int, 1)),
    {
        if ij == 0 {
            [self.bits % 2, (self.bits / 2) % 2]
        } else if ij == 1 {
            [(self.bits / 4) % 2, (self.bits / 8) % 2]
        } else if ij == 2 {
            [(self.bits / 16) % 2, (self.bits / 32) % 2]
        } else {
            [(self.bits / 64) % 2, (self.bits / 128) % 2]
        }
    }
}

/// What an encrypted gate holds, as numbers.
pub struct GateWords {
    /// Gate ciphertext G₀.
    pub g0: u64,
    /// Gate ciphertext G₁.
    pub g1: u64,
    /// Gate ciphertext G₂.
    pub g2: u64,
    /// The packed control bits.
    pub control: u8,
}

/// What an empty gate holds.
pub open spec fn empty_words() -> GateWords {
    GateWords { g0: 0, g1: 0, g2: 0, control: 0 }
}

/// Encrypted gate for Three Halves scheme.
///
/// Contains both the ciphertexts (1.5κ bits) and control bits (1 byte)
/// needed for evaluation.
#[derive(Clone, Copy, Debug, PartialEq, Eq)]
pub struct EncryptedGate {
    /// Gate ciphertexts (1.5κ bits = 24 bytes)
    pub gate: ThreeHalvesGate,
    /// Control bits for evaluator (1 byte)
    pub control_bits: ControlBits,
}

impl EncryptedGate {
    /// What the encrypted gate holds, as numbers.
    pub open spec fn view(&self) -> GateWords {
        GateWords {
            g0: le_number(self.gate.g0@) as u64,
            g1: le_number(self.gate.g1@) as u64,
            g2: le_number(self.gate.g2@) as u64,
            control: self.control_bits.bits,
        }
    }

    /// Create a new encrypted gate.
    pub fn new(gate: ThreeHalvesGate, control_bits: ControlBits) -> (r: EncryptedGate)
        ensures
            r == (EncryptedGate { gate, control_bits }),
    {
        EncryptedGate { gate, control_bits }
    }

    /// The ciphertexts as numbers.
    pub fn words(&self) -> (r: (u64, u64, u64))
        ensures
            r.0 == self@.g0,
            r.1 == self@.g1,
            r.2 == self@.g2,
    {
        (from_le_bytes(self.gate.g0), from_le_bytes(self.gate.g1), from_le_bytes(self.gate.g2))
    }
}

impl Default for EncryptedGate {
    fn default() -> (r: EncryptedGate)
        ensures
            r@ == empty_words(),
    {
        let zero: [u8; 8] = to_le_bytes(0);
        EncryptedGate {
            gate: ThreeHalvesGate { g0: zero, g1: zero, g2: zero },
            control_bits: ControlBits { bits: 0 },
        }
    }
}

/// A garbled circuit using the Three-Halves scheme.
#[derive(Debug)]
pub struct GarbledCircuit {
    /// Encrypted gates.
    pub gates: Vec<EncryptedGate>,
}

/// What gates hold, as numbers.
pub open spec fn gate_words(gates: Seq<EncryptedGate>) -> Seq<GateWords> {
    Seq::new(gates.len(), |i: int| gates[i]@)
}

/// A batch of encrypted gates.
///
/// # Parameters
///
/// - `N`: The size of a batch.
#[derive(Debug)]
pub struct EncryptedGateBatch<const N: usize> {
    /// The gates.
    pub gates: [EncryptedGate; N],
}

impl<const N: usize> EncryptedGateBatch<N> {
    /// Creates a new batch of encrypted gates.
    pub fn new(batch: [EncryptedGate; N]) -> (r: EncryptedGateBatch<N>)
        ensures
            r.gates == batch,
    {
        EncryptedGateBatch { gates: batch }
    }

    /// Returns the inner array.
    pub fn into_array(self) -> (r: [EncryptedGate; N])
        ensures
            r == self.gates,
    {
        self.gates
    }
}

} // verus!
