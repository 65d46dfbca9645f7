//! # Three Halves Make a Whole - Garbled Circuit Implementation
//!
//! This module implements the "Three Halves Make a Whole" garbling scheme from:
//!
//! **Paper**: "Three Halves Make a Whole? Beating the Half-Gates Lower Bound
//! for Garbled Circuits" **Authors**: Mike Rosulek, Lawrence Roy
//! **Published**: Eurocrypt 2021
//! **ePrint**: <https://eprint.iacr.org/2021/749>
//!
//! ## Overview
//!
//! This scheme reduces AND gate size from 2κ bits (half-gates) to 1.5κ + 5 bits
//! using two key techniques:
//!
//! 1. **Slicing**: Wire labels are split into left/right halves (κ/2 bits
//!    each), and the evaluator computes each half using potentially different
//!    linear combinations.
//!
//! 2. **Dicing**: The evaluator decrypts "control bits" that determine which
//!    linear combinations to apply. These control bits are randomized to hide
//!    the truth table.
//!
//! ## Module Structure
//!
//! - [`matrices`]: Core matrices (K, V, M) that define the linear algebraic
//!   structure
//! - [`control`]: Control matrix system (R, S₁, S₂) for the "dicing" technique
//! - [`slicing`]: Wire label slicing utilities
//! - [`gate`]: The equations of a single AND gate
//! - [`garbler`]: Garbling functions
//! - [`evaluator`]: Evaluation functions
//! - [`laws`]: What the evaluator gets from what the garbler sends
//! - [`equations`]: What labels and ciphertexts are made of

pub mod circuit;
pub mod control;
pub mod equations;
pub mod evaluator;
pub mod garbler;
pub mod garbling;
pub mod gate;
pub mod lanes;
pub mod laws;
pub mod matrices;
pub mod random_bits;
pub mod slicing;

pub use circuit::{
    ControlBits, EncryptedGate, EncryptedGateBatch, GarbledCircuit, ThreeHalvesGate,
};
pub use evaluator::{
    evaluate_garbled_circuits, EncryptedGateBatchConsumer, EncryptedGateConsumer, Evaluator,
    EvaluatorError, EvaluatorOutput,
};
pub use garbler::{
    EncryptedGateBatchIter, EncryptedGateIter, Garbler, GarblerError, GarblerOutput,
};
