//! Half-Gates garbling scheme implementation
//!
//! This module implements the "Two Halves Make a Whole" garbling scheme from
//! [Zahur, Rosulek, Evans 2015](https://eprint.iacr.org/2014/756).
//!
//! ## Key Features
//!
//! - **AND gate size**: 2κ bits (32 bytes) per gate
//! - **Free XOR**: XOR gates have zero cost (no ciphertext)
//! - **Point-and-permute**: Fast evaluation using LSB color bits
//!
//! ## Architecture
//!
//! - [`Garbler`] - Generates garbled circuits and wire labels
//! - [`Evaluator`] - Evaluates garbled circuits using active wire labels
//! - [`remapped_garbler`] - A garbler whose wires share slots
//! - [`laws`] - What the evaluator gets from what the garbler sends

pub mod evaluator;
pub mod garbler;
pub mod laws;
pub mod remapped_garbler;
pub mod remap_laws;

pub use crate::circuit::{EncryptedGate, EncryptedGateBatch, GarbledCircuit};
pub use evaluator::{
    evaluate_garbled_circuits, EncryptedGateBatchConsumer, EncryptedGateConsumer, Evaluator,
    EvaluatorError, EvaluatorOutput, EvaluatorWorker,
};
pub use garbler::{
    EncryptedGateBatchIter, EncryptedGateIter, Garbler, GarblerError, GarblerOutput, GarblerWorker,
};
