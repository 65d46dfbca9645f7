//! Compressed pre-processing of wire labels for authenticated garbling (Fcp).
//!
//! B's wire masks are compressed: a public matrix expands `L` bits to one for each AND gate.
//! The parties end with
//! - `a, b` (wire masks)
//! - `w = bβ + d` (authenticated masks of B)
//! - `â, b̂` (AND shares where `â + b̂ = (a_i + b_i)(a_j + b_j)`)

pub mod equations;
pub mod evaluator;
pub mod generator;
pub mod ideal;
pub mod matrix;

pub use evaluator::FcpEval;
pub use generator::{
    CertificationProof, FcpError, FcpGen, FcpOutput, Step12Output, Step13Messages, Step13Output,
};
pub use ideal::{
    fcp, fcp_with, generate_preprocessing, ideal_step13_message_exchange, ideal_step13_output,
    ideal_step2_subfield_vole,
    ideal_step3_extended_vole, ideal_steps_10_11_certification, ideal_steps_8_9_block_vole,
    Step2Output, Step3Output, Steps89Output,
};
pub use matrix::{compute_l, BinaryMatrix, FcpConfig};
