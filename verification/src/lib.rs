//! Garbled circuits, authenticated garbling and the prime fields around them.

use vstd::prelude::*;

use crate::fpre::{checked_triples, combined_triples, cot_shares, shares_paired};
use crate::rng::SeededRng;
use crate::triples::{all_valid, grouped};

pub mod auth;
pub mod auth_equations;
pub mod auth_eval;
pub mod auth_gen;
pub mod auth_laws;
pub mod bignum;
pub mod block;
pub mod block_vole;
pub mod circuit;
pub mod correlated;
pub mod fcp;
pub mod fields;
pub mod fpre;
pub mod fpre_equations;
pub mod gf2_128;
pub mod gf2_field;
pub mod half_gates;
pub mod hash;
pub mod rng;
pub mod shares;
pub mod store;
pub mod three_halves;
pub mod triple_equations;
pub mod triples;

pub use auth_eval::{
    AuthEncryptedGateBatchConsumer, AuthEncryptedGateConsumer, AuthEval, AuthEvalOutput,
    AuthEvaluatorError,
};
pub use auth_gen::{AuthEncryptedGateBatchIter, AuthGen, AuthGenOutput, AuthGeneratorError};
pub use block_vole::{
    BlockVoleError, BlockVoleReceiverOutput, BlockVoleSenderOutput, ExtendedVole, IdealBlockVole,
    IdealSubfieldVole, SubfieldVoleOutput,
};
pub use circuit::{
    AuthHalfGate, AuthHalfGateBatch, Circuit, EncryptedGate, EncryptedGateBatch, GarbledCircuit,
};
pub use correlated::{Delta, Key, Mac};
pub use fpre::{bit_shares_from_cot, fpre, fpre_with_deltas, Fpre, FpreError};
pub use half_gates::{
    evaluate_garbled_circuits, EncryptedGateBatchConsumer, EncryptedGateBatchIter,
    EncryptedGateConsumer, EncryptedGateIter, Evaluator, EvaluatorError, EvaluatorOutput, Garbler,
    GarblerError, GarblerOutput,
};
pub use shares::{AuthBit, AuthBitShare, AuthTriple, AuthTripleShare};

verus! {

/// Statistical security parameter for authenticated garbling
pub const SSP: usize = 40;

/// A kilobyte.
pub const KB: usize = 1024;

/// The size of an encrypted gate.
pub const BYTES_PER_GATE: usize = 32;

/// Maximum size of a batch in bytes.
pub const MAX_BATCH_SIZE: usize = 4 * KB;

/// Default amount of encrypted gates per batch.
///
/// Batches are stack allocated, so we will limit the size to `MAX_BATCH_SIZE`.
///
/// Additionally, because the size of each batch is static, if a circuit is
/// smaller than a batch we will be wasting some bandwidth sending empty bytes.
/// This puts an upper limit on that waste.
pub const DEFAULT_BATCH_SIZE: usize = MAX_BATCH_SIZE / BYTES_PER_GATE;

/// Setup message that a garbler sends to an evaluator.
#[derive(Clone, Copy, Debug)]
pub struct SetupMsg {
    /// Initial gate id.
    pub initial_gid: u128,
    /// Key for the cipher used to encrypt the gates.
    pub key: [u8; 16],
}

/// The shares of wires and of triples of a party.
pub type Preprocessing = (Vec<AuthBitShare>, Vec<AuthTripleShare>);

/// Generate preprocessing material for authenticated garbling.
///
/// The compressed protocol is in [`fcp::generate_preprocessing`].
///
/// # Arguments
/// * `num_and` - Number of AND gates
/// * `num_wires` - Number of wire shares
/// * `bucket_size` - Bucket size for bucketing
/// * `seed` - Random seed
/// * `rng` - Random number generator
///
/// # Returns
/// (Generator output, Evaluator output) containing wire_shares and triple_shares
pub fn generate_preprocessing(
    num_and: usize,
    num_wires: usize,
    bucket_size: usize,
    seed: u64,
    rng: &mut SeededRng,
) -> (r: (Preprocessing, Preprocessing))
    requires
        bucket_size > 0,
        num_wires + num_and + num_and * (3 * bucket_size) <= usize::MAX,
    ensures
        ({
            let (a, rng1) = old(rng).block_drawn();
            let (b, rng2) = rng1.block_drawn();
            let delta_a = Delta { block: a.with_low_bit(true) };
            let delta_b = Delta { block: b.with_low_bit(false) };
            let wires = (num_wires + num_and) as int;
            let total = (wires + num_and * (3 * bucket_size)) as nat;
            let (gens, evals) = cot_shares(total, delta_a, delta_b);
            let leaky = checked_triples(
                grouped(gens.skip(wires)),
                grouped(evals.skip(wires)),
                delta_a,
                delta_b,
            );
            let triples = combined_triples(leaky.0, leaky.1, 0, bucket_size as int);
            &&& *final(rng) == rng2
            &&& r.0.0@ == gens.take(wires)
            &&& r.0.1@ == triples.0
            &&& r.1.0@ == evals.take(wires)
            &&& r.1.1@ == triples.1
            &&& shares_paired(r.0.0@, r.1.0@, delta_a, delta_b)
            &&& all_valid(r.0.1@, r.1.1@, delta_a, delta_b)
        }),
{
    let (gen_output, eval_output) = fpre(num_wires, num_and, bucket_size, seed, rng);
    (
        (gen_output.wire_shares, gen_output.triple_shares),
        (eval_output.wire_shares, eval_output.triple_shares),
    )
}

} // verus!
