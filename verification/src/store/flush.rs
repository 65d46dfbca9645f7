//! The messages that the parties exchange when their stores flush.

use vstd::prelude::*;

use crate::block::Block;
use crate::correlated::Mac;
use crate::store::ranges::{RangeSet, Slice};

verus! {

/// Commitments to the two MACs that an output can have.
#[derive(Clone, Copy, Debug, PartialEq, Eq, Structural)]
pub struct MacCommitment {
    /// The commitment to one MAC.
    pub first: Block,
    /// The commitment to the other MAC.
    pub second: Block,
}

/// Flush message sent by the garbler.
#[derive(Debug)]
pub struct GarblerFlush {
    /// MACs sent directly to the evaluator.
    pub macs: Vec<Mac>,
    /// Key bits for decoding.
    pub key_bits: Vec<bool>,
    /// MAC commitments sent for decoding.
    pub mac_commitments: Vec<MacCommitment>,
}

/// A flush message of the garbler as it was received.
#[derive(Debug)]
pub struct GarblerFlushUnchecked {
    /// MACs sent directly to the evaluator.
    pub macs: Vec<Mac>,
    /// Key bits for decoding.
    pub key_bits: Vec<bool>,
    /// MAC commitments sent for decoding.
    pub mac_commitments: Vec<MacCommitment>,
}

impl GarblerFlush {
    /// There is one commitment for each key bit.
    pub open spec fn wf(&self) -> bool {
        self.mac_commitments@.len() == self.key_bits@.len()
    }

    /// Accepts a message in which there is one commitment for each key bit.
    pub fn try_from(value: GarblerFlushUnchecked) -> (r: Result<GarblerFlush, String>)
        ensures
            match r {
                Ok(flush) => {
                    &&& flush.wf()
                    &&& flush.macs == value.macs
                    &&& flush.key_bits == value.key_bits
                    &&& flush.mac_commitments == value.mac_commitments
                },
                Err(text) => {
                    &&& value.mac_commitments@.len() != value.key_bits@.len()
                    &&& text@ == "garbler sent flush with invalid number of MAC commitments"@
                },
            },
    {
        let GarblerFlushUnchecked { macs, key_bits, mac_commitments } = value;
        if mac_commitments.len() != key_bits.len() {
            return Err("garbler sent flush with invalid number of MAC commitments".to_owned());
        }
        Ok(GarblerFlush { macs, key_bits, mac_commitments })
    }
}

/// MAC proof sent from the evaluator to the garbler to prove
/// the output of a circuit.
#[derive(Debug)]
pub struct MacProof {
    /// The bits of the output.
    pub bits: Vec<bool>,
    /// The hash that proves them.
    pub hash: [u8; 32],
}

/// Flush message sent by the evaluator.
#[derive(Debug)]
pub struct EvaluatorFlush {
    /// Proof of MACs for decoding.
    pub mac_proof: Option<MacProof>,
}

/// The bits of a party's shares with their MACs.
#[derive(Debug)]
pub struct ShareProof {
    /// The bits.
    pub bits: Vec<bool>,
    /// The MACs of the bits.
    pub macs: Vec<Mac>,
}

impl ShareProof {
    /// The bits and the MACs.
    pub open spec fn view(&self) -> (Seq<bool>, Seq<Mac>) {
        (self.bits@, self.macs@)
    }
}

/// What a flush is to do with which addresses.
#[derive(Debug)]
pub struct AuthFlushView {
    /// Inputs of the generator whose masks are made.
    pub gen_masks: RangeSet,
    /// Inputs of the evaluator whose masks are made.
    pub eval_masks: RangeSet,
    /// Public inputs whose masks are made.
    pub public: RangeSet,
    /// Inputs of the generator that are masked.
    pub gen_reveal: RangeSet,
    /// Inputs of the evaluator that are masked.
    pub eval_reveal: RangeSet,
    /// Public inputs that are masked.
    pub public_decode: RangeSet,
    /// Inputs whose labels are sent.
    pub labels: RangeSet,
    /// Values that the evaluator decodes.
    pub gen_decode: RangeSet,
    /// Values that the generator decodes.
    pub eval_decode: RangeSet,
    /// Outputs whose labels the evaluator returns.
    pub decode_info: RangeSet,
}

/// The ranges of the sets of a flush.
pub struct FlushRanges {
    /// See [`AuthFlushView`].
    pub gen_masks: Seq<Slice>,
    /// See [`AuthFlushView`].
    pub eval_masks: Seq<Slice>,
    /// See [`AuthFlushView`].
    pub public: Seq<Slice>,
    /// See [`AuthFlushView`].
    pub gen_reveal: Seq<Slice>,
    /// See [`AuthFlushView`].
    pub eval_reveal: Seq<Slice>,
    /// See [`AuthFlushView`].
    pub public_decode: Seq<Slice>,
    /// See [`AuthFlushView`].
    pub labels: Seq<Slice>,
    /// See [`AuthFlushView`].
    pub gen_decode: Seq<Slice>,
    /// See [`AuthFlushView`].
    pub eval_decode: Seq<Slice>,
    /// See [`AuthFlushView`].
    pub decode_info: Seq<Slice>,
}

impl AuthFlushView {
    /// Every set is in canonical form.
    pub open spec fn wf(&self) -> bool {
        &&& self.gen_masks.wf()
        &&& self.eval_masks.wf()
        &&& self.public.wf()
        &&& self.gen_reveal.wf()
        &&& self.eval_reveal.wf()
        &&& self.public_decode.wf()
        &&& self.labels.wf()
        &&& self.gen_decode.wf()
        &&& self.eval_decode.wf()
        &&& self.decode_info.wf()
    }

    /// The ranges of the sets.
    pub open spec fn view(&self) -> FlushRanges {
        FlushRanges {
            gen_masks: self.gen_masks.ranges@,
            eval_masks: self.eval_masks.ranges@,
            public: self.public.ranges@,
            gen_reveal: self.gen_reveal.ranges@,
            eval_reveal: self.eval_reveal.ranges@,
            public_decode: self.public_decode.ranges@,
            labels: self.labels.ranges@,
            gen_decode: self.gen_decode.ranges@,
            eval_decode: self.eval_decode.ranges@,
            decode_info: self.decode_info.ranges@,
        }
    }

    /// Nothing is to be done.
    pub open spec fn is_idle(&self) -> bool {
        self@ == no_ranges()
    }

    /// Creates a view with nothing to be done.
    pub fn new() -> (r: AuthFlushView)
        ensures
            r.wf(),
            r.is_idle(),
    {
        AuthFlushView {
            gen_masks: RangeSet::new(),
            eval_masks: RangeSet::new(),
            public: RangeSet::new(),
            gen_reveal: RangeSet::new(),
            eval_reveal: RangeSet::new(),
            public_decode: RangeSet::new(),
            labels: RangeSet::new(),
            gen_decode: RangeSet::new(),
            eval_decode: RangeSet::new(),
            decode_info: RangeSet::new(),
        }
    }

    /// Copies the view.
    pub fn copy(&self) -> (r: AuthFlushView)
        ensures
            r@ == self@,
    {
        AuthFlushView {
            gen_masks: self.gen_masks.copy(),
            eval_masks: self.eval_masks.copy(),
            public: self.public.copy(),
            gen_reveal: self.gen_reveal.copy(),
            eval_reveal: self.eval_reveal.copy(),
            public_decode: self.public_decode.copy(),
            labels: self.labels.copy(),
            gen_decode: self.gen_decode.copy(),
            eval_decode: self.eval_decode.copy(),
            decode_info: self.decode_info.copy(),
        }
    }

    /// Whether two views are the same.
    pub fn equals(&self, other: &AuthFlushView) -> (r: bool)
        ensures
            r == (self@ == other@),
    {
        self.gen_masks.equals(&other.gen_masks) && self.eval_masks.equals(&other.eval_masks)
            && self.public.equals(&other.public) && self.gen_reveal.equals(&other.gen_reveal)
            && self.eval_reveal.equals(&other.eval_reveal) && self.public_decode.equals(
            &other.public_decode,
        ) && self.labels.equals(&other.labels) && self.gen_decode.equals(&other.gen_decode)
            && self.eval_decode.equals(&other.eval_decode) && self.decode_info.equals(
            &other.decode_info,
        )
    }

    /// Whether something is to be done.
    pub fn wants_flush(&self) -> (r: bool)
        ensures
            r == !self.is_idle(),
    {
        let idle = AuthFlushView::new();
        !self.equals(&idle)
    }
}

/// The ranges where nothing is to be done.
pub open spec fn no_ranges() -> FlushRanges {
    FlushRanges {
        gen_masks: seq![],
        eval_masks: seq![],
        public: seq![],
        gen_reveal: seq![],
        eval_reveal: seq![],
        public_decode: seq![],
        labels: seq![],
        gen_decode: seq![],
        eval_decode: seq![],
        decode_info: seq![],
    }
}

/// Flush message sent by the authenticated generator.
#[derive(Debug)]
pub struct AuthGenFlush {
    /// What the flush does.
    pub view: AuthFlushView,
    /// The generator's shares of the evaluator's inputs and of public inputs.
    pub share_proof: Option<ShareProof>,
    /// The generator's inputs under its own masks.
    pub half_masked_inputs: Vec<bool>,
    /// Labels of inputs.
    pub labels: Vec<Mac>,
    /// The generator's shares of values that the evaluator decodes.
    pub decode_share_proof: Option<ShareProof>,
}

/// Flush message sent by the authenticated evaluator.
#[derive(Debug)]
pub struct AuthEvalFlush {
    /// What the flush does.
    pub view: AuthFlushView,
    /// The evaluator's shares of the generator's inputs and of public inputs.
    pub share_proof: Option<ShareProof>,
    /// The evaluator's inputs under its own masks.
    pub half_masked_inputs: Vec<bool>,
    /// Labels of outputs.
    pub labels: Vec<Mac>,
    /// The evaluator's shares of values that the generator decodes.
    pub decode_share_proof: Option<ShareProof>,
}

} // verus!
