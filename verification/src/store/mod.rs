//! Memory stores.

pub mod auth_gen;
pub mod equations;
pub mod flush;
pub mod keys;
pub mod laws;
pub mod ranges;
pub mod slots;

pub use auth_gen::{AuthGenStore, AuthGenStoreError, CotRequest};
pub use flush::{
    AuthEvalFlush, AuthFlushView, AuthGenFlush, EvaluatorFlush, GarblerFlush, MacProof, ShareProof,
};
pub use ranges::{RangeSet, Slice};
pub use slots::{BitStore, StoreError};
