//! Prime fields: Goldilocks (p = 2^64 - 2^32 + 1) and Mersenne (p = 2^61 - 1).
//!
//! - [`goldilocks`], [`m61`]: the elements and their arithmetic
//! - [`ntt`], [`poly_ntt`]: number theoretic transform and polynomials over it
//! - [`lagrange`]: interpolation through given points
//! - [`laws`]: the laws of the fields

pub mod euclid;
pub mod fermat;
pub mod goldilocks;
pub mod goldilocks_generator;
pub mod goldilocks_prime;
pub mod lagrange;
pub mod laws;
pub mod m61;
pub mod m61_prime;
pub mod modular;
pub mod ntt;
pub mod poly;
pub mod poly_ntt;
pub mod proth;
pub mod transform;
pub mod words;

pub use goldilocks::{Goldilocks, GoldilocksError};
pub use lagrange::LagrangePrecompute;
pub use m61::M61Field;
pub use ntt::InttContext;
