//! Poseidon: a sponge hash over a prime field, with an algebraic permutation.

pub mod block_api;
pub mod compress;
pub mod field;
pub mod hasher;

pub use field::FieldElement;
pub use hasher::Poseidon;
pub use block_api::{PoseidonCore, StateError};
pub use compress::compress;
