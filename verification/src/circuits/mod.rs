//! Arithmetic circuits and the bookkeeping used to index their variables.

pub mod circuit;
pub mod errors;
pub mod hashing;
pub mod indexed_map;
pub mod r1cs;

pub use circuit::{Circuit, Operand, Operation};
pub use errors::CircuitError;
pub use indexed_map::IndexedMap;
