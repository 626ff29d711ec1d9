//! Field elements of secp256k1's scalar field, and polynomials over them.

pub mod field;
pub mod polynomial;

pub use field::FieldElement;
