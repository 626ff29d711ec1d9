//! Polynomials over the scalar field of secp256k1.

pub mod algebra;
pub mod polynomial;

pub use polynomial::Polynomial;
