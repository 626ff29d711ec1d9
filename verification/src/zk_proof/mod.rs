//! Polynomials with small integer coefficients.

pub mod polynomial;
