//! Quadratic arithmetic programs.

pub mod qap;
