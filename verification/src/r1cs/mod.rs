//! Rank-1 constraint systems of circuits, and their witnesses.

pub mod completeness;
pub mod pipeline;
pub mod r1cs;
pub mod satisfaction;
pub mod witness;

pub use witness::Witness;
