//! Arithmetic circuits, their rank-1 constraint systems and witnesses, and
//! polynomials over the scalar field of secp256k1.

pub mod circuits;
pub mod r1cs;
pub mod utils;
pub mod zk_proof;
pub mod zk_proofs;
