//! The data of a quadratic arithmetic program.

use crate::circuits::IndexedMap;
use crate::r1cs::Witness;
use crate::utils::polynomial::Polynomial;
use vstd::prelude::*;

verus! {

/// A quadratic arithmetic program: one polynomial per variable for each of
/// the matrices `A`, `B`, `C`, with the witness and the variables they
/// refer to.
pub struct QAP {
    a_polynomials: Vec<Polynomial>,
    b_polynomials: Vec<Polynomial>,
    c_polynomials: Vec<Polynomial>,
    witness: Witness,
    variable_map: IndexedMap<String>,
}

} // verus!
