//! The ways in which loading or using a circuit can fail.

use vstd::prelude::*;

verus! {

/// An error about a circuit.
#[derive(Debug)]
pub enum CircuitError {
    InvalidOperation,
    OperandMismatch(usize, usize),
    NestedCircuitError(String),
    EvaluationError(String),
    FileReadError(String),
    SerializationError(String),
    DeserializationError(String),
}

} // verus!
