//! Errors of the garbling engine.
//!
//! Protocol deviations are fatal: nothing here is retried, and every error
//! aborts the session that produced it.

use vstd::prelude::*;

verus! {

/// What can go wrong while garbling a circuit.
#[derive(Debug, Clone, Copy, PartialEq, Eq, Structural)]
pub enum GarblerError {
    /// The circuit is not well-formed: an index out of range, mismatched
    /// moduli, or a projection table of the wrong shape.
    InvalidCircuit,
}

/// What can go wrong while evaluating a garbled circuit.
#[derive(Debug, Clone, Copy, PartialEq, Eq, Structural)]
pub enum EvaluatorError {
    /// The circuit is not well-formed.
    InvalidCircuit,
    /// The garbled data ended before the circuit did.
    TruncatedData,
    /// An output label matched no row of its decoding table: the label was
    /// not produced by the garbling that made the table.
    DecodeFailed,
    /// The number of input labels does not match the circuit.
    WrongInputCount,
}

} // verus!
