//! Three-party honest-majority computation with garbled circuits.
//!
//! Two garblers share a seed and garble identically; the evaluator checks
//! that what they send agrees. To save bandwidth the garblers take turns:
//! one sends a stretch of the garbled stream while the other only feeds the
//! same bytes into a keyed digest, and the digests are exchanged and
//! cross-checked at protocol checkpoints. The evaluator's private input is
//! additively secret-shared between the garblers, so no oblivious transfer
//! is needed.

use vstd::prelude::*;

pub mod garbler;
pub mod evaluator;

verus! {

/// A participant: two garblers and one evaluator.
#[derive(Debug, Clone, Copy, PartialEq, Eq, Structural)]
pub enum PartyId {
    Garbler1,
    Garbler2,
    Evaluator,
}

} // verus!
