//! Secure multi-party computation with garbled arithmetic circuits.
//!
//! A circuit's wires carry cryptographic labels instead of cleartext: for a
//! wire of modulus q, the label of value v is `zero + v * delta`, where the
//! per-modulus offset delta is the garbling party's secret. Linear gates
//! (add, subtract, scalar multiply, constant) are free; multiply and
//! projection gates cost a table of hashed rows indexed by label colors;
//! output gates cost a decoding table.
//!
//! On top of the engine stand two input protocols: a two-party semi-honest
//! one whose evaluator fetches its inputs bit by bit through oblivious
//! transfer, and a three-party honest-majority one in which two garblers
//! garble identically from a shared seed, the evaluator checks them against
//! each other through commitments and keyed digests, and the evaluator's
//! inputs travel as additive shares.
//!
//! Channels are in-memory byte streams; a transport outside the library
//! moves the written bytes to the peer.

pub mod bytes;
pub mod crypto;
pub mod wire;
pub mod algebra;
pub mod channel;
pub mod track_channel;
pub mod hash_channel;
pub mod rng;
pub mod errors;
pub mod garble;
pub mod classic;
pub mod laws;
pub mod dummy;
pub mod universal_digest;
pub mod threepac;
pub mod twopac;
