//! A pedagogical STARK-style proof system: a FRI low-degree test built on
//! Merkle commitments and a Fiat-Shamir transcript, and an AIR pipeline that
//! arithmetizes a Fibonacci execution trace into constraint quotients, a
//! composition polynomial, an out-of-domain consistency check, and a DEEP
//! composition polynomial with a final spot check.
//!
//! - `field` holds generic modular arithmetic over a prime `p` and dense
//!   polynomials; `felt` fixes the Babybear prime used by the protocol and
//!   proves the power and root-of-unity algebra the proofs rest on.
//! - `backend` is the trusted boundary to the outside Merkle tree,
//!   transcript and FFT primitives.
//! - `types`, `prover` and `fri_verifier` are the FRI protocol itself:
//!   the prover's output is pinned to a specification model, the verifier
//!   returns exactly the modelled verdict, and the round-trip, last-layer,
//!   domain-symmetry, folding-identity and determinism laws are proved.
//! - `trace`, `arithmetization`, `composition` and `deep_composition` are
//!   the AIR pipeline from execution trace to final spot check.

pub mod field;
pub mod felt;
pub mod backend;
pub mod error;
pub mod types;
pub mod prover;
pub mod fri_verifier;
pub mod trace;
pub mod arithmetization;
pub mod composition;
pub mod deep_composition;
