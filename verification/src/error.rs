//! The error taxonomy of the proof system. Every error is fatal for the
//! enclosing proof: there is no retry and no partial success.

use vstd::prelude::*;

verus! {

/// Failures raised while producing or checking a proof.
#[derive(Debug, Clone, Copy, PartialEq, Eq, Structural)]
pub enum FriError {
    /// The prover failed to commit a layer's evaluations to a Merkle tree.
    MerkleConstructionError { layer: usize },
    /// The verifier rejected a Merkle authentication path.
    InvalidMerkleProof,
    /// The verifier's recomputed folded value disagrees with the claimed
    /// child evaluation at the given layer.
    InconsistentFolding { layer: usize, expected: u64, got: u64 },
    /// The verifier's reconstruction of the composition polynomial at the
    /// out-of-domain point disagrees with the prover's claim.
    OutOfDomainMismatch,
    /// The verifier's reconstruction of the DEEP composition polynomial at
    /// the spot-check point disagrees with the committed evaluation.
    FinalSpotCheckMismatch,
}

} // verus!
