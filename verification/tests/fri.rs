use stark_fri::error::FriError;
use stark_fri::felt::FIELD_MODULUS;
use stark_fri::fri_verifier::Verifier;
use stark_fri::prover::Prover;
use stark_fri::types::FriParameters;

const P: u64 = FIELD_MODULUS;

/// P(x) = x^3 - 3x + 2, coefficients in ascending powers.
fn cubic_poly() -> Vec<u64> {
    vec![2, P - 3, 0, 1]
}

fn prove_cubic(blowup: usize, num_queries: usize) -> (FriParameters, stark_fri::types::FriProof) {
    let params = FriParameters::new(3, blowup, num_queries);
    let mut prover = Prover::new(cubic_poly(), params.clone());
    let proof = prover.prove().unwrap();
    (params, proof)
}

#[test]
fn cubic_proof_verifies() {
    let (params, proof) = prove_cubic(8, 2);
    // Folding continues until a single evaluation remains: domain size 32
    // gives 5 folds, hence 6 layer commitments.
    assert_eq!(proof.layer_commitments.len(), 6);
    assert_eq!(proof.query_decommitments.len(), 2);
    let mut verifier = Verifier::new(params);
    assert!(verifier.verify(&proof).is_ok());
}

#[test]
fn cubic_proof_verifies_small_blowup() {
    let (params, proof) = prove_cubic(4, 1);
    assert_eq!(proof.layer_commitments.len(), 5);
    let mut verifier = Verifier::new(params);
    assert!(verifier.verify(&proof).is_ok());
}

#[test]
fn constant_polynomial_last_layer_is_the_constant() {
    // Folding a constant polynomial reproduces the constant: the even part
    // is the constant, the odd part vanishes, at every layer.
    let params = FriParameters::new(0, 4, 1);
    let mut prover = Prover::new(vec![7], params.clone());
    let proof = prover.prove().unwrap();
    assert_eq!(proof.last_layer_value, 7);
    let mut verifier = Verifier::new(params);
    assert!(verifier.verify(&proof).is_ok());
}

#[test]
fn proofs_are_deterministic() {
    let (_, proof1) = prove_cubic(8, 2);
    let (_, proof2) = prove_cubic(8, 2);
    assert_eq!(proof1.layer_commitments, proof2.layer_commitments);
    assert_eq!(proof1.last_layer_value, proof2.last_layer_value);
    assert_eq!(proof1.query_decommitments.len(), proof2.query_decommitments.len());
    for (d1, d2) in proof1
        .query_decommitments
        .iter()
        .zip(proof2.query_decommitments.iter())
    {
        assert_eq!(d1.layer_evaluations, d2.layer_evaluations);
        assert_eq!(d1.layer_evaluations_sym, d2.layer_evaluations_sym);
        assert_eq!(d1.layer_auth_paths, d2.layer_auth_paths);
        assert_eq!(d1.layer_auth_paths_sym, d2.layer_auth_paths_sym);
    }
}

#[test]
fn flipped_commitment_bit_is_rejected() {
    let (params, mut proof) = prove_cubic(8, 2);
    proof.layer_commitments[1][0] ^= 1;
    let mut verifier = Verifier::new(params);
    assert_eq!(verifier.verify(&proof), Err(FriError::InvalidMerkleProof));
}

#[test]
fn flipped_first_commitment_byte_is_rejected() {
    let (params, mut proof) = prove_cubic(8, 2);
    proof.layer_commitments[0][31] = proof.layer_commitments[0][31].wrapping_add(1);
    let mut verifier = Verifier::new(params);
    assert_eq!(verifier.verify(&proof), Err(FriError::InvalidMerkleProof));
}

#[test]
fn tampered_query_evaluation_is_rejected() {
    let (params, mut proof) = prove_cubic(8, 2);
    let old = proof.query_decommitments[0].layer_evaluations[1];
    proof.query_decommitments[0].layer_evaluations[1] = (old + 1) % P;
    let mut verifier = Verifier::new(params);
    let result = verifier.verify(&proof);
    assert!(matches!(
        result,
        Err(FriError::InvalidMerkleProof) | Err(FriError::InconsistentFolding { .. })
    ));
}

#[test]
fn tampered_symmetric_evaluation_is_rejected() {
    let (params, mut proof) = prove_cubic(8, 2);
    let old = proof.query_decommitments[1].layer_evaluations_sym[2];
    proof.query_decommitments[1].layer_evaluations_sym[2] = (old + 5) % P;
    let mut verifier = Verifier::new(params);
    let result = verifier.verify(&proof);
    assert!(matches!(
        result,
        Err(FriError::InvalidMerkleProof) | Err(FriError::InconsistentFolding { .. })
    ));
}

#[test]
fn tampered_last_layer_value_is_rejected() {
    let (params, mut proof) = prove_cubic(8, 2);
    proof.last_layer_value = (proof.last_layer_value + 1) % P;
    let mut verifier = Verifier::new(params);
    assert!(verifier.verify(&proof).is_err());
}

#[test]
fn domain_second_half_is_negated_first_half() {
    let params = FriParameters::new(3, 8, 2);
    let n = params.domain.len();
    assert_eq!(n, 32);
    for i in 0..n / 2 {
        assert_eq!(params.domain[i + n / 2], (P - params.domain[i]) % P);
    }
}

#[test]
fn folding_kernel_halves_and_matches_polynomial_split() {
    // Fold evaluations of f(x) = 2 + 3x + 5x^2 + 7x^3 over the size-4
    // subgroup; the result must equal the evaluations of
    // (2 + 5y) + beta * (3 + 7y) at y = x^2.
    let params = FriParameters::new(0, 4, 1);
    let domain = params.domain.clone();
    let coeffs: Vec<u64> = vec![2, 3, 5, 7];
    let evals: Vec<u64> = domain
        .iter()
        .map(|x| {
            let mut acc: u64 = 0;
            for c in coeffs.iter().rev() {
                acc = (acc as u128 * *x as u128 % P as u128) as u64;
                acc = (acc + c) % P;
            }
            acc
        })
        .collect();
    let beta = 11u64;
    let (folded, next_domain) = Prover::fold_evaluations(&evals, &domain, beta);
    assert_eq!(folded.len(), 2);
    assert_eq!(next_domain.len(), 2);
    for i in 0..2 {
        let y = next_domain[i];
        assert_eq!(y, (domain[i] as u128 * domain[i] as u128 % P as u128) as u64);
        let even = (2 + 5 * y as u128 % P as u128) % P as u128;
        let odd = (3 + 7 * y as u128 % P as u128) % P as u128;
        let expected = (even + beta as u128 * odd) % P as u128;
        assert_eq!(folded[i] as u128, expected);
    }
}
