//! Checks the stated contracts of the backend wrappers on concrete values:
//! each test fails if the wrapped call returned its input unchanged or a
//! wrong shape.

use stark_fri::backend::{
    batch_inverse, interpolate_coset, interpolate_subgroup, poly_eval_slice, powers_of_root,
    powers_of_root_coset, primitive_root_of_unity,
};
use stark_fri::felt::FIELD_MODULUS;

const P: u64 = FIELD_MODULUS;

fn mulp(a: u64, b: u64) -> u64 {
    (a as u128 * b as u128 % P as u128) as u64
}

fn powp(mut b: u64, mut e: u64) -> u64 {
    let mut acc: u64 = 1;
    while e > 0 {
        if e % 2 == 1 {
            acc = mulp(acc, b);
        }
        b = mulp(b, b);
        e /= 2;
    }
    acc
}

#[test]
fn primitive_root_has_exact_order() {
    for order in 1u64..=8 {
        let g = primitive_root_of_unity(order);
        assert_eq!(powp(g, 1 << order), 1);
        assert_eq!(powp(g, 1 << (order - 1)), P - 1);
    }
    assert_eq!(primitive_root_of_unity(0), 1);
}

#[test]
fn powers_of_root_are_consecutive_powers() {
    let g = primitive_root_of_unity(3);
    let powers = powers_of_root(3, 8);
    assert_eq!(powers.len(), 8);
    assert_eq!(powers[0], 1);
    for i in 0..8u64 {
        assert_eq!(powers[i as usize], powp(g, i));
    }
}

#[test]
fn coset_powers_are_offset_multiples() {
    let powers = powers_of_root(4, 16);
    let coset = powers_of_root_coset(4, 16, 3);
    assert_eq!(coset.len(), 16);
    for i in 0..16 {
        assert_eq!(coset[i], mulp(3, powers[i]));
    }
}

#[test]
fn poly_eval_slice_matches_direct_evaluation() {
    // P(x) = 2 - 3x + x^3 at small points.
    let coeffs: Vec<u64> = vec![2, P - 3, 0, 1];
    let xs: Vec<u64> = vec![0, 1, 2, 5];
    let r = poly_eval_slice(&coeffs, &xs);
    assert_eq!(r, vec![2, 0, 4, 112]);
}

#[test]
fn interpolate_subgroup_recovers_coefficients() {
    // Evaluate 1 + x on the size-4 subgroup, then interpolate back.
    let domain = powers_of_root(2, 4);
    let evals: Vec<u64> = domain.iter().map(|x| (1 + *x) % P).collect();
    let coeffs = interpolate_subgroup(&evals, 2);
    assert_eq!(coeffs, vec![1, 1]);
}

#[test]
fn interpolate_coset_recovers_coefficients() {
    // Evaluate 5 + 2x on the size-4 coset with offset 3.
    let coset = powers_of_root_coset(2, 4, 3);
    let evals: Vec<u64> = coset.iter().map(|x| (5 + mulp(2, *x)) % P).collect();
    let coeffs = interpolate_coset(&evals, 2, 3);
    assert_eq!(coeffs, vec![5, 2]);
}

#[test]
fn batch_inverse_inverts_every_entry() {
    let values: Vec<u64> = vec![1, 2, 3, 12345, P - 1];
    let inverses = batch_inverse(&values).unwrap();
    assert_eq!(inverses.len(), values.len());
    for (v, w) in values.iter().zip(inverses.iter()) {
        assert_eq!(mulp(*v, *w), 1);
    }
    assert_ne!(inverses[1], 2);
}

#[test]
fn batch_inverse_rejects_zero() {
    let values: Vec<u64> = vec![1, 0, 3];
    assert!(batch_inverse(&values).is_none());
}
