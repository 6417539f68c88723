use stark_fri::arithmetization::Arithmetization;
use stark_fri::backend::interpolate_coset;
use stark_fri::composition::Composition;
use stark_fri::deep_composition::DeepComposition;
use stark_fri::error::FriError;
use stark_fri::felt::FIELD_MODULUS;
use stark_fri::trace::generate_fibonacci_trace;

const P: u64 = FIELD_MODULUS;

fn fib_pipeline(trace: &Vec<u64>) -> (Arithmetization, Composition, DeepComposition) {
    let arithmetization = Arithmetization::new(trace, 8).unwrap();
    let composition = Composition::new(&arithmetization, 5, 7);
    let deep = DeepComposition::new(&arithmetization, &composition, 10, &[11, 13, 15, 17]);
    (arithmetization, composition, deep)
}

#[test]
fn fibonacci_trace_values() {
    let trace = generate_fibonacci_trace(8);
    assert_eq!(trace, vec![1, 1, 2, 3, 5, 8, 13, 21]);
}

#[test]
fn honest_trace_passes_ood_and_spot_check() {
    let trace = generate_fibonacci_trace(8);
    let (arithmetization, composition, deep) = fib_pipeline(&trace);
    assert!(composition
        .perform_ood_check(&arithmetization, 5, 7, 10)
        .is_ok());
    assert!(deep
        .perform_final_spot_check(&arithmetization, &composition, 10, &[11, 13, 15, 17], 5)
        .is_ok());
}

#[test]
fn corrupted_trace_cell_is_caught() {
    let mut trace = generate_fibonacci_trace(8);
    trace[4] = (trace[4] + 1) % P;
    let (arithmetization, composition, deep) = fib_pipeline(&trace);
    let ood = composition.perform_ood_check(&arithmetization, 5, 7, 10);
    let spot =
        deep.perform_final_spot_check(&arithmetization, &composition, 10, &[11, 13, 15, 17], 5);
    assert!(ood.is_err() || spot.is_err());
}

#[test]
fn every_early_trace_corruption_is_caught() {
    for cell in 0..7 {
        let mut trace = generate_fibonacci_trace(8);
        trace[cell] = (trace[cell] + 1) % P;
        let (arithmetization, composition, deep) = fib_pipeline(&trace);
        let ood = composition.perform_ood_check(&arithmetization, 5, 7, 10);
        let spot = deep.perform_final_spot_check(
            &arithmetization,
            &composition,
            10,
            &[11, 13, 15, 17],
            5,
        );
        assert!(ood.is_err() || spot.is_err());
    }
}

#[test]
fn wrong_alpha_fails_ood_check() {
    let trace = generate_fibonacci_trace(8);
    let (arithmetization, composition, _) = fib_pipeline(&trace);
    assert_eq!(
        composition.perform_ood_check(&arithmetization, 6, 7, 10),
        Err(FriError::OutOfDomainMismatch)
    );
}

#[test]
fn wrong_beta_fails_spot_check() {
    let trace = generate_fibonacci_trace(8);
    let (arithmetization, composition, deep) = fib_pipeline(&trace);
    assert_eq!(
        deep.perform_final_spot_check(&arithmetization, &composition, 10, &[12, 13, 15, 17], 5),
        Err(FriError::FinalSpotCheckMismatch)
    );
}

fn degree_of(coeffs: &Vec<u64>) -> usize {
    let mut degree = 0;
    for (i, c) in coeffs.iter().enumerate() {
        if *c != 0 {
            degree = i;
        }
    }
    degree
}

#[test]
fn constraint_quotients_have_low_degree() {
    // For a correct trace of length 8 the boundary and transition
    // quotients are polynomials of degree at most 7: interpolating their
    // 64 coset evaluations leaves no higher-order coefficients.
    let trace = generate_fibonacci_trace(8);
    let arithmetization = Arithmetization::new(&trace, 8).unwrap();
    let b_poly = interpolate_coset(&arithmetization.boundary_constraint_poly_lde, 6, 3);
    let t_poly = interpolate_coset(&arithmetization.transition_constraint_poly_lde, 6, 3);
    assert!(degree_of(&b_poly) <= 7);
    assert!(degree_of(&t_poly) <= 7);
}

#[test]
fn trace_polynomial_interpolates_the_trace() {
    let trace = generate_fibonacci_trace(8);
    let arithmetization = Arithmetization::new(&trace, 8).unwrap();
    for i in 0..8 {
        let x = arithmetization.domain[i];
        let mut acc: u64 = 0;
        for c in arithmetization.trace_poly.iter().rev() {
            acc = (acc as u128 * x as u128 % P as u128) as u64;
            acc = (acc + c) % P;
        }
        assert_eq!(acc, trace[i]);
    }
}
