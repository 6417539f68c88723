use stark_fri::field::{next_power_of_2, Polynomial, PrimeField};

#[test]
fn field_add_and_div_mod_seven() {
    let f = PrimeField::new(7);
    assert_eq!(f.add(5, 3), 1);
    assert_eq!(f.div(3, 4), 6);
    assert_eq!(f.sub(2, 5), 4);
    assert_eq!(f.mul(4, 5), 6);
    assert_eq!(f.neg(3), 4);
    assert_eq!(f.inv(3), 5);
}

#[test]
fn field_ops_stay_in_range() {
    let f = PrimeField::new((1u64 << 31) - 1);
    let a = 1_234_567_890;
    let b = 2_000_000_000;
    assert!(f.add(a, b) < f.p);
    assert!(f.mul(a, b) < f.p);
    assert_eq!(f.add(a, b), f.add(b, a));
    assert_eq!(f.mul(a, b), f.mul(b, a));
    assert_eq!(f.add(f.add(a, b), 17), f.add(a, f.add(b, 17)));
    assert_eq!(f.mul(f.mul(a, b), 17), f.mul(a, f.mul(b, 17)));
}

#[test]
fn primality_tests() {
    assert!(!PrimeField::is_prime(0));
    assert!(!PrimeField::is_prime(1));
    assert!(PrimeField::is_prime(2));
    assert!(PrimeField::is_prime(3));
    assert!(!PrimeField::is_prime(4));
    assert!(PrimeField::is_prime(5));
    assert!(!PrimeField::is_prime(25));
    assert!(!PrimeField::is_prime(49));
    assert!(PrimeField::is_prime(97));
    assert!(PrimeField::is_prime((1 << 31) - 1));
    assert!(PrimeField::is_prime(2013265921));
    assert!(!PrimeField::is_prime(2013265923));
}

#[test]
fn mod_pow_values() {
    assert_eq!(PrimeField::mod_pow(2, 10, 1_000_000_007), 1024);
    assert_eq!(PrimeField::mod_pow(3, 0, 7), 1);
    assert_eq!(PrimeField::mod_pow(10, 9, 7), 10u64.pow(9) % 7);
    // Fermat: a^(p-1) == 1 mod p for prime p and a not divisible by p.
    assert_eq!(PrimeField::mod_pow(5, 6, 7), 1);
    assert_eq!(PrimeField::mod_pow(2, 2013265920, 2013265921), 1);
}

#[test]
fn polynomial_evaluation() {
    let f = PrimeField::new(7);
    let poly = Polynomial::new(vec![1, 0, 1], f);
    assert_eq!(poly.evaluate(0), 1);
    assert_eq!(poly.evaluate(2), 5);
    let f = PrimeField::new(7);
    let reduced = Polynomial::new(vec![8, 9], f);
    assert_eq!(reduced.evaluate(1), 3);
}

#[test]
fn next_power_of_2_values() {
    assert_eq!(next_power_of_2(0), 1);
    assert_eq!(next_power_of_2(1), 1);
    assert_eq!(next_power_of_2(2), 2);
    assert_eq!(next_power_of_2(3), 4);
    assert_eq!(next_power_of_2(5), 8);
    assert_eq!(next_power_of_2(1000), 1024);
    assert_eq!(next_power_of_2(1024), 1024);
}
