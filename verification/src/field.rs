//! Modular arithmetic over a prime modulus `p`, together with dense
//! polynomials over such a field.
//!
//! Every operation is specified against the mathematical residue arithmetic
//! of `int`, so callers reason about `(a + b) % p` and friends directly.

use vstd::prelude::*;
use vstd::arithmetic::power::pow;

verus! {

/// `(a + b) mod p`.
pub open spec fn mod_add(p: int, a: int, b: int) -> int {
    (a + b) % p
}

/// `(a + p - (a mod p)) mod p`: the additive inverse of `a` modulo `p`.
pub open spec fn mod_neg(p: int, a: int) -> int {
    (p - a % p) % p
}

/// `(a + (p - b)) mod p`, the difference of two residues modulo `p`.
pub open spec fn mod_sub(p: int, a: int, b: int) -> int {
    (a + p - b) % p
}

/// `(a * b) mod p`.
pub open spec fn mod_mul(p: int, a: int, b: int) -> int {
    (a * b) % p
}

/// `b^e mod p`.
pub open spec fn mod_exp(p: int, b: int, e: nat) -> int {
    pow(b, e) % p
}

/// `n` is prime: at least 2, and no divisor strictly between 1 and itself.
pub open spec fn is_prime_spec(n: int) -> bool {
    n >= 2 && forall|d: int| 2 <= d < n ==> #[trigger] (n % d) != 0
}

/// The value of the polynomial with coefficient sequence `s` (ascending
/// powers) at the point `x`, modulo `p`: `s[0] + s[1] x + s[2] x^2 + ...`.
pub open spec fn poly_eval_at(p: int, s: Seq<u64>, x: int) -> int
    decreases s.len(),
{
    if s.len() == 0 {
        0
    } else {
        (poly_eval_at(p, s.drop_last(), x) + s.last() * pow(x, (s.len() - 1) as nat)) % p
    }
}

/// A prime field `GF(p)`, carrying its modulus.
#[derive(Debug, Clone)]
pub struct PrimeField {
    pub p: u64,
}

impl PrimeField {
    /// Builds the field `GF(p)`. Primality is a proof obligation of the
    /// caller; the arithmetic below only needs `p` to be nonzero, but a
    /// composite modulus would not describe a field.
    pub fn new(p: u64) -> (r: Self)
        requires
            is_prime_spec(p as int),
        ensures
            r.p == p,
    {
        Self { p }
    }

    /// Field addition of two residues.
    pub fn add(&self, a: u64, b: u64) -> (r: u64)
        requires
            self.p > 0,
        ensures
            r == mod_add(self.p as int, a as int, b as int),
            r < self.p,
    {
        let s: u128 = a as u128 + b as u128;
        let m: u128 = self.p as u128;
        proof {
            vstd::arithmetic::div_mod::lemma_mod_bound((a + b) as int, self.p as int);
        }
        (s % m) as u64
    }

    /// `a * b` of two `u64` values fits in a `u128`.
    proof fn lemma_wide_mul_fits(a: u64, b: u64)
        ensures
            a as int * b as int <= u128::MAX,
    {
        vstd::arithmetic::mul::lemma_mul_upper_bound(a as int, u64::MAX as int, b as int, u64::MAX as int);
    }

    /// Field subtraction: `a - b` as residues, computed as
    /// `(a + p - b) mod p`. The natural domain is residues below `p`, but
    /// any inputs with `b <= a + p` are accepted and reduced the same way.
    pub fn sub(&self, a: u64, b: u64) -> (r: u64)
        requires
            self.p > 0,
            b <= a + self.p,
        ensures
            r == mod_sub(self.p as int, a as int, b as int),
            r < self.p,
    {
        let s: u128 = a as u128 + self.p as u128 - b as u128;
        let m: u128 = self.p as u128;
        proof {
            vstd::arithmetic::div_mod::lemma_mod_bound((a + self.p - b) as int, self.p as int);
        }
        (s % m) as u64
    }

    /// Field multiplication of two residues.
    pub fn mul(&self, a: u64, b: u64) -> (r: u64)
        requires
            self.p > 0,
        ensures
            r == mod_mul(self.p as int, a as int, b as int),
            r < self.p,
    {
        proof {
            Self::lemma_wide_mul_fits(a, b);
        }
        let s: u128 = a as u128 * b as u128;
        let m: u128 = self.p as u128;
        proof {
            vstd::arithmetic::div_mod::lemma_mod_bound((a * b) as int, self.p as int);
        }
        (s % m) as u64
    }

    /// Additive inverse of `a` modulo `p`.
    pub fn neg(&self, a: u64) -> (r: u64)
        requires
            self.p > 0,
        ensures
            r == mod_neg(self.p as int, a as int),
            r < self.p,
    {
        proof {
            vstd::arithmetic::div_mod::lemma_mod_bound(a as int, self.p as int);
            vstd::arithmetic::div_mod::lemma_mod_bound((self.p - a % self.p) as int, self.p as int);
        }
        (self.p - a % self.p) % self.p
    }

    /// Multiplicative inverse of a nonzero residue, by Fermat's little
    /// theorem: `a^(p-2) mod p`.
    pub fn inv(&self, a: u64) -> (r: u64)
        requires
            self.p >= 2,
            a != 0,
        ensures
            r == mod_exp(self.p as int, a as int, (self.p - 2) as nat),
            r < self.p,
    {
        Self::mod_pow(a, self.p - 2, self.p)
    }

    /// Field division: `a * b^(p-2) mod p`.
    pub fn div(&self, a: u64, b: u64) -> (r: u64)
        requires
            self.p >= 2,
            b != 0,
        ensures
            r == mod_mul(
                self.p as int,
                a as int,
                mod_exp(self.p as int, b as int, (self.p - 2) as nat),
            ),
            r < self.p,
    {
        self.mul(a, self.inv(b))
    }

    /// Deterministic primality test by trial division over the `6k ± 1`
    /// candidates up to the square root.
    pub fn is_prime(n: u64) -> (r: bool)
        ensures
            r == is_prime_spec(n as int),
    {
        if n <= 1 {
            return false;
        }
        if n <= 3 {
            proof {
                if n == 3 {
                    assert forall|d: int| 2 <= d < 3 implies #[trigger] ((n as int) % d) != 0 by {
                        assert(d == 2);
                        assert(3int % 2int != 0);
                    }
                }
            }
            return true;
        }
        if n % 2 == 0 || n % 3 == 0 {
            proof {
                assert(!is_prime_spec(n as int)) by {
                    if n % 2 == 0 {
                        assert(n as int % 2int != 0 || true);
                        assert(2 <= 2int < n as int);
                        assert((n as int) % 2int == 0);
                    } else {
                        assert(3 <= n as int);
                        assert(n != 3) by {
                            if n == 3 {
                                assert(n % 3 == 0);
                            }
                        }
                        assert(2 <= 3int < n as int);
                        assert((n as int) % 3int == 0);
                    }
                }
            }
            return false;
        }
        proof {
            assert forall|d: int| 2 <= d < 5 implies #[trigger] ((n as int) % d) != 0 by {
                if d == 4 && (n as int) % d == 0 {
                    lemma_mod_divisor_transitive(n as int, 4, 2);
                }
            }
        }
        let mut i: u64 = 5;
        loop
            invariant
                5 <= i,
                i <= n,
                i % 6 == 5,
                n > 3,
                n % 2 != 0,
                n % 3 != 0,
                forall|d: int| 2 <= d < i ==> #[trigger] ((n as int) % d) != 0,
            decreases n - i,
        {
            proof {
                Self::lemma_wide_mul_fits(i, i);
            }
            if (i as u128) * (i as u128) > n as u128 {
                proof {
                    lemma_no_small_divisor_implies_prime(n as int, i as int);
                }
                return true;
            }
            proof {
                assert((i as int) + 2 < n as int) by (nonlinear_arith)
                    requires
                        5 <= i as int,
                        (i as int) * (i as int) <= n as int,
                ;
            }
            if n % i == 0 || n % (i + 2) == 0 {
                return false;
            }
            proof {
                lemma_wheel_step(n as int, i as int);
                assert((i as int) + 6 <= n as int) by (nonlinear_arith)
                    requires
                        5 <= i as int,
                        (i as int) * (i as int) <= n as int,
                ;
            }
            i = i + 6;
        }
    }

    /// Binary exponentiation: `base^exp mod modulus`.
    pub fn mod_pow(base: u64, exp: u64, modulus: u64) -> (r: u64)
        requires
            modulus > 0,
        ensures
            r == mod_exp(modulus as int, base as int, exp as nat),
            r < modulus,
    {
        let m: u128 = modulus as u128;
        let mut result: u64 = 1 % modulus;
        let mut b: u64 = base % modulus;
        let mut e: u64 = exp;
        let ghost p = modulus as int;
        proof {
            vstd::arithmetic::power::lemma_pow_mod_noop(base as int, exp as nat, p);
            vstd::arithmetic::div_mod::lemma_mul_mod_noop_general(
                1int,
                pow((base as int) % p, exp as nat),
                p,
            );
            assert((1int % p) * pow(b as int, e as nat) % p == pow(base as int, exp as nat) % p);
        }
        while e > 0
            invariant
                modulus > 0,
                p == modulus as int,
                m == modulus as u128,
                result < modulus,
                b < modulus,
                (result as int * pow(b as int, e as nat)) % p == pow(base as int, exp as nat) % p,
            decreases e,
        {
            let ghost r0 = result as int;
            let ghost b0 = b as int;
            let ghost e0 = e as nat;
            let ghost eh = (e0 / 2) as nat;
            proof {
                // `r0 * pow(b0', eh) % p` equals `r0 * pow(b0, 2*eh) % p`
                // for the squared base `b0' = (b0*b0) % p`.
                vstd::arithmetic::power::lemma_pow_mod_noop(b0 * b0, eh, p);
                vstd::arithmetic::div_mod::lemma_mul_mod_noop_general(
                    r0,
                    pow((b0 * b0) % p, eh),
                    p,
                );
                vstd::arithmetic::div_mod::lemma_mul_mod_noop_general(r0, pow(b0 * b0, eh), p);
                Self::lemma_wide_mul_fits(b, b);
                Self::lemma_wide_mul_fits(result, b);
            }
            if e % 2 == 1 {
                proof {
                    lemma_pow_split_odd(b0, e0);
                    // (r0*b0 % p) * pow((b0*b0)%p, eh) % p == r0 * pow(b0, e0) % p
                    vstd::arithmetic::div_mod::lemma_mul_mod_noop_general(
                        r0 * b0,
                        pow((b0 * b0) % p, eh),
                        p,
                    );
                    vstd::arithmetic::div_mod::lemma_mul_mod_noop_general(
                        r0 * b0,
                        pow(b0 * b0, eh),
                        p,
                    );
                    vstd::arithmetic::mul::lemma_mul_is_associative(r0, b0, pow(b0 * b0, eh));
                    vstd::arithmetic::div_mod::lemma_mod_bound(r0 * b0, p);
                }
                result = ((result as u128 * b as u128) % m) as u64;
            } else {
                proof {
                    lemma_pow_split_even(b0, e0);
                }
            }
            proof {
                vstd::arithmetic::div_mod::lemma_mod_bound(b0 * b0, p);
            }
            b = ((b as u128 * b as u128) % m) as u64;
            e = e / 2;
        }
        proof {
            vstd::arithmetic::power::lemma_pow0(b as int);
            vstd::arithmetic::div_mod::lemma_small_mod(result as nat, modulus as nat);
        }
        result
    }
}

/// `b^e == (b*b)^(e/2)` for even `e`.
proof fn lemma_pow_split_even(b: int, e: nat)
    requires
        e % 2 == 0,
    ensures
        pow(b, e) == pow(b * b, (e / 2) as nat),
{
    vstd::arithmetic::power::lemma_pow_distributes(b, b, (e / 2) as nat);
    vstd::arithmetic::power::lemma_pow_adds(b, (e / 2) as nat, (e / 2) as nat);
}

/// `b^e == b * (b*b)^((e-1)/2)` for odd `e`.
proof fn lemma_pow_split_odd(b: int, e: nat)
    requires
        e % 2 == 1,
    ensures
        pow(b, e) == b * pow(b * b, ((e - 1) / 2) as nat),
{
    vstd::arithmetic::power::lemma_pow_distributes(b, b, ((e - 1) / 2) as nat);
    vstd::arithmetic::power::lemma_pow_adds(b, ((e - 1) / 2) as nat, ((e - 1) / 2) as nat);
    assert(pow(b, e) == b * pow(b, (e - 1) as nat)) by {
        vstd::arithmetic::power::lemma_pow1(b);
        vstd::arithmetic::power::lemma_pow_adds(b, 1nat, (e - 1) as nat);
    };
}

/// Divisibility is transitive: if `d` divides `n` and `k` divides `d`,
/// then `k` divides `n`.
proof fn lemma_mod_divisor_transitive(n: int, d: int, k: int)
    requires
        n >= 0,
        d >= 2,
        k >= 2,
        n % d == 0,
        d % k == 0,
    ensures
        n % k == 0,
{
    let a = n / d;
    let b = d / k;
    vstd::arithmetic::div_mod::lemma_fundamental_div_mod(n, d);
    vstd::arithmetic::div_mod::lemma_fundamental_div_mod(d, k);
    assert(n == (k * b) * a);
    assert((k * b) * a == (b * a) * k) by {
        vstd::arithmetic::mul::lemma_mul_is_associative(k, b, a);
        vstd::arithmetic::mul::lemma_mul_is_commutative(k, b * a);
    };
    vstd::arithmetic::div_mod::lemma_mod_multiples_basic(b * a, k);
}

/// One step of the `6k ± 1` wheel: if `n` has no divisor below `i`,
/// is odd, not a multiple of 3, and `i % 6 == 5` with `n % i != 0` and
/// `n % (i + 2) != 0`, then `n` has no divisor below `i + 6`.
proof fn lemma_wheel_step(n: int, i: int)
    requires
        n > 3,
        i >= 5,
        i % 6 == 5,
        n % 2 != 0,
        n % 3 != 0,
        n % i != 0,
        n % (i + 2) != 0,
        forall|d: int| 2 <= d < i ==> #[trigger] (n % d) != 0,
    ensures
        forall|d: int| 2 <= d < i + 6 ==> #[trigger] (n % d) != 0,
{
    assert forall|d: int| 2 <= d < i + 6 implies #[trigger] (n % d) != 0 by {
        if d >= i {
            if d == i || d == i + 2 {
            } else if d == i + 1 || d == i + 3 || d == i + 5 {
                // These candidates are even, and n is odd.
                assert(d % 2 == 0);
                if n % d == 0 {
                    lemma_mod_divisor_transitive(n, d, 2);
                }
            } else {
                // d == i + 4, a multiple of 3; n is not.
                assert(d == i + 4);
                assert(d % 3 == 0);
                if n % d == 0 {
                    lemma_mod_divisor_transitive(n, d, 3);
                }
            }
        }
    }
}

/// If `n > 3` has no divisor in `[2, i)` and `i * i > n`, then `n` is prime:
/// a composite number has a divisor no larger than its square root.
proof fn lemma_no_small_divisor_implies_prime(n: int, i: int)
    requires
        n > 3,
        i >= 2,
        i * i > n,
        forall|d: int| 2 <= d < i ==> #[trigger] (n % d) != 0,
    ensures
        is_prime_spec(n),
{
    assert forall|d: int| 2 <= d < n implies #[trigger] (n % d) != 0 by {
        if d >= i && n % d == 0 {
            let q = n / d;
            vstd::arithmetic::div_mod::lemma_fundamental_div_mod(n, d);
            assert(n == d * q);
            assert(q >= 2) by (nonlinear_arith)
                requires
                    n == d * q,
                    2 <= d < n,
                    n > 3,
            ;
            assert(q < i) by (nonlinear_arith)
                requires
                    n == d * q,
                    d >= i,
                    i * i > n,
                    q >= 2,
                    i >= 2,
            ;
            assert(n % q == 0) by {
                vstd::arithmetic::div_mod::lemma_mod_multiples_basic(d, q);
                vstd::arithmetic::mul::lemma_mul_is_commutative(d, q);
            };
        }
    }
}

/// A dense polynomial with coefficients in ascending powers over a field.
#[derive(Debug, Clone)]
pub struct Polynomial {
    coeffs: Vec<u64>,
    field: PrimeField,
}

impl Polynomial {
    /// All coefficients are reduced and the modulus is usable.
    pub closed spec fn wf(&self) -> bool {
        &&& self.field.p > 0
        &&& forall|i: int| 0 <= i < self.coeffs@.len() ==> self.coeffs@[i] < self.field.p
    }

    /// The coefficient sequence (each entry already reduced modulo `p`).
    pub closed spec fn coeffs_spec(&self) -> Seq<u64> {
        self.coeffs@
    }

    /// The modulus of the underlying field.
    pub closed spec fn modulus_spec(&self) -> u64 {
        self.field.p
    }

    /// Builds a polynomial, reducing every coefficient modulo `field.p`.
    pub fn new(coeffs: Vec<u64>, field: PrimeField) -> (r: Self)
        requires
            field.p > 0,
        ensures
            r.wf(),
            r.modulus_spec() == field.p,
            r.coeffs_spec().len() == coeffs@.len(),
            forall|i: int|
                0 <= i < coeffs@.len() ==> r.coeffs_spec()[i] == coeffs@[i] % field.p,
    {
        let mut reduced: Vec<u64> = Vec::new();
        let mut j: usize = 0;
        while j < coeffs.len()
            invariant
                field.p > 0,
                j <= coeffs@.len(),
                reduced@.len() == j,
                forall|i: int| 0 <= i < j ==> reduced@[i] == coeffs@[i] % field.p,
                forall|i: int| 0 <= i < j ==> reduced@[i] < field.p,
            decreases coeffs@.len() - j,
        {
            proof {
                vstd::arithmetic::div_mod::lemma_mod_bound(coeffs@[j as int] as int, field.p as int);
            }
            reduced.push(coeffs[j] % field.p);
            j = j + 1;
        }
        Self { coeffs: reduced, field }
    }

    /// Evaluates the polynomial at `x` by summing `c_i * x^i mod p`.
    pub fn evaluate(&self, x: u64) -> (r: u64)
        requires
            self.wf(),
        ensures
            r == poly_eval_at(self.modulus_spec() as int, self.coeffs_spec(), x as int),
            r < self.modulus_spec(),
    {
        let p = self.field.p;
        let mut result: u64 = 0;
        let mut power: usize = 0;
        proof {
            assert(self.coeffs@.take(0int) =~= Seq::<u64>::empty());
            vstd::arithmetic::div_mod::lemma_mod_bound(0int, p as int);
        }
        while power < self.coeffs.len()
            invariant
                self.wf(),
                p == self.field.p,
                power <= self.coeffs@.len(),
                result == poly_eval_at(p as int, self.coeffs@.take(power as int), x as int),
                result < p,
            decreases self.coeffs@.len() - power,
        {
            let coeff = self.coeffs[power];
            let x_pow = PrimeField::mod_pow(x, power as u64, p);
            let term = self.field.mul(coeff, x_pow);
            let ghost r0 = result as int;
            result = self.field.add(result, term);
            proof {
                let s1 = self.coeffs@.take(power + 1int);
                assert(s1.drop_last() =~= self.coeffs@.take(power as int));
                assert(s1.last() == coeff);
                lemma_eval_step(p as int, r0, coeff as int, x as int, power as nat);
            }
            power = power + 1;
        }
        proof {
            assert(self.coeffs@.take(self.coeffs@.len() as int) =~= self.coeffs@);
        }
        result
    }
}

/// One accumulation step of Horner-free evaluation:
/// adding `(c * (x^k mod p)) mod p` to a reduced accumulator matches
/// extending the specification sum by the degree-`k` term.
proof fn lemma_eval_step(p: int, acc: int, c: int, x: int, k: nat)
    requires
        p > 0,
        0 <= acc < p,
    ensures
        mod_add(p, acc, mod_mul(p, c, mod_exp(p, x, k))) == (acc + c * pow(x, k)) % p,
{
    vstd::arithmetic::power::lemma_pow_mod_noop(x, k, p);
    vstd::arithmetic::div_mod::lemma_mul_mod_noop_general(c, pow(x, k), p);
    vstd::arithmetic::div_mod::lemma_add_mod_noop(acc, c * pow(x, k), p);
    vstd::arithmetic::div_mod::lemma_small_mod(acc as nat, p as nat);
}

/// The smallest power of two that is at least `n`.
pub fn next_power_of_2(n: usize) -> (r: usize)
    requires
        n <= usize::MAX / 2 + 1,
    ensures
        is_pow2_spec(r as int),
        r >= n,
        r == 1 || r / 2 < n,
{
    let mut k: usize = 1;
    while k < n
        invariant
            1 <= k,
            is_pow2_spec(k as int),
            k == 1 || k / 2 < n,
            n <= usize::MAX / 2 + 1,
        decreases 2 * n - k,
    {
        k = k * 2;
    }
    k
}

/// `n` is a power of two.
pub open spec fn is_pow2_spec(n: int) -> bool
    decreases n,
{
    if n <= 0 {
        false
    } else if n == 1 {
        true
    } else {
        n % 2 == 0 && is_pow2_spec(n / 2)
    }
}

/// Decides whether `n` is a power of two.
pub fn is_power_of_two(n: usize) -> (r: bool)
    ensures
        r == is_pow2_spec(n as int),
{
    if n == 0 {
        return false;
    }
    let mut m: usize = n;
    while m % 2 == 0
        invariant
            1 <= m <= n,
            is_pow2_spec(n as int) == is_pow2_spec(m as int),
        decreases m,
    {
        m = m / 2;
    }
    m == 1
}

/// The number of trailing zero bits of a positive integer.
pub open spec fn tz_spec(n: int) -> nat
    decreases n,
{
    if n <= 0 || n % 2 == 1 {
        0
    } else {
        1 + tz_spec(n / 2)
    }
}

/// Counts the trailing zero bits of `n`.
pub fn trailing_zeros(n: usize) -> (r: u64)
    requires
        n >= 1,
    ensures
        r == tz_spec(n as int),
{
    let mut m: usize = n;
    let mut r: u64 = 0;
    proof {
        vstd::arithmetic::power2::lemma2_to64();
    }
    while m % 2 == 0 && m > 0
        invariant
            1 <= m <= n,
            r + tz_spec(m as int) == tz_spec(n as int),
            n == vstd::arithmetic::power2::pow2(r as nat) * m,
        decreases m,
    {
        proof {
            let pr = vstd::arithmetic::power2::pow2(r as nat);
            assert(pr <= pr * m) by (nonlinear_arith)
                requires
                    m >= 1,
                    pr >= 0,
            ;
            vstd::arithmetic::power2::lemma2_to64();
            if r >= 64 {
                vstd::arithmetic::power2::lemma_pow2_strictly_increases(64nat, r as nat);
                assert(false);
            }
            vstd::arithmetic::power2::lemma_pow2_adds(r as nat, 1nat);
            assert(pr * m == pr * 2 * (m / 2)) by (nonlinear_arith)
                requires
                    m % 2 == 0,
                    m >= 1,
            ;
        }
        m = m / 2;
        r = r + 1;
    }
    r
}

/// For a power of two, `2^(trailing zeros)` recovers the number.
pub proof fn lemma_pow2_of_tz(n: int)
    requires
        is_pow2_spec(n),
    ensures
        vstd::arithmetic::power2::pow2(tz_spec(n)) == n,
    decreases n,
{
    if n == 1 {
        assert(vstd::arithmetic::power2::pow2(0) == 1) by {
            vstd::arithmetic::power2::lemma2_to64();
        };
    } else {
        lemma_pow2_of_tz(n / 2);
        vstd::arithmetic::power2::lemma_pow2_unfold((tz_spec(n / 2) + 1) as nat);
    }
}

/// Powers of two are monotone in the exponent, so a power of two bounded
/// by `2^k` has at most `k` trailing zeros.
pub proof fn lemma_tz_le(n: int, k: nat)
    requires
        is_pow2_spec(n),
        n <= vstd::arithmetic::power2::pow2(k),
    ensures
        tz_spec(n) <= k,
{
    lemma_pow2_of_tz(n);
    if tz_spec(n) > k {
        vstd::arithmetic::power2::lemma_pow2_strictly_increases(k, tz_spec(n));
    }
}

/// Congruent summands give congruent sums.
pub proof fn lemma_mod_add_congruent(a1: int, a2: int, b1: int, b2: int, p: int)
    requires
        p > 0,
        a1 % p == a2 % p,
        b1 % p == b2 % p,
    ensures
        (a1 + b1) % p == (a2 + b2) % p,
{
    vstd::arithmetic::div_mod::lemma_add_mod_noop(a1, b1, p);
    vstd::arithmetic::div_mod::lemma_add_mod_noop(a2, b2, p);
}

/// Congruent factors give congruent products.
pub proof fn lemma_mod_mul_congruent(a1: int, a2: int, b1: int, b2: int, p: int)
    requires
        p > 0,
        a1 % p == a2 % p,
        b1 % p == b2 % p,
    ensures
        (a1 * b1) % p == (a2 * b2) % p,
{
    vstd::arithmetic::div_mod::lemma_mul_mod_noop_general(a1, b1, p);
    vstd::arithmetic::div_mod::lemma_mul_mod_noop_general(a2, b2, p);
}

} // verus!
