//! Arithmetic in the concrete prime field used by the proof system: the
//! FFT-friendly "Babybear" prime `p = 2^31 - 2^27 + 1`. Field elements are
//! canonical residues stored as `u64` values below `FIELD_MODULUS`.
//!
//! Beside the executable operations, this module proves the algebraic facts
//! about modular exponentiation and roots of unity on which the FRI folding
//! arguments rest: power laws, uniqueness of inverses, and that every power
//! of a `2^k`-th root of unity is a unit whose inverse is its `p - 2` power.

use vstd::prelude::*;
use vstd::arithmetic::power::pow;
use vstd::arithmetic::power2::pow2;

use crate::field::{mod_add, mod_exp, mod_mul, mod_sub, poly_eval_at, PrimeField};

verus! {

/// The Babybear prime, `2^31 - 2^27 + 1`. Its multiplicative group has order
/// `2^27 * 15`, so subgroups of size `2^k` exist for every `k <= 27`.
pub const FIELD_MODULUS: u64 = 2013265921;

/// `(a + b) mod p` for the fixed modulus.
pub open spec fn fe_add(a: int, b: int) -> int {
    mod_add(FIELD_MODULUS as int, a, b)
}

/// `(a + p - b) mod p` for the fixed modulus.
pub open spec fn fe_sub(a: int, b: int) -> int {
    mod_sub(FIELD_MODULUS as int, a, b)
}

/// `(a * b) mod p` for the fixed modulus.
pub open spec fn fe_mul(a: int, b: int) -> int {
    mod_mul(FIELD_MODULUS as int, a, b)
}

/// `b^e mod p` for the fixed modulus.
pub open spec fn fe_exp(b: int, e: nat) -> int {
    mod_exp(FIELD_MODULUS as int, b, e)
}

/// The `p - 2` power of `a`: for nonzero `a` this is the multiplicative
/// inverse, by Fermat's little theorem; for zero it is zero.
pub open spec fn fe_inv(a: int) -> int {
    fe_exp(a, (FIELD_MODULUS - 2) as nat)
}

/// Polynomial evaluation over the fixed modulus.
pub open spec fn fe_poly_eval(s: Seq<u64>, x: int) -> int {
    poly_eval_at(FIELD_MODULUS as int, s, x)
}

/// Every entry of the sequence is a canonical residue.
pub open spec fn fe_reduced(s: Seq<u64>) -> bool {
    forall|i: int| 0 <= i < s.len() ==> s[i] < FIELD_MODULUS
}

/// Field addition of two canonical residues.
pub fn add_fe(a: u64, b: u64) -> (r: u64)
    requires
        a < FIELD_MODULUS,
        b < FIELD_MODULUS,
    ensures
        r == fe_add(a as int, b as int),
        r < FIELD_MODULUS,
{
    proof {
        vstd::arithmetic::div_mod::lemma_mod_bound((a + b) as int, FIELD_MODULUS as int);
    }
    (a + b) % FIELD_MODULUS
}

/// Field subtraction of two canonical residues.
pub fn sub_fe(a: u64, b: u64) -> (r: u64)
    requires
        a < FIELD_MODULUS,
        b < FIELD_MODULUS,
    ensures
        r == fe_sub(a as int, b as int),
        r < FIELD_MODULUS,
{
    proof {
        vstd::arithmetic::div_mod::lemma_mod_bound((a + FIELD_MODULUS - b) as int, FIELD_MODULUS as int);
    }
    (a + FIELD_MODULUS - b) % FIELD_MODULUS
}

/// Field multiplication of two canonical residues. The product of two
/// values below `2^31` fits in a `u64`.
pub fn mul_fe(a: u64, b: u64) -> (r: u64)
    requires
        a < FIELD_MODULUS,
        b < FIELD_MODULUS,
    ensures
        r == fe_mul(a as int, b as int),
        r < FIELD_MODULUS,
{
    proof {
        assert((a as int) * (b as int) < 0x10000000000000000int) by (nonlinear_arith)
            requires
                (a as int) < 0x80000000int,
                (b as int) < 0x80000000int,
        ;
        vstd::arithmetic::div_mod::lemma_mod_bound((a as int) * (b as int), FIELD_MODULUS as int);
    }
    (a * b) % FIELD_MODULUS
}

/// Field exponentiation by squaring.
pub fn pow_fe(b: u64, e: u64) -> (r: u64)
    requires
        b < FIELD_MODULUS,
    ensures
        r == fe_exp(b as int, e as nat),
        r < FIELD_MODULUS,
{
    PrimeField::mod_pow(b, e, FIELD_MODULUS)
}

/// The `p - 2` power of a canonical residue: the inverse for nonzero input.
pub fn inv_fe(a: u64) -> (r: u64)
    requires
        a < FIELD_MODULUS,
    ensures
        r == fe_inv(a as int),
        r < FIELD_MODULUS,
{
    PrimeField::mod_pow(a, FIELD_MODULUS - 2, FIELD_MODULUS)
}

/// Evaluates the polynomial with coefficients `coeffs` at `x`, term by term.
pub fn eval_fe(coeffs: &Vec<u64>, x: u64) -> (r: u64)
    requires
        fe_reduced(coeffs@),
        x < FIELD_MODULUS,
    ensures
        r == fe_poly_eval(coeffs@, x as int),
        r < FIELD_MODULUS,
{
    let mut result: u64 = 0;
    let mut k: usize = 0;
    proof {
        assert(coeffs@.take(0int) =~= Seq::<u64>::empty());
    }
    while k < coeffs.len()
        invariant
            fe_reduced(coeffs@),
            x < FIELD_MODULUS,
            k <= coeffs@.len(),
            result == fe_poly_eval(coeffs@.take(k as int), x as int),
            result < FIELD_MODULUS,
        decreases coeffs@.len() - k,
    {
        let x_pow = pow_fe(x, k as u64);
        let term = mul_fe(coeffs[k], x_pow);
        let ghost r0 = result as int;
        result = add_fe(result, term);
        proof {
            let s1 = coeffs@.take(k + 1int);
            assert(s1.drop_last() =~= coeffs@.take(k as int));
            assert(s1.last() == coeffs@[k as int]);
            lemma_fe_eval_step(r0, coeffs@[k as int] as int, x as int, k as nat);
        }
        k = k + 1;
    }
    proof {
        assert(coeffs@.take(coeffs@.len() as int) =~= coeffs@);
    }
    result
}

proof fn lemma_fe_eval_step(acc: int, c: int, x: int, k: nat)
    requires
        0 <= acc < FIELD_MODULUS,
    ensures
        fe_add(acc, fe_mul(c, fe_exp(x, k))) == (acc + c * pow(x, k)) % (FIELD_MODULUS as int),
{
    let p = FIELD_MODULUS as int;
    vstd::arithmetic::power::lemma_pow_mod_noop(x, k, p);
    vstd::arithmetic::div_mod::lemma_mul_mod_noop_general(c, pow(x, k), p);
    vstd::arithmetic::div_mod::lemma_add_mod_noop(acc, c * pow(x, k), p);
    vstd::arithmetic::div_mod::lemma_small_mod(acc as nat, FIELD_MODULUS as nat);
}

/// Multiplication modulo `p` is associative.
pub proof fn lemma_fe_mul_assoc(a: int, b: int, c: int)
    ensures
        fe_mul(fe_mul(a, b), c) == fe_mul(a, fe_mul(b, c)),
{
    let p = FIELD_MODULUS as int;
    vstd::arithmetic::div_mod::lemma_mul_mod_noop_general(a * b, c, p);
    vstd::arithmetic::mul::lemma_mul_is_associative(a, b, c);
    vstd::arithmetic::div_mod::lemma_mul_mod_noop_general(a, b * c, p);
}

/// `b^(e1 + e2) == b^e1 * b^e2` modulo `p`.
pub proof fn lemma_fe_exp_adds(b: int, e1: nat, e2: nat)
    ensures
        fe_exp(b, e1 + e2) == fe_mul(fe_exp(b, e1), fe_exp(b, e2)),
{
    let p = FIELD_MODULUS as int;
    vstd::arithmetic::power::lemma_pow_adds(b, e1, e2);
    vstd::arithmetic::div_mod::lemma_mul_mod_noop_general(pow(b, e1), pow(b, e2), p);
}

/// `b^(e1 * e2) == (b^e1)^e2` modulo `p`.
pub proof fn lemma_fe_exp_multiplies(b: int, e1: nat, e2: nat)
    ensures
        fe_exp(b, e1 * e2) == fe_exp(fe_exp(b, e1), e2),
{
    let p = FIELD_MODULUS as int;
    vstd::arithmetic::power::lemma_pow_multiplies(b, e1, e2);
    vstd::arithmetic::power::lemma_pow_mod_noop(pow(b, e1), e2, p);
}

/// `(a * b)^e == a^e * b^e` modulo `p`.
pub proof fn lemma_fe_exp_distributes(a: int, b: int, e: nat)
    ensures
        fe_exp(fe_mul(a, b), e) == fe_mul(fe_exp(a, e), fe_exp(b, e)),
{
    let p = FIELD_MODULUS as int;
    vstd::arithmetic::power::lemma_pow_mod_noop(a * b, e, p);
    vstd::arithmetic::power::lemma_pow_distributes(a, b, e);
    vstd::arithmetic::div_mod::lemma_mul_mod_noop_general(pow(a, e), pow(b, e), p);
}

/// `1^e == 1` modulo `p`.
pub proof fn lemma_fe_exp_one_base(e: nat)
    ensures
        fe_exp(1, e) == 1,
    decreases e,
{
    if e == 0 {
        vstd::arithmetic::power::lemma_pow0(1);
    } else {
        lemma_fe_exp_one_base((e - 1) as nat);
        vstd::arithmetic::power::lemma_pow1(1);
        lemma_fe_exp_adds(1, 1nat, (e - 1) as nat);
        vstd::arithmetic::power::lemma_pow_mod_noop(1, e, FIELD_MODULUS as int);
    }
}

/// `b^1 == b mod p`.
pub proof fn lemma_fe_exp_one(b: int)
    ensures
        fe_exp(b, 1) == b % (FIELD_MODULUS as int),
{
    vstd::arithmetic::power::lemma_pow1(b);
}

/// A residue has at most one multiplicative inverse.
pub proof fn lemma_fe_inv_unique(a: int, w1: int, w2: int)
    requires
        0 <= w1 < FIELD_MODULUS,
        0 <= w2 < FIELD_MODULUS,
        fe_mul(a, w1) == 1,
        fe_mul(a, w2) == 1,
    ensures
        w1 == w2,
{
    let p = FIELD_MODULUS as int;
    // w1 == w1 * (a * w2) == (w1 * a) * w2 == (a * w1) * w2 == w2
    lemma_fe_mul_assoc(w1, a, w2);
    vstd::arithmetic::div_mod::lemma_mul_mod_noop_general(w1, a * w2, p);
    vstd::arithmetic::div_mod::lemma_small_mod(w1 as nat, FIELD_MODULUS as nat);
    vstd::arithmetic::div_mod::lemma_small_mod(w2 as nat, FIELD_MODULUS as nat);
    vstd::arithmetic::div_mod::lemma_mul_mod_noop_general(a * w1, w2, p);
    assert(fe_mul(w1, fe_mul(a, w2)) == fe_mul(fe_mul(a, w1), w2));
    assert(w1 * 1 == w1);
    assert(fe_mul(w1, 1) == w1);
    assert(1 * w2 == w2);
    assert(fe_mul(1, w2) == w2);
}

/// The multiplicative group order `p - 1` factors as `2^k * (2^(27-k) * 15)`
/// for every `k <= 27`.
proof fn lemma_fe_group_order_factor(k: nat)
    requires
        k <= 27,
    ensures
        pow2(k) * (pow2((27 - k) as nat) * 15) == FIELD_MODULUS - 1,
{
    vstd::arithmetic::power2::lemma_pow2_adds(k, (27 - k) as nat);
    vstd::arithmetic::power2::lemma2_to64();
    assert(pow2(k) * (pow2((27 - k) as nat) * 15) == (pow2(k) * pow2((27 - k) as nat)) * 15) by {
        vstd::arithmetic::mul::lemma_mul_is_associative(
            pow2(k) as int,
            pow2((27 - k) as nat) as int,
            15,
        );
    };
}

/// Any `2^k`-th root of unity `x` (for `k <= 27`) is a unit, and its
/// `p - 2` power is its inverse: `x * x^(p-2) == 1 mod p`.
pub proof fn lemma_fe_unit_root_inv(x: int, k: nat)
    requires
        0 <= x < FIELD_MODULUS,
        k <= 27,
        fe_exp(x, pow2(k)) == 1,
    ensures
        fe_mul(x, fe_inv(x)) == 1,
        x != 0,
{
    let p = FIELD_MODULUS as int;
    let c = pow2((27 - k) as nat) * 15;
    lemma_fe_group_order_factor(k);
    // x^(p-1) == (x^(2^k))^c == 1^c == 1
    lemma_fe_exp_multiplies(x, pow2(k), c as nat);
    lemma_fe_exp_one_base(c as nat);
    assert(fe_exp(x, (p - 1) as nat) == 1);
    // x * x^(p-2) == x^1 * x^(p-2) == x^(p-1)
    lemma_fe_exp_one(x);
    vstd::arithmetic::div_mod::lemma_small_mod(x as nat, FIELD_MODULUS as nat);
    lemma_fe_exp_adds(x, 1nat, (p - 2) as nat);
    vstd::arithmetic::div_mod::lemma_mul_mod_noop_general(x, pow(x, (p - 2) as nat), p);
    assert(fe_mul(x, fe_inv(x)) == 1);
    if x == 0 {
        vstd::arithmetic::power2::lemma_pow2_pos(k);
        lemma_fe_exp_pos_zero_base(pow2(k));
    }
}

/// `0^e == 0` for positive `e`.
pub proof fn lemma_fe_exp_pos_zero_base(e: nat)
    requires
        e >= 1,
    ensures
        fe_exp(0, e) == 0,
{
    vstd::arithmetic::power::lemma_pow1(0);
    lemma_fe_exp_adds(0, 1nat, (e - 1) as nat);
    assert(fe_exp(0, e) == fe_mul(fe_exp(0, 1), fe_exp(0, (e - 1) as nat)));
    assert(fe_exp(0, 1) == 0) by {
        assert(pow(0, 1) == 0);
        assert(0int % (FIELD_MODULUS as int) == 0);
    };
    assert(fe_mul(0, fe_exp(0, (e - 1) as nat)) == 0) by {
        assert(0int * fe_exp(0, (e - 1) as nat) == 0);
        assert(0int % (FIELD_MODULUS as int) == 0);
    };
}

/// Multiplying a reduced residue by one leaves it unchanged.
pub proof fn lemma_fe_mul_one(v: int)
    requires
        0 <= v < FIELD_MODULUS,
    ensures
        fe_mul(v, 1) == v,
{
    assert(v * 1 == v);
    vstd::arithmetic::div_mod::lemma_small_mod(v as nat, FIELD_MODULUS as nat);
}

/// Multiplying by `p - 1` negates a residue: `v * (p-1) == (p - v) mod p`.
pub proof fn lemma_fe_neg_one_mul(v: int)
    requires
        0 <= v < FIELD_MODULUS,
    ensures
        fe_mul(v, (FIELD_MODULUS - 1) as int) == (FIELD_MODULUS - v) % (FIELD_MODULUS as int),
{
    let p = FIELD_MODULUS as int;
    assert(v * (p - 1) == p * v + (-v)) by (nonlinear_arith);
    vstd::arithmetic::div_mod::lemma_mod_multiples_vanish(v, -v, p);
    vstd::arithmetic::div_mod::lemma_mod_multiples_vanish(1, -v, p);
    assert((p - v) == p * 1 + (-v));
}

/// Swapping the arguments of a subtraction negates it.
pub proof fn lemma_fe_sub_antisym(a: int, b: int)
    requires
        0 <= a < FIELD_MODULUS,
        0 <= b < FIELD_MODULUS,
    ensures
        fe_sub(a, b) == fe_mul(fe_sub(b, a), (FIELD_MODULUS - 1) as int),
{
    let p = FIELD_MODULUS as int;
    vstd::arithmetic::div_mod::lemma_mod_bound(b + p - a, p);
    lemma_fe_neg_one_mul(fe_sub(b, a));
    if a == b {
        vstd::arithmetic::div_mod::lemma_mod_self_0(p);
    } else if a < b {
        vstd::arithmetic::div_mod::lemma_small_mod((b - a) as nat, FIELD_MODULUS as nat);
        vstd::arithmetic::div_mod::lemma_mod_multiples_vanish(1, b - a, p);
        assert(b + p - a == p * 1 + (b - a));
        assert(fe_sub(b, a) == b - a);
        vstd::arithmetic::div_mod::lemma_small_mod((p - (b - a)) as nat, FIELD_MODULUS as nat);
        vstd::arithmetic::div_mod::lemma_small_mod((a + p - b) as nat, FIELD_MODULUS as nat);
    } else {
        vstd::arithmetic::div_mod::lemma_small_mod((b + p - a) as nat, FIELD_MODULUS as nat);
        assert(fe_sub(b, a) == b + p - a);
        vstd::arithmetic::div_mod::lemma_small_mod((a - b) as nat, FIELD_MODULUS as nat);
        vstd::arithmetic::div_mod::lemma_mod_multiples_vanish(1, a - b, p);
        assert(a + p - b == p * 1 + (a - b));
    }
}

/// The inverse of a negated residue is the negated inverse.
pub proof fn lemma_fe_inv_neg(d: int)
    requires
        0 <= d < FIELD_MODULUS,
    ensures
        fe_inv(fe_mul(d, (FIELD_MODULUS - 1) as int)) == fe_mul(
            fe_inv(d),
            (FIELD_MODULUS - 1) as int,
        ),
{
    let p = FIELD_MODULUS as int;
    let m = (p - 1) as int;
    lemma_fe_exp_distributes(d, m, (p - 2) as nat);
    lemma_fe_exp_neg_one((p - 2) as nat);
    assert((p - 2) % 2 == 1);
}

/// The multiplicative inverse of `a`, as the unique reduced residue whose
/// product with `a` is one. Meaningful whenever such a residue exists.
pub open spec fn fe_inv_of(a: int) -> int {
    choose|w: int| 0 <= w < FIELD_MODULUS && fe_mul(a, w) == 1
}

/// Any witness of the inverse property pins down `fe_inv_of`.
pub proof fn lemma_fe_inv_of_eq(a: int, w: int)
    requires
        0 <= w < FIELD_MODULUS,
        fe_mul(a, w) == 1,
    ensures
        fe_inv_of(a) == w,
{
    assert(0 <= fe_inv_of(a) < FIELD_MODULUS && fe_mul(a, fe_inv_of(a)) == 1) by {
        assert(0 <= w < FIELD_MODULUS && fe_mul(a, w) == 1);
    };
    lemma_fe_inv_unique(a, fe_inv_of(a), w);
}

/// A polynomial evaluation is a reduced residue.
pub proof fn lemma_fe_poly_eval_in_range(s: Seq<u64>, x: int)
    ensures
        0 <= fe_poly_eval(s, x) < FIELD_MODULUS,
{
    if s.len() == 0 {
    } else {
        vstd::arithmetic::div_mod::lemma_mod_bound(
            poly_eval_at(FIELD_MODULUS as int, s.drop_last(), x) + s.last() * pow(
                x,
                (s.len() - 1) as nat,
            ),
            FIELD_MODULUS as int,
        );
    }
}

/// A product of residues is a reduced residue.
pub proof fn lemma_fe_mul_in_range(a: int, b: int)
    ensures
        0 <= fe_mul(a, b) < FIELD_MODULUS,
{
    vstd::arithmetic::div_mod::lemma_mod_bound(a * b, FIELD_MODULUS as int);
}

/// The exponential is a reduced residue.
pub proof fn lemma_fe_exp_in_range(b: int, e: nat)
    ensures
        0 <= fe_exp(b, e) < FIELD_MODULUS,
{
    vstd::arithmetic::div_mod::lemma_mod_bound(pow(b, e), FIELD_MODULUS as int);
}

/// `(p - 1)^e mod p` is `1` for even exponents and `p - 1` for odd ones:
/// `p - 1` is the field's square root of unity distinct from `1`.
pub proof fn lemma_fe_exp_neg_one(e: nat)
    ensures
        fe_exp((FIELD_MODULUS - 1) as int, e) == if e % 2 == 0 {
            1int
        } else {
            (FIELD_MODULUS - 1) as int
        },
    decreases e,
{
    let p = FIELD_MODULUS as int;
    let m = (FIELD_MODULUS - 1) as int;
    if e == 0 {
        vstd::arithmetic::power::lemma_pow0(m);
        assert(1int % p == 1);
    } else {
        lemma_fe_exp_neg_one((e - 1) as nat);
        lemma_fe_exp_adds(m, 1nat, (e - 1) as nat);
        assert(fe_exp(m, e) == fe_mul(fe_exp(m, 1), fe_exp(m, (e - 1) as nat)));
        lemma_fe_exp_one(m);
        vstd::arithmetic::div_mod::lemma_small_mod(m as nat, FIELD_MODULUS as nat);
        assert(fe_exp(m, 1) == m);
        if e % 2 == 0 {
            assert(fe_exp(m, (e - 1) as nat) == m);
            assert(fe_exp(m, e) == fe_mul(m, m));
            assert(m * m == 2013265920int * 2013265920int);
            assert((2013265920int * 2013265920int) % 2013265921int == 1int);
        } else {
            assert(fe_exp(m, (e - 1) as nat) == 1);
            assert(fe_exp(m, e) == fe_mul(m, 1));
            assert(m * 1 == m);
        }
    }
}


/// One squaring step of a power-of-two exponent: `b^(2^k) == (b*b)^(2^(k-1))`.
pub proof fn lemma_fe_exp_square_step(b: int, k: nat)
    requires
        k >= 1,
    ensures
        fe_exp(b, pow2(k)) == fe_exp(fe_mul(b, b), pow2((k - 1) as nat)),
{
    vstd::arithmetic::power2::lemma_pow2_unfold(k);
    vstd::arithmetic::power2::lemma_pow2_pos((k - 1) as nat);
    assert(pow2(k) == 2nat * pow2((k - 1) as nat));
    lemma_fe_exp_multiplies(b, 2nat, pow2((k - 1) as nat));
    assert(fe_exp(b, 2) == fe_mul(b, b)) by {
        vstd::arithmetic::power::lemma_pow1(b);
        vstd::arithmetic::power::lemma_pow_adds(b, 1nat, 1nat);
    };
}

/// Fermat's little theorem at the base 2, established by a concrete
/// square-and-reduce chain: `2^(p-1) == 1 mod p`, hence `2 * 2^(p-2) == 1`.
pub proof fn lemma_fe_two_inv()
    ensures
        fe_exp(2, (FIELD_MODULUS - 1) as nat) == 1,
        fe_mul(2, fe_inv(2)) == 1,
{
    let p = FIELD_MODULUS as int;
    vstd::arithmetic::power2::lemma2_to64();
    // 2^15 == 32768, and p - 1 == 15 * 2^27.
    assert(fe_exp(2, 15) == 32768) by {
        vstd::arithmetic::power::lemma_pow_positive(2, 15nat);
        vstd::arithmetic::power2::lemma2_to64();
        assert(pow(2, 15) == pow2(15));
        vstd::arithmetic::div_mod::lemma_small_mod(32768nat, FIELD_MODULUS as nat);
    };
    assert((FIELD_MODULUS - 1) as nat == 15nat * pow2(27)) by {
        vstd::arithmetic::power2::lemma2_to64();
    };
    lemma_fe_exp_multiplies(2, 15nat, pow2(27));
    assert(fe_exp(2, (FIELD_MODULUS - 1) as nat) == fe_exp(32768, pow2(27)));
    lemma_fe_exp_square_step(32768, 27nat);
    assert(fe_mul(32768, 32768) == 1073741824);
    lemma_fe_exp_square_step(1073741824, 26nat);
    assert(fe_mul(1073741824, 1073741824) == 1709039071);
    lemma_fe_exp_square_step(1709039071, 25nat);
    assert(fe_mul(1709039071, 1709039071) == 584553003);
    lemma_fe_exp_square_step(584553003, 24nat);
    assert(fe_mul(584553003, 584553003) == 563168684);
    lemma_fe_exp_square_step(563168684, 23nat);
    assert(fe_mul(563168684, 563168684) == 1584030254);
    lemma_fe_exp_square_step(1584030254, 22nat);
    assert(fe_mul(1584030254, 1584030254) == 158733553);
    lemma_fe_exp_square_step(158733553, 21nat);
    assert(fe_mul(158733553, 158733553) == 1763939212);
    lemma_fe_exp_square_step(1763939212, 20nat);
    assert(fe_mul(1763939212, 1763939212) == 691259344);
    lemma_fe_exp_square_step(691259344, 19nat);
    assert(fe_mul(691259344, 691259344) == 850357859);
    lemma_fe_exp_square_step(850357859, 18nat);
    assert(fe_mul(850357859, 850357859) == 696955690);
    lemma_fe_exp_square_step(696955690, 17nat);
    assert(fe_mul(696955690, 696955690) == 1816803640);
    lemma_fe_exp_square_step(1816803640, 16nat);
    assert(fe_mul(1816803640, 1816803640) == 1601241332);
    lemma_fe_exp_square_step(1601241332, 15nat);
    assert(fe_mul(1601241332, 1601241332) == 58735780);
    lemma_fe_exp_square_step(58735780, 14nat);
    assert(fe_mul(58735780, 58735780) == 1648567141);
    lemma_fe_exp_square_step(1648567141, 13nat);
    assert(fe_mul(1648567141, 1648567141) == 1061973763);
    lemma_fe_exp_square_step(1061973763, 12nat);
    assert(fe_mul(1061973763, 1061973763) == 1653077195);
    lemma_fe_exp_square_step(1653077195, 11nat);
    assert(fe_mul(1653077195, 1653077195) == 1397122709);
    lemma_fe_exp_square_step(1397122709, 10nat);
    assert(fe_mul(1397122709, 1397122709) == 919403943);
    lemma_fe_exp_square_step(919403943, 9nat);
    assert(fe_mul(919403943, 919403943) == 7658004);
    lemma_fe_exp_square_step(7658004, 8nat);
    assert(fe_mul(7658004, 7658004) == 602251207);
    lemma_fe_exp_square_step(602251207, 7nat);
    assert(fe_mul(602251207, 602251207) == 889310574);
    lemma_fe_exp_square_step(889310574, 6nat);
    assert(fe_mul(889310574, 889310574) == 1816869661);
    lemma_fe_exp_square_step(1816869661, 5nat);
    assert(fe_mul(1816869661, 1816869661) == 1592366214);
    lemma_fe_exp_square_step(1592366214, 4nat);
    assert(fe_mul(1592366214, 1592366214) == 1728404513);
    lemma_fe_exp_square_step(1728404513, 3nat);
    assert(fe_mul(1728404513, 1728404513) == 2013265920);
    lemma_fe_exp_square_step(2013265920, 2nat);
    assert(fe_mul(2013265920, 2013265920) == 1);
    lemma_fe_exp_square_step(1, 1nat);
    assert(fe_mul(1, 1) == 1);
    assert(fe_exp(1, pow2(0)) == 1) by {
        lemma_fe_exp_one_base(pow2(0));
    };
    assert(fe_exp(2, (FIELD_MODULUS - 1) as nat) == 1);
    lemma_fe_exp_one(2);
    lemma_fe_exp_adds(2, 1nat, (FIELD_MODULUS - 2) as nat);
    vstd::arithmetic::div_mod::lemma_small_mod(2nat, FIELD_MODULUS as nat);
    assert(fe_mul(2, fe_inv(2)) == 1);
}

} // verus!
