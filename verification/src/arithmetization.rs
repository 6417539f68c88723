//! Arithmetization: turn the execution trace into polynomial constraint
//! quotients. The trace is interpolated over its subgroup domain, extended
//! to a larger coset (the LDE domain), and divided — pointwise over the
//! coset, with batched inverses — by the boundary and transition
//! zerofiers. Each quotient evaluation is pinned to a closed formula over
//! the trace polynomial.

use vstd::prelude::*;

use crate::backend::{
    batch_inverse, interpolate_subgroup, poly_eval_slice, powers_of_root, powers_of_root_coset,
    primitive_root_of_unity, root_of_unity,
};
use crate::felt::{
    add_fe, fe_add, fe_exp, fe_inv, fe_inv_of, fe_mul, fe_poly_eval, fe_reduced, fe_sub,
    lemma_fe_inv_of_eq, mul_fe, pow_fe, sub_fe, FIELD_MODULUS,
};
use crate::field::{is_pow2_spec, lemma_pow2_of_tz, lemma_tz_le, trailing_zeros, tz_spec};

verus! {

/// The coset offset used for the low-degree extension domain.
pub const LDE_OFFSET: u64 = 3;

/// The subgroup domain of size `count` for the `2^order`-th root of unity.
pub open spec fn subgroup_points(order: nat, count: nat) -> Seq<u64> {
    Seq::new(count, |i: int| fe_exp(root_of_unity(order) as int, i as nat) as u64)
}

/// The coset domain: each subgroup point multiplied by the offset.
pub open spec fn coset_points(order: nat, count: nat) -> Seq<u64> {
    Seq::new(
        count,
        |i: int| fe_mul(LDE_OFFSET as int, fe_exp(root_of_unity(order) as int, i as nat)) as u64,
    )
}

/// The slope of the line through `(x0, y0)` and `(x1, y1)`.
pub open spec fn interp2_c1(x0: int, y0: int, x1: int, y1: int) -> int {
    fe_mul(fe_sub(y1, y0), fe_inv_of(fe_sub(x1, x0)))
}

/// The intercept of the line through `(x0, y0)` and `(x1, y1)`.
pub open spec fn interp2_c0(x0: int, y0: int, x1: int, y1: int) -> int {
    fe_sub(y0, fe_mul(interp2_c1(x0, y0, x1, y1), x0))
}

/// The boundary quotient at `x`: `(t(x) - I(x)) / ((x - d0)(x - d1))`,
/// with `I` the line through the two boundary points.
pub open spec fn boundary_quotient_at(
    tp: Seq<u64>,
    c0: int,
    c1: int,
    d0: int,
    d1: int,
    x: int,
) -> int {
    fe_mul(
        fe_sub(fe_poly_eval(tp, x), fe_add(c0, fe_mul(c1, x))),
        fe_inv_of(fe_mul(fe_sub(x, d0), fe_sub(x, d1))),
    )
}

/// The transition constraint numerator at `x`:
/// `t(g^2 x) - t(g x) - t(x)` for the Fibonacci relation.
pub open spec fn transition_numerator_at(tp: Seq<u64>, g: int, x: int) -> int {
    fe_sub(
        fe_sub(
            fe_poly_eval(tp, fe_mul(x, fe_mul(g, g))),
            fe_poly_eval(tp, fe_mul(x, g)),
        ),
        fe_poly_eval(tp, x),
    )
}

/// The transition zerofier at `x`: `(x^n - 1) / ((x - dn2)(x - dn1))`,
/// vanishing on the trace domain except its last two points.
pub open spec fn transition_zerofier_at(n: nat, dn2: int, dn1: int, x: int) -> int {
    fe_mul(
        fe_sub(fe_exp(x, n), 1),
        fe_inv_of(fe_mul(fe_sub(x, dn2), fe_sub(x, dn1))),
    )
}

/// The transition quotient at `x`.
pub open spec fn transition_quotient_at(
    tp: Seq<u64>,
    g: int,
    n: nat,
    dn2: int,
    dn1: int,
    x: int,
) -> int {
    fe_mul(
        transition_numerator_at(tp, g, x),
        fe_inv_of(transition_zerofier_at(n, dn2, dn1, x)),
    )
}

/// Every denominator that the quotients divide by is invertible over the
/// coset: the boundary interpolant's base, both zerofiers, and the
/// exemption factors.
pub open spec fn air_denominators_ok(d: Seq<u64>, lde: Seq<u64>, n: nat) -> bool {
    &&& fe_mul(
        fe_sub(d[1] as int, d[0] as int),
        fe_inv(fe_sub(d[1] as int, d[0] as int)),
    ) == 1
    &&& forall|i: int|
        0 <= i < lde.len() ==> fe_mul(
            fe_sub(#[trigger] lde[i] as int, d[0] as int),
            fe_sub(lde[i] as int, d[1] as int),
        ) != 0
    &&& forall|i: int|
        0 <= i < lde.len() ==> fe_mul(
            fe_sub(#[trigger] lde[i] as int, d[n - 2] as int),
            fe_sub(lde[i] as int, d[n - 1] as int),
        ) != 0
    &&& forall|i: int|
        0 <= i < lde.len() ==> transition_zerofier_at(
            n,
            d[n - 2] as int,
            d[n - 1] as int,
            #[trigger] lde[i] as int,
        ) != 0
}

/// Interpolates the line through two points with distinct abscissas. The
/// check that the base is invertible is performed at run time; it can only
/// fail when `x0 == x1`.
pub fn interpolate_pair(x0: u64, y0: u64, x1: u64, y1: u64) -> (r: Option<(u64, u64)>)
    requires
        x0 < FIELD_MODULUS,
        y0 < FIELD_MODULUS,
        x1 < FIELD_MODULUS,
        y1 < FIELD_MODULUS,
    ensures
        r is Some <==> fe_mul(
            fe_sub(x1 as int, x0 as int),
            fe_inv(fe_sub(x1 as int, x0 as int)),
        ) == 1,
        r matches Some(p) ==> p.0 == interp2_c0(x0 as int, y0 as int, x1 as int, y1 as int)
            && p.1 == interp2_c1(x0 as int, y0 as int, x1 as int, y1 as int)
            && p.0 < FIELD_MODULUS && p.1 < FIELD_MODULUS,
{
    let d = sub_fe(x1, x0);
    let w = crate::felt::inv_fe(d);
    if mul_fe(d, w) != 1 {
        return None;
    }
    proof {
        lemma_fe_inv_of_eq(d as int, w as int);
    }
    let c1 = mul_fe(sub_fe(y1, y0), w);
    let c0 = sub_fe(y0, mul_fe(c1, x0));
    Some((c0, c1))
}

/// The arithmetized trace: its interpolant, the two evaluation domains,
/// and both constraint quotients evaluated over the LDE domain.
pub struct Arithmetization {
    /// The number of trace steps.
    pub trace_length: usize,
    /// The trace (subgroup) domain.
    pub domain: Vec<u64>,
    /// The generator of the trace domain.
    pub domain_generator: u64,
    /// The coefficients of the trace interpolant `t(x)`.
    pub trace_poly: Vec<u64>,
    /// The boundary quotient `B(x)` on the LDE domain.
    pub boundary_constraint_poly_lde: Vec<u64>,
    /// The transition quotient `T(x)` on the LDE domain.
    pub transition_constraint_poly_lde: Vec<u64>,
    /// The coset domain used for the low-degree extension.
    pub lde_domain: Vec<u64>,
}

impl Arithmetization {
    /// Structural soundness: consistent lengths, canonical residues, and
    /// both domains exactly the modelled subgroup and coset point sets.
    pub open spec fn wf(&self) -> bool {
        let n = self.trace_length as nat;
        let ldn = self.lde_domain@.len() as nat;
        &&& n >= 2
        &&& self.domain@.len() == n
        &&& self.domain@ == subgroup_points(tz_spec(n as int), n)
        &&& self.domain_generator == root_of_unity(tz_spec(n as int))
        &&& self.domain_generator < FIELD_MODULUS
        &&& ldn >= n
        &&& is_pow2_spec(ldn as int)
        &&& ldn <= 0x1000000
        &&& self.lde_domain@ == coset_points(tz_spec(ldn as int), ldn)
        &&& self.boundary_constraint_poly_lde@.len() == ldn
        &&& self.transition_constraint_poly_lde@.len() == ldn
        &&& fe_reduced(self.domain@)
        &&& fe_reduced(self.lde_domain@)
        &&& fe_reduced(self.trace_poly@)
        &&& fe_reduced(self.boundary_constraint_poly_lde@)
        &&& fe_reduced(self.transition_constraint_poly_lde@)
        &&& fe_mul(
            fe_sub(self.domain@[1] as int, self.domain@[0] as int),
            fe_inv(fe_sub(self.domain@[1] as int, self.domain@[0] as int)),
        ) == 1
    }

    /// The boundary interpolant's intercept for this arithmetization: the
    /// line through `(g^0, 1)` and `(g^1, 1)`.
    pub open spec fn bi_c0(&self) -> int {
        interp2_c0(self.domain@[0] as int, 1, self.domain@[1] as int, 1)
    }

    /// The boundary interpolant's slope for this arithmetization.
    pub open spec fn bi_c1(&self) -> int {
        interp2_c1(self.domain@[0] as int, 1, self.domain@[1] as int, 1)
    }

    /// Arithmetizes a Fibonacci-style execution trace: interpolate it on
    /// the subgroup domain, evaluate boundary and transition quotients on
    /// the coset LDE domain. Fails (with `None`) only if some zerofier
    /// evaluation on the coset is not invertible, which a coset offset
    /// outside the subgroup rules out.
    #[verifier::loop_isolation(false)]
    #[verifier::rlimit(100)]
    pub fn new(trace: &Vec<u64>, blowup_factor: usize) -> (r: Option<Arithmetization>)
        requires
            trace@.len() >= 2,
            is_pow2_spec(trace@.len() as int),
            blowup_factor >= 1,
            is_pow2_spec((trace@.len() * blowup_factor) as int),
            trace@.len() * blowup_factor <= 0x1000000,
            fe_reduced(trace@),
        ensures
            ({
                let n = trace@.len() as nat;
                let ldn = (trace@.len() * blowup_factor) as nat;
                let d = subgroup_points(tz_spec(n as int), n);
                let lde = coset_points(tz_spec(ldn as int), ldn);
                &&& (r is Some <==> air_denominators_ok(d, lde, n))
                &&& (r matches Some(a) ==> {
                    &&& a.wf()
                    &&& a.trace_length == n
                    &&& a.lde_domain@.len() == ldn
                    &&& a.trace_poly@.len() <= n
                    &&& (forall|i: int|
                        0 <= i < n ==> fe_poly_eval(
                            a.trace_poly@,
                            #[trigger] a.domain@[i] as int,
                        ) == trace@[i])
                    &&& (forall|i: int|
                        0 <= i < ldn ==> #[trigger] a.boundary_constraint_poly_lde@[i]
                            == boundary_quotient_at(
                            a.trace_poly@,
                            a.bi_c0(),
                            a.bi_c1(),
                            a.domain@[0] as int,
                            a.domain@[1] as int,
                            a.lde_domain@[i] as int,
                        ))
                    &&& (forall|i: int|
                        0 <= i < ldn ==> #[trigger] a.transition_constraint_poly_lde@[i]
                            == transition_quotient_at(
                            a.trace_poly@,
                            a.domain_generator as int,
                            n,
                            a.domain@[n - 2] as int,
                            a.domain@[n - 1] as int,
                            a.lde_domain@[i] as int,
                        ))
                })
            }),
    {
        let trace_length = trace.len();
        let ghost n = trace@.len() as nat;
        proof {
            lemma_pow2_of_tz(trace_length as int);
            lemma_pow2_of_tz((trace_length * blowup_factor) as int);
            vstd::arithmetic::power2::lemma2_to64();
            assert(trace_length <= trace_length * blowup_factor) by (nonlinear_arith)
                requires
                    blowup_factor >= 1,
                    trace_length >= 0,
            ;
            lemma_tz_le((trace_length * blowup_factor) as int, 24nat);
            lemma_tz_le(trace_length as int, 24nat);
        }
        let root_order = trailing_zeros(trace_length);
        let domain_generator = primitive_root_of_unity(root_order);
        let domain = powers_of_root(root_order, trace_length);
        proof {
            assert(domain@ =~= subgroup_points(tz_spec(trace_length as int), n));
        }
        let trace_poly = interpolate_subgroup(trace, root_order);
        let lde_size: usize = trace_length * blowup_factor;
        let lde_order = trailing_zeros(lde_size);
        let lde_domain = powers_of_root_coset(lde_order, lde_size, LDE_OFFSET);
        proof {
            assert(lde_domain@ =~= coset_points(tz_spec(lde_size as int), lde_size as nat));
        }
        let trace_poly_lde = poly_eval_slice(&trace_poly, &lde_domain);
        let ghost d = domain@;
        let ghost lde = lde_domain@;

        // Boundary constraint quotient.
        let pair = interpolate_pair(domain[0], 1, domain[1], 1);
        let (c0, c1) = match pair {
            None => {
                return None;
            },
            Some(p) => p,
        };
        let mut zb_evals: Vec<u64> = Vec::new();
        let mut i: usize = 0;
        while i < lde_size
            invariant
                i <= lde_size,
                lde_size == lde.len(),
                lde == lde_domain@,
                d == domain@,
                d.len() >= 2,
                fe_reduced(lde),
                fe_reduced(d),
                zb_evals@.len() == i,
                forall|j: int|
                    0 <= j < i ==> #[trigger] zb_evals@[j] == fe_mul(
                        fe_sub(lde[j] as int, d[0] as int),
                        fe_sub(lde[j] as int, d[1] as int),
                    ),
                fe_reduced(zb_evals@),
            decreases lde_size - i,
        {
            zb_evals.push(mul_fe(sub_fe(lde_domain[i], domain[0]), sub_fe(lde_domain[i], domain[1])));
            i = i + 1;
        }
        let zb_inv = match batch_inverse(&zb_evals) {
            None => {
                return None;
            },
            Some(v) => v,
        };
        proof {
            assert forall|j: int| 0 <= j < lde.len() implies #[trigger] zb_inv@[j] as int
                == fe_inv_of(zb_evals@[j] as int) by {
                lemma_fe_inv_of_eq(zb_evals@[j] as int, zb_inv@[j] as int);
            }
        }
        let mut boundary_lde: Vec<u64> = Vec::new();
        let mut i: usize = 0;
        while i < lde_size
            invariant
                i <= lde_size,
                lde_size == lde.len(),
                lde == lde_domain@,
                d == domain@,
                d.len() >= 2,
                fe_reduced(lde),
                fe_reduced(d),
                fe_reduced(trace_poly@),
                c0 < FIELD_MODULUS,
                c1 < FIELD_MODULUS,
                c0 == interp2_c0(d[0] as int, 1, d[1] as int, 1),
                c1 == interp2_c1(d[0] as int, 1, d[1] as int, 1),
                trace_poly_lde@.len() == lde.len(),
                forall|j: int|
                    0 <= j < lde.len() ==> #[trigger] trace_poly_lde@[j] == fe_poly_eval(
                        trace_poly@,
                        lde[j] as int,
                    ) && trace_poly_lde@[j] < FIELD_MODULUS,
                zb_inv@.len() == lde.len(),
                forall|j: int|
                    0 <= j < lde.len() ==> #[trigger] zb_inv@[j] as int == fe_inv_of(
                        fe_mul(fe_sub(lde[j] as int, d[0] as int), fe_sub(lde[j] as int, d[1] as int)),
                    ) && zb_inv@[j] < FIELD_MODULUS,
                boundary_lde@.len() == i,
                forall|j: int|
                    0 <= j < i ==> #[trigger] boundary_lde@[j] == boundary_quotient_at(
                        trace_poly@,
                        interp2_c0(d[0] as int, 1, d[1] as int, 1),
                        interp2_c1(d[0] as int, 1, d[1] as int, 1),
                        d[0] as int,
                        d[1] as int,
                        lde[j] as int,
                    ),
                fe_reduced(boundary_lde@),
            decreases lde_size - i,
        {
            let numerator = sub_fe(trace_poly_lde[i], add_fe(c0, mul_fe(c1, lde_domain[i])));
            boundary_lde.push(mul_fe(numerator, zb_inv[i]));
            i = i + 1;
        }

        // Transition constraint quotient.
        let g2 = mul_fe(domain_generator, domain_generator);
        let mut shifted_g: Vec<u64> = Vec::new();
        let mut shifted_g2: Vec<u64> = Vec::new();
        let mut i: usize = 0;
        while i < lde_size
            invariant
                i <= lde_size,
                lde_size == lde.len(),
                lde == lde_domain@,
                fe_reduced(lde),
                domain_generator < FIELD_MODULUS,
                g2 == fe_mul(domain_generator as int, domain_generator as int),
                g2 < FIELD_MODULUS,
                shifted_g@.len() == i,
                shifted_g2@.len() == i,
                forall|j: int|
                    0 <= j < i ==> #[trigger] shifted_g@[j] == fe_mul(
                        lde[j] as int,
                        domain_generator as int,
                    ),
                forall|j: int|
                    0 <= j < i ==> #[trigger] shifted_g2@[j] == fe_mul(lde[j] as int, g2 as int),
                fe_reduced(shifted_g@),
                fe_reduced(shifted_g2@),
            decreases lde_size - i,
        {
            shifted_g.push(mul_fe(lde_domain[i], domain_generator));
            shifted_g2.push(mul_fe(lde_domain[i], g2));
            i = i + 1;
        }
        let trace_lde_g = poly_eval_slice(&trace_poly, &shifted_g);
        let trace_lde_g2 = poly_eval_slice(&trace_poly, &shifted_g2);
        let mut ex_evals: Vec<u64> = Vec::new();
        let mut i: usize = 0;
        while i < lde_size
            invariant
                i <= lde_size,
                lde_size == lde.len(),
                lde == lde_domain@,
                d == domain@,
                d.len() == trace_length,
                trace_length >= 2,
                fe_reduced(lde),
                fe_reduced(d),
                ex_evals@.len() == i,
                forall|j: int|
                    0 <= j < i ==> #[trigger] ex_evals@[j] == fe_mul(
                        fe_sub(lde[j] as int, d[trace_length - 2] as int),
                        fe_sub(lde[j] as int, d[trace_length - 1] as int),
                    ),
                fe_reduced(ex_evals@),
            decreases lde_size - i,
        {
            ex_evals.push(
                mul_fe(
                    sub_fe(lde_domain[i], domain[trace_length - 2]),
                    sub_fe(lde_domain[i], domain[trace_length - 1]),
                ),
            );
            i = i + 1;
        }
        let ex_inv = match batch_inverse(&ex_evals) {
            None => {
                return None;
            },
            Some(v) => v,
        };
        proof {
            assert forall|j: int| 0 <= j < lde.len() implies #[trigger] ex_inv@[j] as int
                == fe_inv_of(ex_evals@[j] as int) by {
                lemma_fe_inv_of_eq(ex_evals@[j] as int, ex_inv@[j] as int);
            }
        }
        let mut zt_evals: Vec<u64> = Vec::new();
        let mut i: usize = 0;
        while i < lde_size
            invariant
                i <= lde_size,
                lde_size == lde.len(),
                lde == lde_domain@,
                d == domain@,
                d.len() == trace_length,
                trace_length >= 2,
                fe_reduced(lde),
                fe_reduced(d),
                ex_inv@.len() == lde.len(),
                forall|j: int|
                    0 <= j < lde.len() ==> #[trigger] ex_inv@[j] as int == fe_inv_of(
                        fe_mul(
                            fe_sub(lde[j] as int, d[trace_length - 2] as int),
                            fe_sub(lde[j] as int, d[trace_length - 1] as int),
                        ),
                    ) && ex_inv@[j] < FIELD_MODULUS,
                zt_evals@.len() == i,
                forall|j: int|
                    0 <= j < i ==> #[trigger] zt_evals@[j] == transition_zerofier_at(
                        trace_length as nat,
                        d[trace_length - 2] as int,
                        d[trace_length - 1] as int,
                        lde[j] as int,
                    ),
                fe_reduced(zt_evals@),
            decreases lde_size - i,
        {
            zt_evals.push(
                mul_fe(sub_fe(pow_fe(lde_domain[i], trace_length as u64), 1), ex_inv[i]),
            );
            i = i + 1;
        }
        let zt_inv = match batch_inverse(&zt_evals) {
            None => {
                return None;
            },
            Some(v) => v,
        };
        proof {
            assert forall|j: int| 0 <= j < lde.len() implies #[trigger] zt_inv@[j] as int
                == fe_inv_of(zt_evals@[j] as int) by {
                lemma_fe_inv_of_eq(zt_evals@[j] as int, zt_inv@[j] as int);
            }
        }
        let mut transition_lde: Vec<u64> = Vec::new();
        let mut i: usize = 0;
        while i < lde_size
            invariant
                i <= lde_size,
                lde_size == lde.len(),
                lde == lde_domain@,
                d == domain@,
                d.len() == trace_length,
                trace_length >= 2,
                fe_reduced(lde),
                fe_reduced(d),
                fe_reduced(trace_poly@),
                domain_generator < FIELD_MODULUS,
                g2 == fe_mul(domain_generator as int, domain_generator as int),
                trace_poly_lde@.len() == lde.len(),
                trace_lde_g@.len() == lde.len(),
                trace_lde_g2@.len() == lde.len(),
                forall|j: int|
                    0 <= j < lde.len() ==> #[trigger] trace_poly_lde@[j] == fe_poly_eval(
                        trace_poly@,
                        lde[j] as int,
                    ) && trace_poly_lde@[j] < FIELD_MODULUS,
                forall|j: int|
                    0 <= j < lde.len() ==> #[trigger] trace_lde_g@[j] == fe_poly_eval(
                        trace_poly@,
                        fe_mul(lde[j] as int, domain_generator as int),
                    ) && trace_lde_g@[j] < FIELD_MODULUS,
                forall|j: int|
                    0 <= j < lde.len() ==> #[trigger] trace_lde_g2@[j] == fe_poly_eval(
                        trace_poly@,
                        fe_mul(lde[j] as int, g2 as int),
                    ) && trace_lde_g2@[j] < FIELD_MODULUS,
                zt_inv@.len() == lde.len(),
                forall|j: int|
                    0 <= j < lde.len() ==> #[trigger] zt_inv@[j] as int == fe_inv_of(
                        transition_zerofier_at(
                            trace_length as nat,
                            d[trace_length - 2] as int,
                            d[trace_length - 1] as int,
                            lde[j] as int,
                        ),
                    ) && zt_inv@[j] < FIELD_MODULUS,
                transition_lde@.len() == i,
                forall|j: int|
                    0 <= j < i ==> #[trigger] transition_lde@[j] == transition_quotient_at(
                        trace_poly@,
                        domain_generator as int,
                        trace_length as nat,
                        d[trace_length - 2] as int,
                        d[trace_length - 1] as int,
                        lde[j] as int,
                    ),
                fe_reduced(transition_lde@),
            decreases lde_size - i,
        {
            let numerator = sub_fe(sub_fe(trace_lde_g2[i], trace_lde_g[i]), trace_poly_lde[i]);
            transition_lde.push(mul_fe(numerator, zt_inv[i]));
            i = i + 1;
        }

        let result = Arithmetization {
            trace_length,
            domain,
            domain_generator,
            trace_poly,
            boundary_constraint_poly_lde: boundary_lde,
            transition_constraint_poly_lde: transition_lde,
            lde_domain,
        };
        proof {
            assert forall|j: int| 0 <= j < lde.len() implies fe_mul(
                fe_sub(#[trigger] lde[j] as int, d[0] as int),
                fe_sub(lde[j] as int, d[1] as int),
            ) != 0 by {
                assert(zb_evals@[j] != 0);
            }
            assert forall|j: int| 0 <= j < lde.len() implies fe_mul(
                fe_sub(#[trigger] lde[j] as int, d[trace_length - 2] as int),
                fe_sub(lde[j] as int, d[trace_length - 1] as int),
            ) != 0 by {
                assert(ex_evals@[j] != 0);
            }
            assert forall|j: int| 0 <= j < lde.len() implies transition_zerofier_at(
                n,
                d[trace_length - 2] as int,
                d[trace_length - 1] as int,
                #[trigger] lde[j] as int,
            ) != 0 by {
                assert(zt_evals@[j] != 0);
            }
            assert(air_denominators_ok(d, lde, n));
            assert(result.wf());
            let t_ord = tz_spec(trace_length as int);
            assert forall|i: int| 0 <= i < n implies fe_poly_eval(
                result.trace_poly@,
                #[trigger] result.domain@[i] as int,
            ) == trace@[i] by {
                crate::felt::lemma_fe_exp_in_range(root_of_unity(t_ord) as int, i as nat);
                assert(fe_poly_eval(
                    result.trace_poly@,
                    fe_exp(root_of_unity(t_ord) as int, i as nat),
                ) == trace@[i]);
                assert(result.domain@[i] as int == fe_exp(root_of_unity(t_ord) as int, i as nat));
            }
        }
        Some(result)
    }
}

} // verus!
