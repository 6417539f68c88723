//! Composition: combine the two constraint quotients into a single
//! polynomial `H(x)` under verifier challenges, and check the prover's
//! claimed out-of-domain evaluation of `H` against a reconstruction from
//! the claimed trace evaluations.

use vstd::prelude::*;

use crate::arithmetization::Arithmetization;
use crate::backend::interpolate_coset;
use crate::error::FriError;
use crate::felt::{
    add_fe, eval_fe, fe_add, fe_exp, fe_inv, fe_mul, fe_poly_eval, fe_reduced, fe_sub, inv_fe,
    mul_fe, pow_fe, sub_fe, FIELD_MODULUS,
};
use crate::field::{lemma_pow2_of_tz, lemma_tz_le, trailing_zeros, tz_spec};

verus! {

/// The reconstruction of `H(z)` from claimed trace evaluations: the
/// boundary and transition constraint expressions evaluated directly at
/// `z` and recombined with the challenges.
pub open spec fn ood_reconstruction(
    arith: Arithmetization,
    t_z: int,
    t_zg: int,
    t_zg2: int,
    alpha1: int,
    alpha2: int,
    z: int,
) -> int {
    let n = arith.trace_length as nat;
    let d0 = arith.domain@[0] as int;
    let d1 = arith.domain@[1] as int;
    let dn2 = arith.domain@[arith.trace_length - 2] as int;
    let dn1 = arith.domain@[arith.trace_length - 1] as int;
    let boundary_z = fe_mul(
        fe_sub(t_z, fe_add(arith.bi_c0(), fe_mul(arith.bi_c1(), z))),
        fe_inv(fe_mul(fe_sub(z, d0), fe_sub(z, d1))),
    );
    let zt_z = fe_mul(
        fe_sub(fe_exp(z, n), 1),
        fe_inv(fe_mul(fe_sub(z, dn2), fe_sub(z, dn1))),
    );
    let transition_z = fe_mul(fe_sub(fe_sub(t_zg2, t_zg), t_z), fe_inv(zt_z));
    fe_add(fe_mul(boundary_z, alpha1), fe_mul(transition_z, alpha2))
}

/// The composition polynomial: its evaluations on the LDE domain and its
/// coefficient form, recovered by coset interpolation.
pub struct Composition {
    /// `H(x)` on the LDE domain.
    pub composition_poly_lde: Vec<u64>,
    /// The coefficients of `H(x)`.
    pub composition_poly: Vec<u64>,
}

impl Composition {
    /// Shapes and residues are consistent with an LDE domain of size `ldn`.
    pub open spec fn wf(&self, ldn: int) -> bool {
        &&& self.composition_poly_lde@.len() == ldn
        &&& self.composition_poly@.len() <= ldn
        &&& fe_reduced(self.composition_poly_lde@)
        &&& fe_reduced(self.composition_poly@)
    }

    /// Combines the constraint quotients: `H = alpha1 * B + alpha2 * T` on
    /// the LDE domain, then interpolates the coefficient form over the
    /// coset.
    #[verifier::loop_isolation(false)]
    pub fn new(arithmetization: &Arithmetization, alpha1: u64, alpha2: u64) -> (r: Composition)
        requires
            arithmetization.wf(),
            alpha1 < FIELD_MODULUS,
            alpha2 < FIELD_MODULUS,
        ensures
            r.wf(arithmetization.lde_domain@.len() as int),
            forall|i: int|
                0 <= i < arithmetization.lde_domain@.len()
                    ==> #[trigger] r.composition_poly_lde@[i] == fe_add(
                    fe_mul(
                        arithmetization.boundary_constraint_poly_lde@[i] as int,
                        alpha1 as int,
                    ),
                    fe_mul(
                        arithmetization.transition_constraint_poly_lde@[i] as int,
                        alpha2 as int,
                    ),
                ),
            forall|i: int|
                0 <= i < arithmetization.lde_domain@.len() ==> fe_poly_eval(
                    r.composition_poly@,
                    #[trigger] arithmetization.lde_domain@[i] as int,
                ) == r.composition_poly_lde@[i],
    {
        let ldn = arithmetization.lde_domain.len();
        let mut lde: Vec<u64> = Vec::new();
        let mut i: usize = 0;
        while i < ldn
            invariant
                i <= ldn,
                lde@.len() == i,
                forall|j: int|
                    0 <= j < i ==> #[trigger] lde@[j] == fe_add(
                        fe_mul(
                            arithmetization.boundary_constraint_poly_lde@[j] as int,
                            alpha1 as int,
                        ),
                        fe_mul(
                            arithmetization.transition_constraint_poly_lde@[j] as int,
                            alpha2 as int,
                        ),
                    ),
                fe_reduced(lde@),
            decreases ldn - i,
        {
            lde.push(
                add_fe(
                    mul_fe(arithmetization.boundary_constraint_poly_lde[i], alpha1),
                    mul_fe(arithmetization.transition_constraint_poly_lde[i], alpha2),
                ),
            );
            i = i + 1;
        }
        proof {
            lemma_pow2_of_tz(ldn as int);
            vstd::arithmetic::power2::lemma2_to64();
            lemma_tz_le(ldn as int, 24nat);
        }
        let lde_order = trailing_zeros(ldn);
        let composition_poly = interpolate_coset(&lde, lde_order, crate::arithmetization::LDE_OFFSET);
        proof {
            assert forall|i: int| 0 <= i < ldn implies fe_poly_eval(
                composition_poly@,
                #[trigger] arithmetization.lde_domain@[i] as int,
            ) == lde@[i] by {
                crate::felt::lemma_fe_mul_in_range(
                    crate::arithmetization::LDE_OFFSET as int,
                    fe_exp(crate::backend::root_of_unity(tz_spec(ldn as int)) as int, i as nat),
                );
                assert(fe_poly_eval(
                    composition_poly@,
                    fe_mul(
                        crate::arithmetization::LDE_OFFSET as int,
                        fe_exp(
                            crate::backend::root_of_unity(tz_spec(ldn as int)) as int,
                            i as nat,
                        ),
                    ),
                ) == lde@[i]);
            }
        }
        Composition { composition_poly_lde: lde, composition_poly }
    }

    /// The out-of-domain consistency check: the prover's `H(z)` (evaluated
    /// from the coefficient form) must equal the verifier's reconstruction
    /// from the claimed trace evaluations at `z`, `zg`, `zg^2`.
    pub fn perform_ood_check(
        &self,
        arithmetization: &Arithmetization,
        alpha1: u64,
        alpha2: u64,
        z: u64,
    ) -> (r: Result<(), FriError>)
        requires
            arithmetization.wf(),
            fe_reduced(self.composition_poly@),
            alpha1 < FIELD_MODULUS,
            alpha2 < FIELD_MODULUS,
            z < FIELD_MODULUS,
        ensures
            ({
                let t_z = fe_poly_eval(arithmetization.trace_poly@, z as int);
                let t_zg = fe_poly_eval(
                    arithmetization.trace_poly@,
                    fe_mul(z as int, arithmetization.domain_generator as int),
                );
                let t_zg2 = fe_poly_eval(
                    arithmetization.trace_poly@,
                    fe_mul(
                        z as int,
                        fe_mul(
                            arithmetization.domain_generator as int,
                            arithmetization.domain_generator as int,
                        ),
                    ),
                );
                let h_z = fe_poly_eval(self.composition_poly@, z as int);
                r == (if h_z == ood_reconstruction(
                    *arithmetization,
                    t_z,
                    t_zg,
                    t_zg2,
                    alpha1 as int,
                    alpha2 as int,
                    z as int,
                ) {
                    Ok::<(), FriError>(())
                } else {
                    Err::<(), FriError>(FriError::OutOfDomainMismatch)
                })
            }),
    {
        let g = arithmetization.domain_generator;
        let t_z = eval_fe(&arithmetization.trace_poly, z);
        let t_zg = eval_fe(&arithmetization.trace_poly, mul_fe(z, g));
        let t_zg2 = eval_fe(&arithmetization.trace_poly, mul_fe(z, mul_fe(g, g)));
        let h_z = eval_fe(&self.composition_poly, z);

        let n = arithmetization.trace_length;
        let d0 = arithmetization.domain[0];
        let d1 = arithmetization.domain[1];
        let pair = crate::arithmetization::interpolate_pair(d0, 1, d1, 1);
        let (c0, c1) = match pair {
            None => {
                // Ruled out: well-formed arithmetizations carry the
                // invertibility of the boundary base.
                proof {
                    assert(false);
                }
                return Err(FriError::OutOfDomainMismatch);
            },
            Some(p) => p,
        };
        let boundary_zerofier_z = mul_fe(sub_fe(z, d0), sub_fe(z, d1));
        let boundary_eval_z = mul_fe(
            sub_fe(t_z, add_fe(c0, mul_fe(c1, z))),
            inv_fe(boundary_zerofier_z),
        );
        let dn2 = arithmetization.domain[n - 2];
        let dn1 = arithmetization.domain[n - 1];
        let exemptions_at_z = mul_fe(sub_fe(z, dn2), sub_fe(z, dn1));
        let transition_zerofier_z = mul_fe(
            sub_fe(pow_fe(z, n as u64), 1),
            inv_fe(exemptions_at_z),
        );
        let transition_eval_z = mul_fe(
            sub_fe(sub_fe(t_zg2, t_zg), t_z),
            inv_fe(transition_zerofier_z),
        );
        let h_z_reconstructed = add_fe(mul_fe(boundary_eval_z, alpha1), mul_fe(transition_eval_z, alpha2));
        if h_z == h_z_reconstructed {
            Ok(())
        } else {
            Err(FriError::OutOfDomainMismatch)
        }
    }
}

} // verus!
