//! DEEP composition: bundle every out-of-domain evaluation claim into one
//! polynomial whose low degree certifies them all, and the final spot
//! check that ties a FRI query point back to the committed evaluations.

use vstd::prelude::*;

use crate::arithmetization::Arithmetization;
use crate::composition::Composition;
use crate::error::FriError;
use crate::felt::{
    add_fe, eval_fe, fe_add, fe_inv, fe_mul, fe_poly_eval, fe_reduced, fe_sub, inv_fe, mul_fe,
    sub_fe, FIELD_MODULUS,
};

verus! {

/// One DEEP quotient term: `(value - ood_value) / (x - ood_point)`.
pub open spec fn deep_term(value: int, ood_value: int, x: int, ood_point: int) -> int {
    fe_mul(fe_sub(value, ood_value), fe_inv(fe_sub(x, ood_point)))
}

/// The DEEP combination at a point `x` of the LDE domain, from the
/// committed evaluations `h_x` (composition) and `t_x` (trace) and the
/// trusted out-of-domain values.
pub open spec fn deep_value(
    h_x: int,
    t_x: int,
    h_z: int,
    t_z: int,
    t_zg: int,
    t_zg2: int,
    x: int,
    z: int,
    zg: int,
    zg2: int,
    betas: Seq<u64>,
) -> int {
    fe_add(
        fe_add(
            fe_add(
                fe_mul(deep_term(h_x, h_z, x, z), betas[0] as int),
                fe_mul(deep_term(t_x, t_z, x, z), betas[1] as int),
            ),
            fe_mul(deep_term(t_x, t_zg, x, zg), betas[2] as int),
        ),
        fe_mul(deep_term(t_x, t_zg2, x, zg2), betas[3] as int),
    )
}

/// The DEEP composition polynomial, held as its LDE evaluations.
pub struct DeepComposition {
    deep_poly_lde: Vec<u64>,
}

impl DeepComposition {
    /// The evaluations of `D(x)` over the LDE domain.
    pub closed spec fn deep_lde(&self) -> Seq<u64> {
        self.deep_poly_lde@
    }

    /// Constructs the DEEP polynomial's evaluations: each term divides out
    /// one out-of-domain claim, and the four are combined under the
    /// verifier's challenges.
    #[verifier::loop_isolation(false)]
    #[verifier::rlimit(100)]
    pub fn new(
        arithmetization: &Arithmetization,
        composition: &Composition,
        z: u64,
        betas: &[u64; 4],
    ) -> (r: DeepComposition)
        requires
            arithmetization.wf(),
            composition.wf(arithmetization.lde_domain@.len() as int),
            z < FIELD_MODULUS,
            forall|i: int| 0 <= i < 4 ==> #[trigger] betas@[i] < FIELD_MODULUS,
        ensures
            r.deep_lde().len() == arithmetization.lde_domain@.len(),
            fe_reduced(r.deep_lde()),
            ({
                let g = arithmetization.domain_generator as int;
                let tp = arithmetization.trace_poly@;
                let cp = composition.composition_poly@;
                let zg = fe_mul(z as int, g);
                let zg2 = fe_mul(z as int, fe_mul(g, g));
                forall|i: int|
                    0 <= i < arithmetization.lde_domain@.len() ==> #[trigger] r.deep_lde()[i]
                        == deep_value(
                        composition.composition_poly_lde@[i] as int,
                        fe_poly_eval(tp, arithmetization.lde_domain@[i] as int),
                        fe_poly_eval(cp, z as int),
                        fe_poly_eval(tp, z as int),
                        fe_poly_eval(tp, zg),
                        fe_poly_eval(tp, zg2),
                        arithmetization.lde_domain@[i] as int,
                        z as int,
                        zg,
                        zg2,
                        betas@,
                    )
            }),
    {
        let g = arithmetization.domain_generator;
        let h_z = eval_fe(&composition.composition_poly, z);
        let t_z = eval_fe(&arithmetization.trace_poly, z);
        let zg = mul_fe(z, g);
        let zg2 = mul_fe(z, mul_fe(g, g));
        let t_zg = eval_fe(&arithmetization.trace_poly, zg);
        let t_zg2 = eval_fe(&arithmetization.trace_poly, zg2);
        let t_lde = crate::backend::poly_eval_slice(
            &arithmetization.trace_poly,
            &arithmetization.lde_domain,
        );
        let ldn = arithmetization.lde_domain.len();
        let mut deep: Vec<u64> = Vec::new();
        let mut i: usize = 0;
        while i < ldn
            invariant
                i <= ldn,
                deep@.len() == i,
                forall|j: int|
                    0 <= j < i ==> #[trigger] deep@[j] == deep_value(
                        composition.composition_poly_lde@[j] as int,
                        fe_poly_eval(
                            arithmetization.trace_poly@,
                            arithmetization.lde_domain@[j] as int,
                        ),
                        fe_poly_eval(composition.composition_poly@, z as int),
                        fe_poly_eval(arithmetization.trace_poly@, z as int),
                        fe_poly_eval(arithmetization.trace_poly@, zg as int),
                        fe_poly_eval(arithmetization.trace_poly@, zg2 as int),
                        arithmetization.lde_domain@[j] as int,
                        z as int,
                        zg as int,
                        zg2 as int,
                        betas@,
                    ),
                fe_reduced(deep@),
            decreases ldn - i,
        {
            let x = arithmetization.lde_domain[i];
            let h_term = mul_fe(sub_fe(composition.composition_poly_lde[i], h_z), inv_fe(sub_fe(x, z)));
            let t_z_term = mul_fe(sub_fe(t_lde[i], t_z), inv_fe(sub_fe(x, z)));
            let t_zg_term = mul_fe(sub_fe(t_lde[i], t_zg), inv_fe(sub_fe(x, zg)));
            let t_zg2_term = mul_fe(sub_fe(t_lde[i], t_zg2), inv_fe(sub_fe(x, zg2)));
            let combined = add_fe(
                add_fe(
                    add_fe(mul_fe(h_term, betas[0]), mul_fe(t_z_term, betas[1])),
                    mul_fe(t_zg_term, betas[2]),
                ),
                mul_fe(t_zg2_term, betas[3]),
            );
            deep.push(combined);
            i = i + 1;
        }
        DeepComposition { deep_poly_lde: deep }
    }

    /// The final spot check: at a FRI-queried LDE index, recompute `D(x0)`
    /// from the committed `H(x0)` and `t(x0)` and the trusted
    /// out-of-domain values, and compare with the committed `D(x0)`.
    pub fn perform_final_spot_check(
        &self,
        arithmetization: &Arithmetization,
        composition: &Composition,
        z: u64,
        betas: &[u64; 4],
        x0_index: usize,
    ) -> (r: Result<(), FriError>)
        requires
            arithmetization.wf(),
            composition.wf(arithmetization.lde_domain@.len() as int),
            self.deep_lde().len() == arithmetization.lde_domain@.len(),
            x0_index < arithmetization.lde_domain@.len(),
            z < FIELD_MODULUS,
            forall|i: int| 0 <= i < 4 ==> #[trigger] betas@[i] < FIELD_MODULUS,
        ensures
            ({
                let g = arithmetization.domain_generator as int;
                let tp = arithmetization.trace_poly@;
                let cp = composition.composition_poly@;
                let zg = fe_mul(z as int, g);
                let zg2 = fe_mul(z as int, fe_mul(g, g));
                let x0 = arithmetization.lde_domain@[x0_index as int] as int;
                let reconstructed = deep_value(
                    composition.composition_poly_lde@[x0_index as int] as int,
                    fe_poly_eval(tp, x0),
                    fe_poly_eval(cp, z as int),
                    fe_poly_eval(tp, z as int),
                    fe_poly_eval(tp, zg),
                    fe_poly_eval(tp, zg2),
                    x0,
                    z as int,
                    zg,
                    zg2,
                    betas@,
                );
                r == (if self.deep_lde()[x0_index as int] == reconstructed {
                    Ok::<(), FriError>(())
                } else {
                    Err::<(), FriError>(FriError::FinalSpotCheckMismatch)
                })
            }),
    {
        let x0 = arithmetization.lde_domain[x0_index];
        let deep_x0 = self.deep_poly_lde[x0_index];
        let h_x0 = composition.composition_poly_lde[x0_index];
        let t_x0 = eval_fe(&arithmetization.trace_poly, x0);
        let g = arithmetization.domain_generator;
        let h_z = eval_fe(&composition.composition_poly, z);
        let t_z = eval_fe(&arithmetization.trace_poly, z);
        let zg = mul_fe(z, g);
        let zg2 = mul_fe(z, mul_fe(g, g));
        let t_zg = eval_fe(&arithmetization.trace_poly, zg);
        let t_zg2 = eval_fe(&arithmetization.trace_poly, zg2);
        let h_term = mul_fe(sub_fe(h_x0, h_z), inv_fe(sub_fe(x0, z)));
        let t_z_term = mul_fe(sub_fe(t_x0, t_z), inv_fe(sub_fe(x0, z)));
        let t_zg_term = mul_fe(sub_fe(t_x0, t_zg), inv_fe(sub_fe(x0, zg)));
        let t_zg2_term = mul_fe(sub_fe(t_x0, t_zg2), inv_fe(sub_fe(x0, zg2)));
        let reconstructed = add_fe(
            add_fe(
                add_fe(mul_fe(h_term, betas[0]), mul_fe(t_z_term, betas[1])),
                mul_fe(t_zg_term, betas[2]),
            ),
            mul_fe(t_zg2_term, betas[3]),
        );
        if deep_x0 == reconstructed {
            Ok(())
        } else {
            Err(FriError::FinalSpotCheckMismatch)
        }
    }
}

} // verus!
