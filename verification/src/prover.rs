//! The FRI prover: commit to the evaluations of a polynomial, fold them
//! layer by layer under transcript challenges down to a single value, and
//! answer transcript-sampled queries with Merkle decommitments.
//!
//! Every phase is pinned to the specification model in `types`: given the
//! same polynomial and parameters, the proof — commitments, last value,
//! decommitments — is a function of nothing else, which is the transcript
//! determinism property, and the pinned proof is exactly what the verifier
//! accepts.

use vstd::prelude::*;
use vstd::arithmetic::power::pow;

use crate::backend::{
    absorb_event, block_event, merkle_build, merkle_path, merkle_path_of, merkle_root,
    merkle_root_of, merkle_verify_spec, transcript_block_of, transcript_felt_of, tree_leaves,
    Transcript,
};
use crate::error::FriError;
use crate::felt::{
    add_fe, fe_reduced, inv_fe, mul_fe, sub_fe, FIELD_MODULUS,
};
use crate::types::{
    be_val, decommit_matches, eval_seq, felt_bytes, felt_to_bytes, half_size, hist_after_fold,
    index_from_block, layer_index, layer_model, lemma_half_size_folds, lemma_layer_model_sizes,
    num_folds, protocol_id, protocol_id_spec, push_blocks, query_index, spec_fold_domain,
    spec_fold_evals, sym_index, FriLayer, FriParameters, FriProof, QueryDecommitment,
};

verus! {

/// Copies a vector of residues.
pub fn copy_vec_u64(v: &Vec<u64>) -> (r: Vec<u64>)
    ensures
        r@ == v@,
{
    let mut r: Vec<u64> = Vec::new();
    let mut i: usize = 0;
    while i < v.len()
        invariant
            i <= v@.len(),
            r@ == v@.take(i as int),
        decreases v@.len() - i,
    {
        let ghost r0 = r@;
        r.push(v[i]);
        proof {
            assert(r@ =~= v@.take(i + 1int));
        }
        i = i + 1;
    }
    proof {
        assert(v@.take(v@.len() as int) =~= v@);
    }
    r
}

/// Turns a 32-byte digest into a byte vector for transcript absorption.
pub fn bytes32_to_vec(a: &[u8; 32]) -> (r: Vec<u8>)
    ensures
        r@ == a@,
{
    let mut r: Vec<u8> = Vec::new();
    let mut i: usize = 0;
    while i < 32
        invariant
            i <= 32,
            r@ == a@.take(i as int),
        decreases 32 - i,
    {
        r.push(a[i]);
        proof {
            assert(r@ =~= a@.take(i + 1int));
        }
        i = i + 1;
    }
    proof {
        assert(a@.take(32int) =~= a@);
    }
    r
}

/// `256^k` for the byte positions of a big-endian `u64`.
pub proof fn lemma_pow256()
    ensures
        pow(256, 0) == 1,
        pow(256, 1) == 0x100,
        pow(256, 2) == 0x10000,
        pow(256, 3) == 0x1000000,
        pow(256, 4) == 0x100000000,
        pow(256, 5) == 0x10000000000,
        pow(256, 6) == 0x1000000000000,
        pow(256, 7) == 0x100000000000000,
        pow(256, 8) == 0x10000000000000000,
{
    vstd::arithmetic::power::lemma_pow0(256);
    vstd::arithmetic::power::lemma_pow1(256);
    vstd::arithmetic::power::lemma_pow_adds(256, 1, 1);
    assert(pow(256, 2) == 0x100int * 0x100int);
    vstd::arithmetic::power::lemma_pow_adds(256, 2, 1);
    assert(pow(256, 3) == 0x10000int * 0x100int);
    vstd::arithmetic::power::lemma_pow_adds(256, 3, 1);
    assert(pow(256, 4) == 0x1000000int * 0x100int);
    vstd::arithmetic::power::lemma_pow_adds(256, 4, 1);
    assert(pow(256, 5) == 0x100000000int * 0x100int);
    vstd::arithmetic::power::lemma_pow_adds(256, 5, 1);
    assert(pow(256, 6) == 0x10000000000int * 0x100int);
    vstd::arithmetic::power::lemma_pow_adds(256, 6, 1);
    assert(pow(256, 7) == 0x1000000000000int * 0x100int);
    vstd::arithmetic::power::lemma_pow_adds(256, 7, 1);
    assert(pow(256, 8) == 0x100000000000000int * 0x100int);
}

/// A big-endian byte string of length `n` denotes a value below `256^n`.
pub proof fn lemma_be_val_bound(b: Seq<u8>)
    ensures
        0 <= be_val(b) < pow(256, b.len()),
    decreases b.len(),
{
    if b.len() == 0 {
        vstd::arithmetic::power::lemma_pow0(256);
    } else {
        lemma_be_val_bound(b.drop_last());
        vstd::arithmetic::power::lemma_pow_adds(256, (b.len() - 1) as nat, 1);
        vstd::arithmetic::power::lemma_pow1(256);
        assert(pow(256, b.len()) == pow(256, (b.len() - 1) as nat) * 256);
        assert(be_val(b.drop_last()) * 256 + b.last() < pow(256, (b.len() - 1) as nat) * 256)
            by (nonlinear_arith)
            requires
                be_val(b.drop_last()) < pow(256, (b.len() - 1) as nat),
                0 <= be_val(b.drop_last()),
                b.last() < 256,
        ;
        assert(0 <= be_val(b.drop_last()) * 256) by (nonlinear_arith)
            requires
                0 <= be_val(b.drop_last()),
        ;
    }
}

/// Transcript determinism: two proofs pinned to the same polynomial,
/// domain and query count agree in every observable field — byte-identical
/// commitments and authentication paths, and equal evaluations. Since
/// `prove` pins every proof it returns, two independent runs on identical
/// inputs produce identical proofs.
pub proof fn lemma_prove_deterministic(
    pr1: FriProof,
    pr2: FriProof,
    coeffs: Seq<u64>,
    d0: Seq<u64>,
)
    requires
        crate::types::prover_pins(pr1, coeffs, d0),
        crate::types::prover_pins(pr2, coeffs, d0),
        pr1.query_decommitments@.len() == pr2.query_decommitments@.len(),
    ensures
        pr1.layer_commitments.deep_view() == pr2.layer_commitments.deep_view(),
        pr1.last_layer_value == pr2.last_layer_value,
        forall|q: int|
            0 <= q < pr1.query_decommitments@.len() ==> {
                &&& (#[trigger] pr1.query_decommitments@[q]).layer_evaluations@
                    == pr2.query_decommitments@[q].layer_evaluations@
                &&& pr1.query_decommitments@[q].layer_evaluations_sym@
                    == pr2.query_decommitments@[q].layer_evaluations_sym@
                &&& pr1.query_decommitments@[q].layer_auth_paths.deep_view()
                    == pr2.query_decommitments@[q].layer_auth_paths.deep_view()
                &&& pr1.query_decommitments@[q].layer_auth_paths_sym.deep_view()
                    == pr2.query_decommitments@[q].layer_auth_paths_sym.deep_view()
            },
{
    reveal(crate::types::decommit_matches);
    let e0 = eval_seq(coeffs, d0);
    let h0 = crate::types::initial_hist(e0);
    let k = num_folds(e0.len());
    assert(pr1.layer_commitments.deep_view() =~= pr2.layer_commitments.deep_view()) by {
        assert forall|j: int| 0 <= j <= k implies pr1.layer_commitments.deep_view()[j]
            == pr2.layer_commitments.deep_view()[j] by {
            assert(pr1.layer_commitments.deep_view()[j] =~= pr1.layer_commitments@[j]@);
            assert(pr2.layer_commitments.deep_view()[j] =~= pr2.layer_commitments@[j]@);
        }
    };
    assert forall|q: int| 0 <= q < pr1.query_decommitments@.len() implies {
        &&& (#[trigger] pr1.query_decommitments@[q]).layer_evaluations@
            == pr2.query_decommitments@[q].layer_evaluations@
        &&& pr1.query_decommitments@[q].layer_evaluations_sym@
            == pr2.query_decommitments@[q].layer_evaluations_sym@
        &&& pr1.query_decommitments@[q].layer_auth_paths.deep_view()
            == pr2.query_decommitments@[q].layer_auth_paths.deep_view()
        &&& pr1.query_decommitments@[q].layer_auth_paths_sym.deep_view()
            == pr2.query_decommitments@[q].layer_auth_paths_sym.deep_view()
    } by {
        let dec1 = pr1.query_decommitments@[q];
        let dec2 = pr2.query_decommitments@[q];
        let evs = Seq::new((k + 1) as nat, |jj: int| layer_model(e0, d0, h0, jj as nat).evals);
        let n0 = d0.len() as int;
        let qi = query_index(hist_after_fold(e0, d0, h0, k), q as nat, n0);
        assert(decommit_matches(dec1, evs, n0, qi));
        assert(decommit_matches(dec2, evs, n0, qi));
        assert(dec1.layer_evaluations@.len() == k + 1);
        assert(dec2.layer_evaluations@.len() == k + 1);
        assert forall|j: int| 0 <= j <= k implies #[trigger] dec1.layer_evaluations@[j]
            == dec2.layer_evaluations@[j] by {
            let p1 = dec1.layer_auth_paths@[j];
            let p2 = dec2.layer_auth_paths@[j];
        }
        assert(dec1.layer_evaluations@ =~= dec2.layer_evaluations@);
        assert forall|j: int| 0 <= j <= k implies #[trigger] dec1.layer_evaluations_sym@[j]
            == dec2.layer_evaluations_sym@[j] by {
            let p1 = dec1.layer_auth_paths@[j];
            let p2 = dec2.layer_auth_paths@[j];
        }
        assert(dec1.layer_evaluations_sym@ =~= dec2.layer_evaluations_sym@);
        assert forall|j: int| 0 <= j <= k implies dec1.layer_auth_paths.deep_view()[j]
            == dec2.layer_auth_paths.deep_view()[j] by {
            let p1 = dec1.layer_auth_paths@[j];
            let p2 = dec2.layer_auth_paths@[j];
            assert(dec1.layer_auth_paths.deep_view()[j] == p1.deep_view());
            assert(dec2.layer_auth_paths.deep_view()[j] == p2.deep_view());
        }
        assert(dec1.layer_auth_paths.deep_view() =~= dec2.layer_auth_paths.deep_view());
        assert forall|j: int| 0 <= j <= k implies dec1.layer_auth_paths_sym.deep_view()[j]
            == dec2.layer_auth_paths_sym.deep_view()[j] by {
            let p1 = dec1.layer_auth_paths_sym@[j];
            let p2 = dec2.layer_auth_paths_sym@[j];
            let q1 = dec1.layer_auth_paths@[j];
            let q2 = dec2.layer_auth_paths@[j];
            assert(dec1.layer_auth_paths_sym.deep_view()[j] == p1.deep_view());
            assert(dec2.layer_auth_paths_sym.deep_view()[j] == p2.deep_view());
        }
        assert(dec1.layer_auth_paths_sym.deep_view() =~= dec2.layer_auth_paths_sym.deep_view());
    }
}

/// The prover for the FRI protocol.
pub struct Prover {
    poly: Vec<u64>,
    params: FriParameters,
    transcript: Transcript,
}

impl Prover {
    /// The coefficients of the committed polynomial.
    pub closed spec fn poly_spec(&self) -> Seq<u64> {
        self.poly@
    }

    /// The initial evaluation domain.
    pub closed spec fn domain_spec(&self) -> Seq<u64> {
        self.params.domain@
    }

    /// The number of queries answered.
    pub closed spec fn num_queries_spec(&self) -> int {
        self.params.num_queries as int
    }

    /// The transcript history so far.
    pub closed spec fn hist(&self) -> Seq<Seq<u8>> {
        self.transcript@
    }

    /// The inputs are canonical residues and the domain is usable: a
    /// power-of-two number of points, as every FRI evaluation domain has.
    pub closed spec fn wf(&self) -> bool {
        &&& fe_reduced(self.poly@)
        &&& fe_reduced(self.params.domain@)
        &&& self.params.domain@.len() >= 1
        &&& crate::field::is_pow2_spec(self.params.domain@.len() as int)
    }

    /// Creates a prover for the given polynomial and parameters, with a
    /// transcript freshly seeded by the protocol id.
    pub fn new(poly: Vec<u64>, params: FriParameters) -> (r: Self)
        requires
            fe_reduced(poly@),
            fe_reduced(params.domain@),
            params.domain@.len() >= 1,
            crate::field::is_pow2_spec(params.domain@.len() as int),
        ensures
            r.wf(),
            r.poly_spec() == poly@,
            r.domain_spec() == params.domain@,
            r.num_queries_spec() == params.num_queries as int,
            r.hist() == seq![absorb_event(protocol_id_spec())],
    {
        let id = protocol_id();
        Self { poly, params, transcript: Transcript::new(&id) }
    }

    /// Folds a layer of evaluations under the challenge `beta`: entry `i`
    /// of the result combines the evaluations at `x = domain[i]` and at
    /// `-x` into the evaluation of the even-plus-`beta`-times-odd part at
    /// `x^2`. The folded domain is the squares of the first half.
    pub fn fold_evaluations(evaluations: &Vec<u64>, domain: &Vec<u64>, beta: u64) -> (r: (
        Vec<u64>,
        Vec<u64>,
    ))
        requires
            fe_reduced(evaluations@),
            fe_reduced(domain@),
            domain@.len() == evaluations@.len(),
            beta < FIELD_MODULUS,
        ensures
            r.0@ == spec_fold_evals(evaluations@, domain@, beta),
            r.1@ == spec_fold_domain(domain@),
            fe_reduced(r.0@),
            fe_reduced(r.1@),
    {
        let n: usize = evaluations.len();
        let next_size: usize = n / 2;
        let two_inv = inv_fe(2);
        let mut next_evals: Vec<u64> = Vec::new();
        let mut i: usize = 0;
        while i < next_size
            invariant
                fe_reduced(evaluations@),
                fe_reduced(domain@),
                domain@.len() == evaluations@.len(),
                beta < FIELD_MODULUS,
                n == evaluations@.len(),
                next_size == n / 2,
                two_inv == crate::felt::fe_inv(2),
                i <= next_size,
                next_evals@ == spec_fold_evals(evaluations@, domain@, beta).take(i as int),
                fe_reduced(next_evals@),
            decreases next_size - i,
        {
            let y = evaluations[i];
            let y_sym = evaluations[i + next_size];
            let x = domain[i];
            let x_inv = inv_fe(x);
            let f_even = mul_fe(add_fe(y, y_sym), two_inv);
            let f_odd = mul_fe(mul_fe(sub_fe(y, y_sym), two_inv), x_inv);
            let folded = add_fe(f_even, mul_fe(beta, f_odd));
            next_evals.push(folded);
            proof {
                assert(next_evals@ =~= spec_fold_evals(evaluations@, domain@, beta).take(
                    i + 1int,
                ));
            }
            i = i + 1;
        }
        let mut next_domain: Vec<u64> = Vec::new();
        let mut j: usize = 0;
        while j < next_size
            invariant
                fe_reduced(domain@),
                next_size <= domain@.len() / 2,
                j <= next_size,
                next_domain@ == spec_fold_domain(domain@).take(j as int),
                fe_reduced(next_domain@),
            decreases next_size - j,
        {
            next_domain.push(mul_fe(domain[j], domain[j]));
            proof {
                assert(next_domain@ =~= spec_fold_domain(domain@).take(j + 1int));
            }
            j = j + 1;
        }
        proof {
            assert(next_evals@ =~= spec_fold_evals(evaluations@, domain@, beta));
            assert(next_domain@ =~= spec_fold_domain(domain@));
        }
        (next_evals, next_domain)
    }

    /// Samples a query index: squeeze 32 bytes, read the first 8 as a
    /// big-endian integer, and reduce modulo the domain size.
    fn sample_index(&mut self, max_value: usize) -> (r: usize)
        requires
            max_value >= 1,
        ensures
            r == index_from_block(transcript_block_of(old(self).hist()), max_value as int),
            r < max_value,
            final(self).hist() == old(self).hist().push(block_event()),
            final(self).wf() == old(self).wf(),
            final(self).poly_spec() == old(self).poly_spec(),
            final(self).domain_spec() == old(self).domain_spec(),
            final(self).num_queries_spec() == old(self).num_queries_spec(),
    {
        let block = self.transcript.sample_block();
        let ghost bs = block@;
        let mut acc: u64 = 0;
        let mut i: usize = 0;
        proof {
            lemma_pow256();
            assert(bs.take(0int) =~= Seq::<u8>::empty());
        }
        while i < 8
            invariant
                bs == block@,
                bs.len() == 32,
                i <= 8,
                acc == be_val(bs.take(i as int)),
                acc < pow(256, i as nat),
                pow(256, i as nat) <= 0x10000000000000000,
            decreases 8 - i,
        {
            proof {
                lemma_pow256();
                let s1 = bs.take(i + 1int);
                assert(s1.drop_last() =~= bs.take(i as int));
                lemma_be_val_bound(bs.take(i + 1int));
            }
            acc = acc * 256 + (block[i] as u64);
            i = i + 1;
        }
        proof {
            lemma_pow256();
        }
        let idx = (acc % (max_value as u64)) as usize;
        proof {
            vstd::arithmetic::div_mod::lemma_mod_bound(acc as int, max_value as int);
        }
        idx
    }

    /// The commit phase: evaluate the polynomial over the initial domain,
    /// commit to the evaluations in a Merkle tree, and absorb the root.
    fn commit_phase(&mut self) -> (r: Result<FriLayer, FriError>)
        requires
            old(self).wf(),
        ensures
            r is Ok,
            r matches Ok(layer) ==> {
                &&& layer.wf()
                &&& layer.evaluations@ == eval_seq(old(self).poly_spec(), old(self).domain_spec())
                &&& layer.domain@ == old(self).domain_spec()
                &&& final(self).hist() == old(self).hist().push(
                    absorb_event(
                        merkle_root_of(eval_seq(old(self).poly_spec(), old(self).domain_spec())),
                    ),
                )
            },
            final(self).wf(),
            final(self).poly_spec() == old(self).poly_spec(),
            final(self).domain_spec() == old(self).domain_spec(),
            final(self).num_queries_spec() == old(self).num_queries_spec(),
    {
        let evaluations = crate::backend::poly_eval_slice(&self.poly, &self.params.domain);
        proof {
            assert(evaluations@ =~= eval_seq(self.poly@, self.params.domain@));
        }
        let tree_opt = merkle_build(&evaluations);
        match tree_opt {
            None => {
                // The domain is nonempty, so the tree always builds.
                proof {
                    assert(false);
                }
                Err(FriError::MerkleConstructionError { layer: 0 })
            },
            Some(tree) => {
                let root = merkle_root(&tree);
                let root_bytes = bytes32_to_vec(&root);
                self.transcript.append_bytes(&root_bytes);
                let domain = copy_vec_u64(&self.params.domain);
                Ok(FriLayer { evaluations, merkle_tree: tree, domain })
            },
        }
    }

    /// The fold phase: repeatedly sample a challenge, fold the last
    /// layer's evaluations onto the squared domain, commit the new layer
    /// and absorb its root, until a single evaluation remains; finally
    /// absorb the last value's serialization.
    pub fn fold_phase(&mut self, initial_layer: FriLayer) -> (r: Result<
        (Vec<FriLayer>, u64),
        FriError,
    >)
        requires
            initial_layer.wf(),
            crate::field::is_pow2_spec(initial_layer.evaluations@.len() as int),
        ensures
            r is Ok,
            r matches Ok(pair) ==> ({
                let e0 = initial_layer.evaluations@;
                let d0 = initial_layer.domain@;
                let h0 = old(self).hist();
                let k = num_folds(e0.len());
                &&& pair.0@.len() == k + 1
                &&& (forall|j: int| 0 <= j <= k ==> (#[trigger] pair.0@[j]).wf())
                &&& (forall|j: int|
                    0 <= j <= k ==> (#[trigger] pair.0@[j]).evaluations@ == layer_model(
                        e0,
                        d0,
                        h0,
                        j as nat,
                    ).evals)
                &&& (forall|j: int|
                    0 <= j <= k ==> (#[trigger] pair.0@[j]).domain@ == layer_model(
                        e0,
                        d0,
                        h0,
                        j as nat,
                    ).domain)
                &&& pair.1 == layer_model(e0, d0, h0, k).evals[0]
                &&& pair.1 < FIELD_MODULUS
                &&& final(self).hist() == hist_after_fold(e0, d0, h0, k)
            }),
            final(self).wf() == old(self).wf(),
            final(self).poly_spec() == old(self).poly_spec(),
            final(self).domain_spec() == old(self).domain_spec(),
            final(self).num_queries_spec() == old(self).num_queries_spec(),
    {
        let ghost e0 = initial_layer.evaluations@;
        let ghost d0 = initial_layer.domain@;
        let ghost h0 = self.hist();
        let ghost n0 = e0.len() as int;
        let ghost k = num_folds(e0.len());
        let mut cur_len: usize = initial_layer.evaluations.len();
        let mut layers: Vec<FriLayer> = Vec::new();
        layers.push(initial_layer);
        while cur_len > 1
            invariant
                1 <= layers@.len() <= k + 1,
                n0 == e0.len(),
                n0 >= 1,
                e0.len() == d0.len(),
                k == num_folds(e0.len()),
                cur_len == layers@[layers@.len() - 1].evaluations@.len(),
                cur_len == half_size(n0, (layers@.len() - 1) as nat),
                crate::field::is_pow2_spec(cur_len as int),
                forall|j: int| 0 <= j < layers@.len() ==> (#[trigger] layers@[j]).wf(),
                forall|j: int|
                    0 <= j < layers@.len() ==> (#[trigger] layers@[j]).evaluations@
                        == layer_model(e0, d0, h0, j as nat).evals,
                forall|j: int|
                    0 <= j < layers@.len() ==> (#[trigger] layers@[j]).domain@ == layer_model(
                        e0,
                        d0,
                        h0,
                        j as nat,
                    ).domain,
                self.hist() == layer_model(e0, d0, h0, (layers@.len() - 1) as nat).hist,
                self.wf() == old(self).wf(),
                self.poly_spec() == old(self).poly_spec(),
                self.domain_spec() == old(self).domain_spec(),
                self.num_queries_spec() == old(self).num_queries_spec(),
            decreases cur_len,
        {
            let ghost jprev = layers@.len() - 1;
            proof {
                lemma_half_size_folds(n0, jprev as nat);
                assert(jprev < k);
            }
            let idx = layers.len() - 1;
            let beta = self.transcript.sample_felt();
            let (next_evaluations, next_domain) = Self::fold_evaluations(
                &layers[idx].evaluations,
                &layers[idx].domain,
                beta,
            );
            let tree_opt = merkle_build(&next_evaluations);
            match tree_opt {
                None => {
                    // A folded layer keeps at least one evaluation, so the
                    // tree always builds.
                    proof {
                        assert(spec_fold_evals(
                            layers@[idx as int].evaluations@,
                            layers@[idx as int].domain@,
                            beta,
                        ).len() == cur_len / 2);
                        assert(false);
                    }
                    return Err(FriError::MerkleConstructionError { layer: idx + 1 });
                },
                Some(tree) => {
                    let root = merkle_root(&tree);
                    let root_bytes = bytes32_to_vec(&root);
                    self.transcript.append_bytes(&root_bytes);
                    cur_len = next_evaluations.len();
                    layers.push(
                        FriLayer {
                            evaluations: next_evaluations,
                            merkle_tree: tree,
                            domain: next_domain,
                        },
                    );
                    proof {
                        let jn = (jprev + 1) as nat;
                        assert(layer_model(e0, d0, h0, jn).evals == spec_fold_evals(
                            layer_model(e0, d0, h0, jprev as nat).evals,
                            layer_model(e0, d0, h0, jprev as nat).domain,
                            transcript_felt_of(layer_model(e0, d0, h0, jprev as nat).hist),
                        ));
                        assert(layers@[jprev + 1].evaluations@ == layer_model(
                            e0,
                            d0,
                            h0,
                            jn,
                        ).evals);
                        assert(layers@[jprev + 1].domain@ == layer_model(e0, d0, h0, jn).domain);
                        assert(self.hist() == layer_model(e0, d0, h0, jn).hist);
                        assert(forall|j: int|
                            0 <= j < layers@.len() - 1 ==> (#[trigger] layers@[j]).evaluations@
                                == layer_model(e0, d0, h0, j as nat).evals);
                    }
                },
            }
        }
        proof {
            let jlast = (layers@.len() - 1) as nat;
            lemma_half_size_folds(n0, jlast);
            assert(jlast == k);
        }
        let idx = layers.len() - 1;
        let last_value = layers[idx].evaluations[0];
        let lv_bytes = felt_to_bytes(last_value);
        self.transcript.append_bytes(&lv_bytes);
        Ok((layers, last_value))
    }

    /// The query phase: sample one index per query and walk every layer,
    /// recording the evaluation and Merkle path at the index and at its
    /// symmetric position, halving the index for the next layer.
    #[verifier::rlimit(100)]
    pub fn query_phase(&mut self, layers: &Vec<FriLayer>) -> (r: Vec<QueryDecommitment>)
        requires
            layers@.len() >= 1,
            forall|j: int| 0 <= j < layers@.len() ==> (#[trigger] layers@[j]).wf(),
            forall|j: int|
                0 <= j < layers@.len() ==> (#[trigger] layers@[j]).evaluations@.len() == half_size(
                    old(self).domain_spec().len() as int,
                    j as nat,
                ),
            old(self).domain_spec().len() >= 1,
        ensures
            r@.len() == old(self).num_queries_spec(),
            final(self).hist() == push_blocks(
                old(self).hist(),
                old(self).num_queries_spec() as nat,
            ),
            forall|q: int|
                0 <= q < r@.len() ==> decommit_matches(
                    #[trigger] r@[q],
                    layers@.map_values(|l: FriLayer| l.evaluations@),
                    old(self).domain_spec().len() as int,
                    query_index(old(self).hist(), q as nat, old(self).domain_spec().len() as int),
                ),
            final(self).wf() == old(self).wf(),
            final(self).poly_spec() == old(self).poly_spec(),
            final(self).domain_spec() == old(self).domain_spec(),
            final(self).num_queries_spec() == old(self).num_queries_spec(),
    {
        let ghost n0 = self.domain_spec().len() as int;
        let ghost h_start = self.hist();
        let ghost evs = layers@.map_values(|l: FriLayer| l.evaluations@);
        let num_queries = self.params.num_queries;
        let domain_len = self.params.domain.len();
        let kk = layers.len();
        let mut decommitments: Vec<QueryDecommitment> = Vec::new();
        let mut q: usize = 0;
        while q < num_queries
            invariant
                kk == layers@.len(),
                kk >= 1,
                n0 == self.domain_spec().len(),
                n0 >= 1,
                domain_len == n0,
                num_queries == self.num_queries_spec(),
                evs == layers@.map_values(|l: FriLayer| l.evaluations@),
                forall|j: int| 0 <= j < kk ==> (#[trigger] layers@[j]).wf(),
                forall|j: int|
                    0 <= j < kk ==> (#[trigger] layers@[j]).evaluations@.len() == half_size(
                        n0,
                        j as nat,
                    ),
                q <= num_queries,
                decommitments@.len() == q,
                self.hist() == push_blocks(h_start, q as nat),
                forall|qq: int|
                    0 <= qq < q ==> decommit_matches(
                        #[trigger] decommitments@[qq],
                        evs,
                        n0,
                        query_index(h_start, qq as nat, n0),
                    ),
                self.wf() == old(self).wf(),
                self.poly_spec() == old(self).poly_spec(),
                self.domain_spec() == old(self).domain_spec(),
                self.num_queries_spec() == old(self).num_queries_spec(),
                h_start == old(self).hist(),
            decreases num_queries - q,
        {
            let mut query_idx = self.sample_index(domain_len);
            let ghost q0 = query_index(h_start, q as nat, n0);
            proof {
                assert(query_idx == q0);
            }
            let mut layer_evaluations: Vec<u64> = Vec::new();
            let mut layer_auth_paths: Vec<Vec<[u8; 32]>> = Vec::new();
            let mut layer_evaluations_sym: Vec<u64> = Vec::new();
            let mut layer_auth_paths_sym: Vec<Vec<[u8; 32]>> = Vec::new();
            let mut j: usize = 0;
            while j < kk
                invariant
                    kk == layers@.len(),
                    n0 >= 1,
                    evs == layers@.map_values(|l: FriLayer| l.evaluations@),
                    forall|jj: int| 0 <= jj < kk ==> (#[trigger] layers@[jj]).wf(),
                    forall|jj: int|
                        0 <= jj < kk ==> (#[trigger] layers@[jj]).evaluations@.len() == half_size(
                            n0,
                            jj as nat,
                        ),
                    j <= kk,
                    query_idx == layer_index(n0, q0, j as nat),
                    j < kk ==> query_idx < half_size(n0, j as nat),
                    0 <= q0,
                    layer_evaluations@.len() == j,
                    layer_auth_paths@.len() == j,
                    layer_evaluations_sym@.len() == j,
                    layer_auth_paths_sym@.len() == j,
                    fe_reduced(layer_evaluations@),
                    fe_reduced(layer_evaluations_sym@),
                    forall|jj: int|
                        0 <= jj < j ==> #[trigger] layer_evaluations@[jj] == evs[jj][layer_index(
                            n0,
                            q0,
                            jj as nat,
                        )],
                    forall|jj: int|
                        0 <= jj < j ==> #[trigger] layer_evaluations_sym@[jj] == evs[jj][sym_index(
                            layer_index(n0, q0, jj as nat),
                            half_size(n0, jj as nat),
                        )],
                    forall|jj: int|
                        0 <= jj < j ==> (#[trigger] layer_auth_paths@[jj]).deep_view()
                            == crate::backend::merkle_path_of(
                            evs[jj],
                            layer_index(n0, q0, jj as nat),
                        ),
                    forall|jj: int|
                        0 <= jj < j ==> (#[trigger] layer_auth_paths_sym@[jj]).deep_view()
                            == crate::backend::merkle_path_of(
                            evs[jj],
                            sym_index(layer_index(n0, q0, jj as nat), half_size(n0, jj as nat)),
                        ),
                    forall|jj: int|
                        0 <= jj < j ==> merkle_verify_spec(
                            merkle_root_of(evs[jj]),
                            layer_index(n0, q0, jj as nat),
                            evs[jj][layer_index(n0, q0, jj as nat)],
                            (#[trigger] layer_auth_paths@[jj]).deep_view(),
                        ),
                    forall|jj: int|
                        0 <= jj < j ==> merkle_verify_spec(
                            merkle_root_of(evs[jj]),
                            sym_index(layer_index(n0, q0, jj as nat), half_size(n0, jj as nat)),
                            evs[jj][sym_index(
                                layer_index(n0, q0, jj as nat),
                                half_size(n0, jj as nat),
                            )],
                            (#[trigger] layer_auth_paths_sym@[jj]).deep_view(),
                        ),
                decreases kk - j,
            {
                let layer = &layers[j];
                let domain_size = layer.evaluations.len();
                let sym_idx = ((query_idx as u128 + (domain_size / 2) as u128)
                    % (domain_size as u128)) as usize;
                proof {
                    vstd::arithmetic::div_mod::lemma_mod_bound(
                        query_idx + domain_size / 2,
                        domain_size as int,
                    );
                    assert(sym_idx == sym_index(query_idx as int, half_size(n0, j as nat)));
                }
                proof {
                    assert(evs[j as int] == layers@[j as int].evaluations@);
                    assert(tree_leaves(layers@[j as int].merkle_tree) == evs[j as int]);
                }
                layer_evaluations.push(layer.evaluations[query_idx]);
                layer_auth_paths.push(merkle_path(&layer.merkle_tree, query_idx));
                layer_evaluations_sym.push(layer.evaluations[sym_idx]);
                layer_auth_paths_sym.push(merkle_path(&layer.merkle_tree, sym_idx));
                proof {
                    let idxj = layer_index(n0, q0, j as nat);
                    let symj = sym_index(idxj, half_size(n0, j as nat));
                    assert(idxj == query_idx as int);
                    assert(symj == sym_idx as int);
                    assert(layer_evaluations@[j as int] == evs[j as int][idxj]);
                    assert(layer_evaluations_sym@[j as int] == evs[j as int][symj]);
                    assert(layer_auth_paths@[j as int].deep_view()
                        == crate::backend::merkle_path_of(evs[j as int], idxj));
                    assert(layer_auth_paths_sym@[j as int].deep_view()
                        == crate::backend::merkle_path_of(evs[j as int], symj));
                    assert(merkle_verify_spec(
                        merkle_root_of(evs[j as int]),
                        idxj,
                        evs[j as int][idxj],
                        layer_auth_paths@[j as int].deep_view(),
                    ));
                    assert(merkle_verify_spec(
                        merkle_root_of(evs[j as int]),
                        symj,
                        evs[j as int][symj],
                        layer_auth_paths_sym@[j as int].deep_view(),
                    ));
                }
                let half = domain_size / 2;
                let modulus = if half >= 1 {
                    half
                } else {
                    1
                };
                query_idx = query_idx % modulus;
                proof {
                    assert(query_idx == layer_index(n0, q0, (j + 1) as nat));
                    if j + 1 < kk {
                        assert(half_size(n0, (j + 1) as nat) == half_size(n0, j as nat) / 2);
                        assert(layers@[j + 1].wf());
                        assert(layers@[j + 1].evaluations@.len() == half_size(n0, (j + 1) as nat));
                        assert(half_size(n0, (j + 1) as nat) >= 1);
                        assert(modulus == half);
                        vstd::arithmetic::div_mod::lemma_mod_bound(
                            layer_index(n0, q0, j as nat),
                            modulus as int,
                        );
                        assert(query_idx < half_size(n0, (j + 1) as nat));
                    }
                }
                j = j + 1;
            }
            let dec = QueryDecommitment {
                layer_evaluations,
                layer_auth_paths,
                layer_evaluations_sym,
                layer_auth_paths_sym,
            };
            proof {
                reveal(crate::types::decommit_matches);
                assert(decommit_matches(dec, evs, n0, q0));
            }
            decommitments.push(dec);
            q = q + 1;
        }
        decommitments
    }

    /// Runs the whole proving pipeline: commit, fold, query. The resulting
    /// proof is pinned, field by field, to the specification model of the
    /// pipeline, so it is a function of the polynomial and the parameters
    /// alone.
    pub fn prove(&mut self) -> (r: Result<FriProof, FriError>)
        requires
            old(self).wf(),
            old(self).hist() == seq![absorb_event(protocol_id_spec())],
        ensures
            r is Ok,
            r matches Ok(pr) ==> crate::types::prover_pins(
                pr,
                old(self).poly_spec(),
                old(self).domain_spec(),
            ),
            r matches Ok(pr) ==> pr.query_decommitments@.len() == old(self).num_queries_spec(),
            r matches Ok(pr) ==> pr.wf(old(self).domain_spec().len() as int),
            r matches Ok(pr) ==> (crate::types::subgroup_domain(old(self).domain_spec())
                ==> crate::fri_verifier::spec_verify(pr, old(self).domain_spec().len() as int)
                    == Ok::<(), FriError>(())),
    {
        let ghost e0 = eval_seq(self.poly_spec(), self.domain_spec());
        let ghost d0 = self.domain_spec();
        let ghost h0 = self.hist().push(absorb_event(merkle_root_of(e0)));
        let ghost n0 = d0.len() as int;
        let ghost k = num_folds(e0.len());
        let initial_layer = match self.commit_phase() {
            Ok(layer) => layer,
            Err(e) => {
                proof {
                    assert(false);
                }
                return Err(e);
            },
        };
        let (layers, last_value) = match self.fold_phase(initial_layer) {
            Ok(pair) => pair,
            Err(e) => {
                proof {
                    assert(false);
                }
                return Err(e);
            },
        };
        proof {
            assert forall|j: int| 0 <= j < layers@.len() implies (
            #[trigger] layers@[j]).evaluations@.len() == half_size(n0, j as nat) by {
                lemma_layer_model_sizes(e0, d0, h0, j as nat);
            }
        }
        let query_decommitments = self.query_phase(&layers);
        let mut layer_commitments: Vec<[u8; 32]> = Vec::new();
        let mut j: usize = 0;
        while j < layers.len()
            invariant
                layers@.len() == k + 1,
                forall|jj: int| 0 <= jj < layers@.len() ==> (#[trigger] layers@[jj]).wf(),
                forall|jj: int|
                    0 <= jj < layers@.len() ==> (#[trigger] layers@[jj]).evaluations@
                        == layer_model(e0, d0, h0, jj as nat).evals,
                j <= layers@.len(),
                layer_commitments@.len() == j,
                forall|jj: int|
                    0 <= jj < j ==> (#[trigger] layer_commitments@[jj])@ == merkle_root_of(
                        layer_model(e0, d0, h0, jj as nat).evals,
                    ),
            decreases layers@.len() - j,
        {
            layer_commitments.push(merkle_root(&layers[j].merkle_tree));
            j = j + 1;
        }
        proof {
            let evs_a = layers@.map_values(|l: FriLayer| l.evaluations@);
            let evs_b = Seq::new((k + 1) as nat, |jj: int| layer_model(e0, d0, h0, jj as nat).evals);
            assert(evs_a =~= evs_b);
        }
        let pr = FriProof { layer_commitments, last_layer_value: last_value, query_decommitments };
        proof {
            reveal(crate::types::decommit_matches);
            lemma_half_size_folds(n0, k);
            assert forall|q: int| 0 <= q < pr.query_decommitments@.len() implies (
            #[trigger] pr.query_decommitments@[q]).wf(pr.layer_commitments@.len() as int) by {
                assert(decommit_matches(
                    pr.query_decommitments@[q],
                    Seq::new((k + 1) as nat, |jj: int| layer_model(e0, d0, h0, jj as nat).evals),
                    n0,
                    query_index(hist_after_fold(e0, d0, h0, k), q as nat, n0),
                ));
            }
            assert(pr.wf(n0));
        }
        // When the parameters carry a genuine subgroup domain, obtain the
        // generator's unit facts from the backend and conclude that this
        // proof passes verification.
        let domain_len = self.params.domain.len();
        if domain_len >= 2 && domain_len <= 0x1000000 && crate::field::is_power_of_two(
            domain_len,
        ) {
            proof {
                crate::field::lemma_pow2_of_tz(domain_len as int);
                vstd::arithmetic::power2::lemma2_to64();
                crate::field::lemma_tz_le(domain_len as int, 24nat);
            }
            let root_order = crate::field::trailing_zeros(domain_len);
            let generator = crate::backend::primitive_root_of_unity(root_order);
            proof {
                if crate::types::subgroup_domain(self.domain_spec()) {
                    crate::fri_verifier::lemma_prove_verifies(
                        pr,
                        self.poly_spec(),
                        self.domain_spec(),
                        generator,
                    );
                }
            }
        }
        Ok(pr)
    }
}

} // verus!
