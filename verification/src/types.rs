//! The data carried through the FRI protocol — parameters, layers, proofs —
//! together with the specification-level model of the prover's pipeline:
//! how evaluations fold layer by layer, how the transcript history grows,
//! and which decommitments a query produces. The prover's contracts pin its
//! output to this model, which is what makes proofs reproducible
//! byte-for-byte and lets the verifier's success be proved for honest
//! proofs.

use vstd::prelude::*;
use vstd::arithmetic::power2::pow2;

use crate::backend::{
    absorb_event, block_event, felt_event, merkle_path_of, merkle_root_of, powers_of_root,
    transcript_block_of, transcript_felt_of, CommitTree,
};
use crate::felt::{fe_add, fe_exp, fe_inv, fe_mul, fe_reduced, fe_sub, FIELD_MODULUS};
use crate::field::{is_pow2_spec, lemma_tz_le, trailing_zeros, tz_spec};

verus! {

/// The transcript seed both parties agree on before the protocol starts.
pub open spec fn protocol_id_spec() -> Seq<u8> {
    seq![69u8, 100u8, 117u8, 99u8, 97u8, 116u8, 105u8, 111u8, 110u8, 97u8, 108u8, 32u8, 70u8, 82u8, 73u8]
}

/// The protocol id, `"Educational FRI"` as bytes.
pub fn protocol_id() -> (r: Vec<u8>)
    ensures
        r@ == protocol_id_spec(),
{
    let mut v: Vec<u8> = Vec::new();
    v.push(69);
    v.push(100);
    v.push(117);
    v.push(99);
    v.push(97);
    v.push(116);
    v.push(105);
    v.push(111);
    v.push(110);
    v.push(97);
    v.push(108);
    v.push(32);
    v.push(70);
    v.push(82);
    v.push(73);
    proof {
        assert(v@ =~= protocol_id_spec());
    }
    v
}

/// Shared parameters for the FRI protocol, agreed upon by the prover and
/// the verifier.
#[derive(Debug, Clone)]
pub struct FriParameters {
    /// The initial evaluation domain.
    pub domain: Vec<u64>,
    /// How many queries the verifier makes to check the proof.
    pub num_queries: usize,
}

/// The sequence is a genuine subgroup evaluation domain: a power-of-two
/// number of points, no more than the field's largest two-adic subgroup,
/// listed as the consecutive powers of the primitive root of unity of that
/// order.
pub open spec fn subgroup_domain(d: Seq<u64>) -> bool {
    &&& d.len() >= 2
    &&& is_pow2_spec(d.len() as int)
    &&& d.len() <= 0x1000000
    &&& forall|i: int|
        0 <= i < d.len() ==> #[trigger] d[i] == fe_exp(
            crate::backend::root_of_unity(tz_spec(d.len() as int)) as int,
            i as nat,
        )
    &&& fe_reduced(d)
}

impl FriParameters {
    /// The domain is the full subgroup of its size, listed as consecutive
    /// powers of the primitive root of unity of that order.
    pub open spec fn domain_wf(&self) -> bool {
        subgroup_domain(self.domain@)
    }

    /// Builds the parameters: an evaluation domain of size
    /// `(claimed_degree + 1) * blowup_factor` and the query count. The
    /// domain size must be a power of two no larger than `2^24`, the
    /// largest two-adic subgroup the backend field offers.
    pub fn new(claimed_degree: usize, blowup_factor: usize, num_queries: usize) -> (r: Self)
        requires
            is_pow2_spec((claimed_degree + 1) * blowup_factor),
            (claimed_degree + 1) * blowup_factor >= 2,
            (claimed_degree + 1) * blowup_factor <= 0x1000000,
        ensures
            r.domain_wf(),
            r.domain@.len() == (claimed_degree + 1) * blowup_factor,
            r.num_queries == num_queries,
            // Subgroup symmetry: the second half of the domain consists of
            // the negations of the first half, point by point.
            forall|i: int|
                0 <= i < r.domain@.len() / 2 ==> #[trigger] r.domain@[i + r.domain@.len() / 2]
                    as int == (FIELD_MODULUS - r.domain@[i] as int) % (FIELD_MODULUS as int),
    {
        proof {
            assert(claimed_degree + 1 <= 0x1000000 && blowup_factor <= 0x1000000)
                by (nonlinear_arith)
                requires
                    (claimed_degree + 1) * blowup_factor <= 0x1000000,
                    (claimed_degree + 1) * blowup_factor >= 2,
                    claimed_degree >= 0,
                    blowup_factor >= 0,
            ;
        }
        let domain_size: usize = (claimed_degree + 1) * blowup_factor;
        let root_order: u64 = trailing_zeros(domain_size);
        proof {
            vstd::arithmetic::power2::lemma2_to64();
            lemma_tz_le(domain_size as int, 24nat);
            crate::field::lemma_pow2_of_tz(domain_size as int);
        }
        let generator = crate::backend::primitive_root_of_unity(root_order);
        let domain = powers_of_root(root_order, domain_size);
        proof {
            let g = generator as int;
            let nn = domain_size as int;
            let half = nn / 2;
            vstd::arithmetic::power2::lemma_pow2_unfold(tz_spec(nn));
            assert(half == pow2((tz_spec(nn) - 1) as nat));
            assert forall|i: int| 0 <= i < half implies #[trigger] domain@[i + half] as int == (
            FIELD_MODULUS - domain@[i] as int) % (FIELD_MODULUS as int) by {
                crate::felt::lemma_fe_exp_adds(g, i as nat, half as nat);
                crate::felt::lemma_fe_exp_in_range(g, i as nat);
                crate::felt::lemma_fe_neg_one_mul(crate::felt::fe_exp(g, i as nat));
                assert(domain@[i + half] as int == crate::felt::fe_mul(
                    crate::felt::fe_exp(g, i as nat),
                    (FIELD_MODULUS - 1) as int,
                ));
            }
        }
        Self { domain, num_queries }
    }
}

/// One layer of the FRI commitment-folding pipeline: the evaluations, the
/// Merkle tree committing to them, and the evaluation domain.
pub struct FriLayer {
    /// The evaluations of this layer's polynomial.
    pub evaluations: Vec<u64>,
    /// The Merkle tree over the evaluations.
    pub merkle_tree: CommitTree,
    /// The domain over which the evaluations were taken.
    pub domain: Vec<u64>,
}

impl FriLayer {
    /// The tree commits exactly to the evaluations, everything is reduced,
    /// and the domain lists one point per evaluation.
    pub open spec fn wf(&self) -> bool {
        &&& crate::backend::tree_leaves(self.merkle_tree) == self.evaluations@
        &&& fe_reduced(self.evaluations@)
        &&& fe_reduced(self.domain@)
        &&& self.domain@.len() == self.evaluations@.len()
        &&& self.evaluations@.len() >= 1
    }
}

/// A decommitment for a single query: per layer, the evaluation at the
/// query index, the evaluation at the symmetric index, and both Merkle
/// authentication paths.
#[derive(Debug, Clone)]
pub struct QueryDecommitment {
    /// The evaluation at the query index, one per layer.
    pub layer_evaluations: Vec<u64>,
    /// The Merkle path for each entry of `layer_evaluations`.
    pub layer_auth_paths: Vec<Vec<[u8; 32]>>,
    /// The evaluation at the symmetric index, one per layer.
    pub layer_evaluations_sym: Vec<u64>,
    /// The Merkle path for each entry of `layer_evaluations_sym`.
    pub layer_auth_paths_sym: Vec<Vec<[u8; 32]>>,
}

impl QueryDecommitment {
    /// All four lists cover exactly `k` layers, with reduced evaluations.
    pub open spec fn wf(&self, k: int) -> bool {
        &&& self.layer_evaluations@.len() == k
        &&& self.layer_auth_paths@.len() == k
        &&& self.layer_evaluations_sym@.len() == k
        &&& self.layer_auth_paths_sym@.len() == k
        &&& fe_reduced(self.layer_evaluations@)
        &&& fe_reduced(self.layer_evaluations_sym@)
    }
}

/// The complete FRI proof sent from the prover to the verifier.
#[derive(Debug, Clone)]
pub struct FriProof {
    /// The Merkle root of each layer, first layer included.
    pub layer_commitments: Vec<[u8; 32]>,
    /// The single evaluation of the final, constant layer.
    pub last_layer_value: u64,
    /// One decommitment per query.
    pub query_decommitments: Vec<QueryDecommitment>,
}

impl FriProof {
    /// Structural well-formedness against an initial domain of size `n`:
    /// at least one commitment, no more layers than the domain can be
    /// halved, and every decommitment covering every layer. The verifier
    /// requires this shape; the prover guarantees it.
    pub open spec fn wf(&self, n: int) -> bool {
        &&& self.layer_commitments@.len() >= 1
        &&& half_size(n, (self.layer_commitments@.len() - 1) as nat) >= 1
        &&& self.last_layer_value < FIELD_MODULUS
        &&& forall|q: int|
            0 <= q < self.query_decommitments@.len() ==> (
            #[trigger] self.query_decommitments@[q]).wf(self.layer_commitments@.len() as int)
    }
}

/// One folded evaluation: `(y + y')/2 + beta * ((y - y')/2) / x`, written
/// with the `p - 2` power as the field inverse.
pub open spec fn fold_value(y: int, ysym: int, x: int, beta: int) -> int {
    fe_add(
        fe_mul(fe_add(y, ysym), fe_inv(2)),
        fe_mul(beta, fe_mul(fe_mul(fe_sub(y, ysym), fe_inv(2)), fe_inv(x))),
    )
}

/// The folded evaluation vector: half the length, entry `i` combining the
/// evaluations at `i` and at `i + len/2` through the domain point `d[i]`.
pub open spec fn spec_fold_evals(e: Seq<u64>, d: Seq<u64>, beta: u64) -> Seq<u64> {
    Seq::new(
        e.len() / 2,
        |i: int|
            fold_value(
                e[i] as int,
                e[i + e.len() / 2] as int,
                d[i] as int,
                beta as int,
            ) as u64,
    )
}

/// The folded domain: the squares of the first half of the points.
pub open spec fn spec_fold_domain(d: Seq<u64>) -> Seq<u64> {
    Seq::new(d.len() / 2, |i: int| fe_mul(d[i] as int, d[i] as int) as u64)
}

/// How many folds reduce a vector of length `n` to a single evaluation.
pub open spec fn num_folds(n: nat) -> nat
    decreases n,
{
    if n <= 1 {
        0
    } else {
        num_folds(n / 2) + 1
    }
}

/// The size of layer `j`: the initial size halved `j` times.
pub open spec fn half_size(n: int, j: nat) -> int
    decreases j,
{
    if j == 0 {
        n
    } else {
        half_size(n, (j - 1) as nat) / 2
    }
}

/// The evaluations of the polynomial with the given coefficients at each
/// point of `xs`.
pub open spec fn eval_seq(coeffs: Seq<u64>, xs: Seq<u64>) -> Seq<u64> {
    Seq::new(xs.len(), |i: int| crate::felt::fe_poly_eval(coeffs, xs[i] as int) as u64)
}

/// The state of the prover after committing layer `j`: that layer's
/// evaluations and domain, and the transcript history so far.
pub struct LayerModel {
    /// The evaluations of layer `j`.
    pub evals: Seq<u64>,
    /// The domain of layer `j`.
    pub domain: Seq<u64>,
    /// The transcript history just after layer `j`'s root was absorbed.
    pub hist: Seq<Seq<u8>>,
}

/// The prover's state after committing layer `j`, unrolled from the
/// initial evaluations `e0`, domain `d0` and history `h0` (the history
/// just after the first root was absorbed). Each further layer samples a
/// challenge, folds, and absorbs the new root.
pub open spec fn layer_model(e0: Seq<u64>, d0: Seq<u64>, h0: Seq<Seq<u8>>, j: nat) -> LayerModel
    decreases j,
{
    if j == 0 {
        LayerModel { evals: e0, domain: d0, hist: h0 }
    } else {
        let prev = layer_model(e0, d0, h0, (j - 1) as nat);
        let beta = transcript_felt_of(prev.hist);
        let e = spec_fold_evals(prev.evals, prev.domain, beta);
        LayerModel {
            evals: e,
            domain: spec_fold_domain(prev.domain),
            hist: prev.hist.push(felt_event()).push(absorb_event(merkle_root_of(e))),
        }
    }
}

/// The challenge used to fold layer `j` into layer `j + 1`.
pub open spec fn beta_model(e0: Seq<u64>, d0: Seq<u64>, h0: Seq<Seq<u8>>, j: nat) -> u64 {
    transcript_felt_of(layer_model(e0, d0, h0, j).hist)
}

/// The big-endian value of a byte sequence.
pub open spec fn be_val(b: Seq<u8>) -> int
    decreases b.len(),
{
    if b.len() == 0 {
        0
    } else {
        be_val(b.drop_last()) * 256 + b.last()
    }
}

/// The index sampled from a 32-byte block: the first 8 bytes read as a
/// big-endian integer, reduced modulo the domain size.
pub open spec fn index_from_block(b: Seq<u8>, max: int) -> int {
    be_val(b.take(8)) % max
}

/// The canonical big-endian byte serialization of a field element, absorbed
/// into the transcript for the last layer's value.
pub open spec fn felt_bytes(v: u64) -> Seq<u8> {
    seq![
        ((v as int / 0x100000000000000int) % 256) as u8,
        ((v as int / 0x1000000000000int) % 256) as u8,
        ((v as int / 0x10000000000int) % 256) as u8,
        ((v as int / 0x100000000int) % 256) as u8,
        ((v as int / 0x1000000int) % 256) as u8,
        ((v as int / 0x10000int) % 256) as u8,
        ((v as int / 0x100int) % 256) as u8,
        ((v as int) % 256) as u8,
    ]
}

/// Serializes a field element as 8 big-endian bytes.
pub fn felt_to_bytes(v: u64) -> (r: Vec<u8>)
    ensures
        r@ == felt_bytes(v),
{
    let mut r: Vec<u8> = Vec::new();
    r.push((v / 0x100000000000000 % 256) as u8);
    r.push((v / 0x1000000000000 % 256) as u8);
    r.push((v / 0x10000000000 % 256) as u8);
    r.push((v / 0x100000000 % 256) as u8);
    r.push((v / 0x1000000 % 256) as u8);
    r.push((v / 0x10000 % 256) as u8);
    r.push((v / 0x100 % 256) as u8);
    r.push((v % 256) as u8);
    proof {
        assert(r@ =~= felt_bytes(v));
    }
    r
}

/// The transcript history after the fold phase: the history of the last
/// layer followed by the absorb of the last layer's value.
pub open spec fn hist_after_fold(e0: Seq<u64>, d0: Seq<u64>, h0: Seq<Seq<u8>>, k: nat) -> Seq<
    Seq<u8>,
> {
    layer_model(e0, d0, h0, k).hist.push(
        absorb_event(felt_bytes(layer_model(e0, d0, h0, k).evals[0])),
    )
}

/// The history `h` extended by `q` block squeezes.
pub open spec fn push_blocks(h: Seq<Seq<u8>>, q: nat) -> Seq<Seq<u8>>
    decreases q,
{
    if q == 0 {
        h
    } else {
        push_blocks(h, (q - 1) as nat).push(block_event())
    }
}

/// The `q`-th query index sampled after history `h`, for a domain of size
/// `n0`.
pub open spec fn query_index(h: Seq<Seq<u8>>, q: nat, n0: int) -> int {
    index_from_block(transcript_block_of(push_blocks(h, q)), n0)
}

/// The symmetric position of `idx` in a layer of size `nj`.
pub open spec fn sym_index(idx: int, nj: int) -> int {
    (idx + nj / 2) % nj
}

/// The decommitment `dec` records, for every layer, the evaluations at the
/// walked-down query index and its symmetric position, together with
/// authentication paths that verify against the layer's Merkle root.
#[verifier::opaque]
pub open spec fn decommit_matches(
    dec: QueryDecommitment,
    evs: Seq<Seq<u64>>,
    n0: int,
    q0: int,
) -> bool {
    let kk = evs.len() as int;
    &&& dec.wf(kk)
    &&& forall|j: int|
        0 <= j < kk ==> {
            let idxj = layer_index(n0, q0, j as nat);
            let nj = half_size(n0, j as nat);
            let symj = sym_index(idxj, nj);
            &&& dec.layer_evaluations@[j] == evs[j][idxj]
            &&& dec.layer_evaluations_sym@[j] == evs[j][symj]
            &&& (#[trigger] dec.layer_auth_paths@[j]).deep_view() == merkle_path_of(evs[j], idxj)
            &&& dec.layer_auth_paths_sym@[j].deep_view() == merkle_path_of(evs[j], symj)
            &&& crate::backend::merkle_verify_spec(
                merkle_root_of(evs[j]),
                idxj,
                evs[j][idxj],
                dec.layer_auth_paths@[j].deep_view(),
            )
            &&& crate::backend::merkle_verify_spec(
                merkle_root_of(evs[j]),
                symj,
                evs[j][symj],
                dec.layer_auth_paths_sym@[j].deep_view(),
            )
        }
}

/// Halving `j` times starting from `n` is halving `j - 1` times starting
/// from `n / 2`.
pub proof fn lemma_half_size_shift(n: int, j: nat)
    requires
        j >= 1,
    ensures
        half_size(n, j) == half_size(n / 2, (j - 1) as nat),
    decreases j,
{
    if j == 1 {
        assert(half_size(n, 1) == half_size(n, 0) / 2);
        assert(half_size(n / 2, 0) == n / 2);
    } else {
        lemma_half_size_shift(n, (j - 1) as nat);
        assert(half_size(n, j) == half_size(n, (j - 1) as nat) / 2);
        assert(half_size(n / 2, (j - 1) as nat) == half_size(n / 2, (j - 2) as nat) / 2);
    }
}

/// Before the final fold every layer has at least two evaluations; after
/// exactly `num_folds(n)` halvings a single evaluation remains.
pub proof fn lemma_half_size_folds(n: int, j: nat)
    requires
        n >= 1,
        j <= num_folds(n as nat),
    ensures
        half_size(n, j) >= 1,
        j < num_folds(n as nat) ==> half_size(n, j) >= 2,
        j == num_folds(n as nat) ==> half_size(n, j) == 1,
    decreases j,
{
    if j == 0 {
    } else {
        lemma_half_size_shift(n, j);
        lemma_half_size_folds(n / 2, (j - 1) as nat);
    }
}

/// Layer `j` of the model has `half_size` evaluations and domain points.
pub proof fn lemma_layer_model_sizes(e0: Seq<u64>, d0: Seq<u64>, h0: Seq<Seq<u8>>, j: nat)
    requires
        d0.len() == e0.len(),
    ensures
        layer_model(e0, d0, h0, j).evals.len() == half_size(e0.len() as int, j),
        layer_model(e0, d0, h0, j).domain.len() == half_size(e0.len() as int, j),
    decreases j,
{
    if j > 0 {
        lemma_layer_model_sizes(e0, d0, h0, (j - 1) as nat);
    }
}

/// The query index walked down to layer `j`: reduced modulo half the
/// current layer size at each step.
pub open spec fn layer_index(n0: int, q0: int, j: nat) -> int
    decreases j,
{
    if j == 0 {
        q0
    } else {
        let prev = layer_index(n0, q0, (j - 1) as nat);
        let half = half_size(n0, (j - 1) as nat) / 2;
        prev % (if half >= 1 {
            half
        } else {
            1
        })
    }
}

/// The initial transcript history of the prover's model: the protocol id
/// absorbed, then the first layer's root.
pub open spec fn initial_hist(e0: Seq<u64>) -> Seq<Seq<u8>> {
    seq![absorb_event(protocol_id_spec())].push(absorb_event(merkle_root_of(e0)))
}

/// The proof `pr` is exactly what the honest prover produces for the
/// polynomial `coeffs` over the initial domain `d0`: every commitment is
/// the root of the modelled layer, the last value is the single final
/// evaluation, and every decommitment opens the modelled layers at the
/// transcript-sampled query index, with paths that verify.
pub open spec fn prover_pins(pr: FriProof, coeffs: Seq<u64>, d0: Seq<u64>) -> bool {
    let e0 = eval_seq(coeffs, d0);
    let h0 = initial_hist(e0);
    let n0 = d0.len() as int;
    let k = num_folds(e0.len());
    let hf = hist_after_fold(e0, d0, h0, k);
    &&& pr.layer_commitments@.len() == k + 1
    &&& (forall|j: int|
        0 <= j <= k ==> (#[trigger] pr.layer_commitments@[j])@ == merkle_root_of(
            layer_model(e0, d0, h0, j as nat).evals,
        ))
    &&& pr.last_layer_value == layer_model(e0, d0, h0, k).evals[0]
    &&& pr.last_layer_value < FIELD_MODULUS
    &&& (forall|q: int|
        0 <= q < pr.query_decommitments@.len() ==> decommit_matches(
            #[trigger] pr.query_decommitments@[q],
            Seq::new((k + 1) as nat, |j: int| layer_model(e0, d0, h0, j as nat).evals),
            n0,
            query_index(hf, q as nat, n0),
        ))
}

/// A power of two needs exactly its exponent many folds.
pub proof fn lemma_num_folds_pow2(t: nat)
    ensures
        num_folds(pow2(t)) == t,
    decreases t,
{
    vstd::arithmetic::power2::lemma2_to64();
    if t > 0 {
        lemma_num_folds_pow2((t - 1) as nat);
        vstd::arithmetic::power2::lemma_pow2_unfold(t);
        vstd::arithmetic::power2::lemma_pow2_pos((t - 1) as nat);
        assert(pow2(t) / 2 == pow2((t - 1) as nat));
    }
}

/// Halving a power of two `j` times leaves exactly `2^(t-j)`.
pub proof fn lemma_half_size_pow2_exact(t: nat, j: nat)
    requires
        j <= t,
    ensures
        half_size(pow2(t) as int, j) == pow2((t - j) as nat),
    decreases j,
{
    if j > 0 {
        lemma_half_size_pow2_exact(t, (j - 1) as nat);
        vstd::arithmetic::power2::lemma_pow2_unfold((t - j + 1) as nat);
        vstd::arithmetic::power2::lemma_pow2_pos((t - j) as nat);
    }
}

/// Over a power-of-two initial domain the walked-down query index at layer
/// `j` is simply the initial index reduced modulo the layer size.
pub proof fn lemma_layer_index_mod(t: nat, q0: int, j: nat)
    requires
        0 <= q0 < pow2(t),
        j <= t,
    ensures
        layer_index(pow2(t) as int, q0, j) == q0 % (pow2((t - j) as nat) as int),
    decreases j,
{
    vstd::arithmetic::power2::lemma_pow2_pos((t - j) as nat);
    if j == 0 {
        vstd::arithmetic::div_mod::lemma_small_mod(q0 as nat, pow2(t));
    } else {
        lemma_layer_index_mod(t, q0, (j - 1) as nat);
        lemma_half_size_pow2_exact(t, (j - 1) as nat);
        vstd::arithmetic::power2::lemma_pow2_unfold((t - j + 1) as nat);
        vstd::arithmetic::power2::lemma_pow2_pos((t - j + 1) as nat);
        // (q0 % (m * 2)) % m == q0 % m for the layer modulus m.
        vstd::arithmetic::div_mod::lemma_mod_mod(q0, pow2((t - j) as nat) as int, 2);
        assert(half_size(pow2(t) as int, (j - 1) as nat) / 2 == pow2((t - j) as nat));
    }
}

/// A folded evaluation is a reduced residue.
pub proof fn lemma_fold_value_in_range(y: int, ysym: int, x: int, beta: int)
    ensures
        0 <= fold_value(y, ysym, x, beta) < FIELD_MODULUS,
{
    vstd::arithmetic::div_mod::lemma_mod_bound(
        fe_mul(fe_add(y, ysym), fe_inv(2)) + fe_mul(
            beta,
            fe_mul(fe_mul(fe_sub(y, ysym), fe_inv(2)), fe_inv(x)),
        ),
        FIELD_MODULUS as int,
    );
}

/// Folding is symmetric between a domain point and its negation: swapping
/// the two evaluations while negating the point leaves the folded value
/// unchanged.
pub proof fn lemma_fold_value_sym(a: int, b: int, d: int, beta: int)
    requires
        0 <= a < FIELD_MODULUS,
        0 <= b < FIELD_MODULUS,
        0 <= d < FIELD_MODULUS,
    ensures
        fold_value(a, b, fe_mul(d, (FIELD_MODULUS - 1) as int), beta) == fold_value(
            b,
            a,
            d,
            beta,
        ),
{
    let p = FIELD_MODULUS as int;
    let m = (p - 1) as int;
    let i2 = fe_inv(2);
    let s = fe_sub(b, a);
    let id = fe_inv(d);
    crate::felt::lemma_fe_sub_antisym(a, b);
    crate::felt::lemma_fe_inv_neg(d);
    // ((s * m) * i2) == ((s * i2) * m)
    crate::felt::lemma_fe_mul_assoc(s, m, i2);
    crate::felt::lemma_fe_mul_assoc(s, i2, m);
    assert(fe_mul(m, i2) == fe_mul(i2, m));
    assert(fe_mul(fe_mul(s, m), i2) == fe_mul(fe_mul(s, i2), m));
    // ((s * i2) * m) * (id * m) == (s * i2) * (m * (id * m))
    crate::felt::lemma_fe_mul_assoc(fe_mul(s, i2), m, fe_mul(id, m));
    // m * (id * m) == id * (m * m) == id
    crate::felt::lemma_fe_mul_assoc(m, id, m);
    crate::felt::lemma_fe_mul_assoc(id, m, m);
    assert(fe_mul(m, id) == fe_mul(id, m));
    assert(m * m == 2013265920int * 2013265920int);
    assert((2013265920int * 2013265920int) % 2013265921int == 1int);
    assert(fe_mul(m, m) == 1);
    crate::felt::lemma_fe_exp_in_range(d, (p - 2) as nat);
    crate::felt::lemma_fe_mul_one(id);
    assert(fe_mul(m, fe_mul(id, m)) == id);
    assert(fe_mul(fe_mul(fe_sub(a, b), i2), fe_inv(fe_mul(d, m))) == fe_mul(fe_mul(s, i2), id));
    assert(fe_add(a, b) == fe_add(b, a));
}

/// Every layer of the model keeps its evaluations and domain reduced.
pub proof fn lemma_layer_model_reduced(e0: Seq<u64>, d0: Seq<u64>, h0: Seq<Seq<u8>>, j: nat)
    requires
        fe_reduced(e0),
        fe_reduced(d0),
    ensures
        fe_reduced(layer_model(e0, d0, h0, j).evals),
        fe_reduced(layer_model(e0, d0, h0, j).domain),
    decreases j,
{
    if j > 0 {
        lemma_layer_model_reduced(e0, d0, h0, (j - 1) as nat);
        let prev = layer_model(e0, d0, h0, (j - 1) as nat);
        let beta = crate::backend::transcript_felt_of(prev.hist);
        assert forall|i: int|
            0 <= i < spec_fold_evals(prev.evals, prev.domain, beta).len() implies #[trigger] (
        spec_fold_evals(prev.evals, prev.domain, beta)[i]) < FIELD_MODULUS by {
            lemma_fold_value_in_range(
                prev.evals[i] as int,
                prev.evals[i + prev.evals.len() / 2] as int,
                prev.domain[i] as int,
                beta as int,
            );
        }
        assert forall|i: int|
            0 <= i < spec_fold_domain(prev.domain).len() implies #[trigger] (spec_fold_domain(
            prev.domain,
        )[i]) < FIELD_MODULUS by {
            vstd::arithmetic::div_mod::lemma_mod_bound(
                prev.domain[i] as int * prev.domain[i] as int,
                FIELD_MODULUS as int,
            );
        }
    }
}

/// Every layer of the model evaluates over the powers of the squared
/// generator: entry `m` of layer `j`'s domain is `(g^(2^j))^m`.
pub proof fn lemma_layer_model_domain(
    e0: Seq<u64>,
    d0: Seq<u64>,
    h0: Seq<Seq<u8>>,
    g: u64,
    j: nat,
)
    requires
        g < FIELD_MODULUS,
        forall|i: int| 0 <= i < d0.len() ==> #[trigger] d0[i] == fe_exp(g as int, i as nat),
    ensures
        forall|m: int|
            0 <= m < layer_model(e0, d0, h0, j).domain.len() ==> #[trigger] (layer_model(
                e0,
                d0,
                h0,
                j,
            ).domain[m]) == fe_exp(fe_exp(g as int, pow2(j)), m as nat),
    decreases j,
{
    vstd::arithmetic::power2::lemma2_to64();
    if j == 0 {
        assert forall|m: int| 0 <= m < d0.len() implies #[trigger] (d0[m]) == fe_exp(
            fe_exp(g as int, pow2(0)),
            m as nat,
        ) by {
            crate::felt::lemma_fe_exp_one(g as int);
            vstd::arithmetic::div_mod::lemma_small_mod(g as nat, FIELD_MODULUS as nat);
            crate::felt::lemma_fe_exp_multiplies(g as int, 1nat, m as nat);
            assert(1nat * (m as nat) == m as nat);
        }
    } else {
        lemma_layer_model_domain(e0, d0, h0, g, (j - 1) as nat);
        let prev = layer_model(e0, d0, h0, (j - 1) as nat);
        let gj = fe_exp(g as int, pow2((j - 1) as nat));
        assert forall|m: int|
            0 <= m < spec_fold_domain(prev.domain).len() implies #[trigger] (spec_fold_domain(
            prev.domain,
        )[m]) == fe_exp(fe_exp(g as int, pow2(j)), m as nat) by {
            assert(prev.domain[m] == fe_exp(gj, m as nat));
            crate::felt::lemma_fe_exp_distributes(gj, gj, m as nat);
            crate::felt::lemma_fe_exp_adds(g as int, pow2((j - 1) as nat), pow2((j - 1) as nat));
            vstd::arithmetic::power2::lemma_pow2_unfold(j);
            assert(pow2((j - 1) as nat) + pow2((j - 1) as nat) == pow2(j));
            assert(fe_mul(gj, gj) == fe_exp(g as int, pow2(j)));
            crate::felt::lemma_fe_exp_in_range(fe_mul(gj, gj), m as nat);
            assert(fe_mul(prev.domain[m] as int, prev.domain[m] as int) == fe_exp(
                fe_exp(g as int, pow2(j)),
                m as nat,
            ));
        }
    }
}

} // verus!

use vstd::arithmetic::power::pow;

verus! {

/// The even-index coefficients of a polynomial: the coefficients of
/// `f_e(y)` in the split `f(x) = f_e(x^2) + x * f_o(x^2)`.
pub open spec fn even_coeffs(c: Seq<u64>) -> Seq<u64> {
    Seq::new((c.len() + 1) / 2, |i: int| c[2 * i])
}

/// The odd-index coefficients: the coefficients of `f_o`.
pub open spec fn odd_coeffs(c: Seq<u64>) -> Seq<u64> {
    Seq::new(c.len() / 2, |i: int| c[2 * i + 1])
}

/// The coefficients of `a + beta * b`, padding `b` with zeros.
pub open spec fn comb_coeffs(a: Seq<u64>, b: Seq<u64>, beta: u64) -> Seq<u64> {
    Seq::new(
        a.len(),
        |i: int|
            fe_add(
                a[i] as int,
                fe_mul(
                    beta as int,
                    if i < b.len() {
                        b[i] as int
                    } else {
                        0
                    },
                ),
            ) as u64,
    )
}

/// The coefficients of the folded polynomial `f_e + beta * f_o`.
pub open spec fn fold_poly(c: Seq<u64>, beta: u64) -> Seq<u64> {
    comb_coeffs(even_coeffs(c), odd_coeffs(c), beta)
}

/// The even/odd split of polynomial evaluation:
/// `f(x) == f_e(x^2) + x * f_o(x^2)` in the field.
pub proof fn lemma_poly_even_odd_split(c: Seq<u64>, x: int)
    ensures
        crate::felt::fe_poly_eval(c, x) == fe_add(
            crate::felt::fe_poly_eval(even_coeffs(c), fe_mul(x, x)),
            fe_mul(x, crate::felt::fe_poly_eval(odd_coeffs(c), fe_mul(x, x))),
        ),
    decreases c.len(),
{
    let p = FIELD_MODULUS as int;
    let t = fe_mul(x, x);
    if c.len() == 0 {
        assert(even_coeffs(c) =~= Seq::<u64>::empty());
        assert(odd_coeffs(c) =~= Seq::<u64>::empty());
        assert(x * 0 == 0);
        assert(0int % p == 0);
    } else {
        let n = c.len() as int;
        let cp = c.drop_last();
        let last = c[n - 1] as int;
        lemma_poly_even_odd_split(cp, x);
        let ea = crate::felt::fe_poly_eval(even_coeffs(cp), t);
        let oa = crate::felt::fe_poly_eval(odd_coeffs(cp), t);
        // pow(t, m) and pow(x, 2m) agree modulo p.
        let m = (n - 1) / 2;
        assert(pow(t, m as nat) % p == pow(x, (2 * m) as nat) % p) by {
            vstd::arithmetic::power::lemma_pow_mod_noop(x * x, m as nat, p);
            vstd::arithmetic::power::lemma_pow_distributes(x, x, m as nat);
            vstd::arithmetic::power::lemma_pow_adds(x, m as nat, m as nat);
        };
        if (n - 1) % 2 == 0 {
            // The last coefficient extends the even part.
            assert(n - 1 == 2 * m);
            assert(even_coeffs(c).drop_last() =~= even_coeffs(cp));
            assert(even_coeffs(c).last() == c[n - 1]);
            assert(odd_coeffs(c) =~= odd_coeffs(cp));
            assert(crate::felt::fe_poly_eval(even_coeffs(c), t) == (ea + last * pow(t, m as nat))
                % p);
            // Both sides are (ea + x*oa + last*pow(x, 2m)) mod p.
            assert(crate::felt::fe_poly_eval(c, x) == (fe_add(ea, fe_mul(x, oa)) + last * pow(
                x,
                (n - 1) as nat,
            )) % p);
            assert((fe_add(ea, fe_mul(x, oa)) + last * pow(x, (n - 1) as nat)) % p == (ea + x * oa
                + last * pow(x, (n - 1) as nat)) % p) by {
                vstd::arithmetic::div_mod::lemma_add_mod_noop(
                    ea + (x * oa) % p,
                    last * pow(x, (n - 1) as nat),
                    p,
                );
                vstd::arithmetic::div_mod::lemma_add_mod_noop(ea, x * oa, p);
                vstd::arithmetic::div_mod::lemma_mod_twice(ea, p);
                vstd::arithmetic::div_mod::lemma_mod_twice(x * oa, p);
                vstd::arithmetic::div_mod::lemma_add_mod_noop(ea, (x * oa) % p, p);
                vstd::arithmetic::div_mod::lemma_add_mod_noop(
                    ea + x * oa,
                    last * pow(x, (n - 1) as nat),
                    p,
                );
            };
            assert((last * pow(x, (2 * m) as nat)) % p == (last * pow(t, m as nat)) % p) by {
                vstd::arithmetic::div_mod::lemma_mul_mod_noop_general(
                    last,
                    pow(x, (2 * m) as nat),
                    p,
                );
                vstd::arithmetic::div_mod::lemma_mul_mod_noop_general(last, pow(t, m as nat), p);
            };
            assert((ea + x * oa + last * pow(x, (n - 1) as nat)) % p == (ea + x * oa + last * pow(
                t,
                m as nat,
            )) % p) by {
                vstd::arithmetic::div_mod::lemma_add_mod_noop(
                    ea + x * oa,
                    last * pow(x, (n - 1) as nat),
                    p,
                );
                vstd::arithmetic::div_mod::lemma_add_mod_noop(ea + x * oa, last * pow(t, m as nat), p);
            };
            assert(fe_add(
                crate::felt::fe_poly_eval(even_coeffs(c), t),
                fe_mul(x, crate::felt::fe_poly_eval(odd_coeffs(c), t)),
            ) == (ea + last * pow(t, m as nat) + x * oa) % p) by {
                let ec = (ea + last * pow(t, m as nat)) % p;
                vstd::arithmetic::div_mod::lemma_add_mod_noop(ec, x * oa, p);
                vstd::arithmetic::div_mod::lemma_mod_twice(ea + last * pow(t, m as nat), p);
                vstd::arithmetic::div_mod::lemma_mod_twice(x * oa, p);
                vstd::arithmetic::div_mod::lemma_add_mod_noop(
                    ea + last * pow(t, m as nat),
                    x * oa,
                    p,
                );
            };
        } else {
            // The last coefficient extends the odd part.
            assert(n - 1 == 2 * m + 1);
            assert(even_coeffs(c) =~= even_coeffs(cp));
            assert(odd_coeffs(c).drop_last() =~= odd_coeffs(cp));
            assert(odd_coeffs(c).last() == c[n - 1]);
            assert(crate::felt::fe_poly_eval(odd_coeffs(c), t) == (oa + last * pow(t, m as nat))
                % p);
            assert(pow(x, (n - 1) as nat) == x * pow(x, (2 * m) as nat)) by {
                vstd::arithmetic::power::lemma_pow1(x);
                vstd::arithmetic::power::lemma_pow_adds(x, 1nat, (2 * m) as nat);
            };
            assert(crate::felt::fe_poly_eval(c, x) == (fe_add(ea, fe_mul(x, oa)) + last * pow(
                x,
                (n - 1) as nat,
            )) % p);
            // LHS == (ea + x*oa + x*(last*pow(x,2m))) mod p
            assert((fe_add(ea, fe_mul(x, oa)) + last * pow(x, (n - 1) as nat)) % p == (ea + x * oa
                + x * (last * pow(x, (2 * m) as nat))) % p) by {
                vstd::arithmetic::div_mod::lemma_add_mod_noop(
                    ea + (x * oa) % p,
                    last * pow(x, (n - 1) as nat),
                    p,
                );
                vstd::arithmetic::div_mod::lemma_mod_twice(x * oa, p);
                vstd::arithmetic::div_mod::lemma_add_mod_noop(ea, x * oa, p);
                vstd::arithmetic::div_mod::lemma_add_mod_noop(ea, (x * oa) % p, p);
                vstd::arithmetic::div_mod::lemma_add_mod_noop(
                    ea + x * oa,
                    last * pow(x, (n - 1) as nat),
                    p,
                );
                assert(last * (x * pow(x, (2 * m) as nat)) == x * (last * pow(
                    x,
                    (2 * m) as nat,
                ))) by (nonlinear_arith);
            };
            // RHS == (ea + x*oa + x*(last*pow(t,m))) mod p
            assert(fe_add(
                crate::felt::fe_poly_eval(even_coeffs(c), t),
                fe_mul(x, crate::felt::fe_poly_eval(odd_coeffs(c), t)),
            ) == (ea + x * oa + x * (last * pow(t, m as nat))) % p) by {
                let oc = (oa + last * pow(t, m as nat)) % p;
                vstd::arithmetic::div_mod::lemma_mul_mod_noop_general(x, oa + last * pow(t, m as nat), p);
                assert((x * oc) % p == (x * (oa + last * pow(t, m as nat))) % p);
                assert(x * (oa + last * pow(t, m as nat)) == x * oa + x * (last * pow(
                    t,
                    m as nat,
                ))) by (nonlinear_arith);
                vstd::arithmetic::div_mod::lemma_add_mod_noop(ea, x * oc, p);
                vstd::arithmetic::div_mod::lemma_mod_twice(ea, p);
                vstd::arithmetic::div_mod::lemma_mod_twice(x * oc, p);
                vstd::arithmetic::div_mod::lemma_add_mod_noop(ea, (x * oc) % p, p);
                vstd::arithmetic::div_mod::lemma_add_mod_noop(
                    ea,
                    x * oa + x * (last * pow(t, m as nat)),
                    p,
                );
            };
            // The two tails agree modulo p.
            assert((x * (last * pow(x, (2 * m) as nat))) % p == (x * (last * pow(t, m as nat)))
                % p) by {
                vstd::arithmetic::div_mod::lemma_mul_mod_noop_general(
                    x * last,
                    pow(x, (2 * m) as nat),
                    p,
                );
                vstd::arithmetic::div_mod::lemma_mul_mod_noop_general(x * last, pow(t, m as nat), p);
                assert(x * (last * pow(x, (2 * m) as nat)) == (x * last) * pow(
                    x,
                    (2 * m) as nat,
                )) by (nonlinear_arith);
                assert(x * (last * pow(t, m as nat)) == (x * last) * pow(t, m as nat))
                    by (nonlinear_arith);
            };
            assert((ea + x * oa + x * (last * pow(x, (2 * m) as nat))) % p == (ea + x * oa + x * (
            last * pow(t, m as nat))) % p) by {
                vstd::arithmetic::div_mod::lemma_add_mod_noop(
                    ea + x * oa,
                    x * (last * pow(x, (2 * m) as nat)),
                    p,
                );
                vstd::arithmetic::div_mod::lemma_add_mod_noop(
                    ea + x * oa,
                    x * (last * pow(t, m as nat)),
                    p,
                );
            };
        }
    }
}

/// Evaluating a `beta`-combination of coefficient sequences combines the
/// evaluations: `(a + beta b)(t) == a(t) + beta * b(t)`.
#[verifier::rlimit(100)]
#[verifier::spinoff_prover]
pub proof fn lemma_poly_linear_comb(a: Seq<u64>, b: Seq<u64>, beta: u64, t: int)
    requires
        fe_reduced(a),
        fe_reduced(b),
        b.len() <= a.len(),
        a.len() <= b.len() + 1,
    ensures
        crate::felt::fe_poly_eval(comb_coeffs(a, b, beta), t) == fe_add(
            crate::felt::fe_poly_eval(a, t),
            fe_mul(beta as int, crate::felt::fe_poly_eval(b, t)),
        ),
    decreases a.len(),
{
    let p = FIELD_MODULUS as int;
    let bt = beta as int;
    if a.len() == 0 {
        assert(comb_coeffs(a, b, beta) =~= Seq::<u64>::empty());
        assert(bt * 0 == 0);
        assert(0int % p == 0);
    } else {
        let n = a.len() as int;
        let ap = a.drop_last();
        let la = a[n - 1] as int;
        let xp = pow(t, (n - 1) as nat);
        let ea = crate::felt::fe_poly_eval(ap, t);
        let eb = if b.len() == n {
            crate::felt::fe_poly_eval(b.drop_last(), t)
        } else {
            crate::felt::fe_poly_eval(b, t)
        };
        let lb = if b.len() == n {
            b[n - 1] as int
        } else {
            0
        };
        // With a virtual zero tail coefficient for the shorter b, both
        // cases share one computation.
        if b.len() == n {
            lemma_poly_linear_comb(ap, b.drop_last(), beta, t);
            assert(comb_coeffs(a, b, beta).drop_last() =~= comb_coeffs(ap, b.drop_last(), beta));
            assert(crate::felt::fe_poly_eval(b, t) == (eb + lb * xp) % p);
        } else {
            lemma_poly_linear_comb(ap, b, beta, t);
            assert(comb_coeffs(a, b, beta).drop_last() =~= comb_coeffs(ap, b, beta));
            assert(lb * xp == 0);
            vstd::arithmetic::div_mod::lemma_mod_twice(eb, p);
            crate::felt::lemma_fe_poly_eval_in_range(b, t);
            vstd::arithmetic::div_mod::lemma_small_mod(
                crate::felt::fe_poly_eval(b, t) as nat,
                FIELD_MODULUS as nat,
            );
            assert(crate::felt::fe_poly_eval(b, t) == (eb + lb * xp) % p);
        }
        assert(comb_coeffs(a, b, beta).last() as int == fe_add(la, fe_mul(bt, lb)));
        let e1 = fe_add(ea, fe_mul(bt, eb));
        let cc = fe_add(la, fe_mul(bt, lb));
        assert(crate::felt::fe_poly_eval(comb_coeffs(a, b, beta), t) == (e1 + cc * xp) % p);
        // Normalize the left side.
        vstd::arithmetic::div_mod::lemma_mod_twice(bt * eb, p);
        vstd::arithmetic::div_mod::lemma_mod_twice(ea, p);
        vstd::arithmetic::div_mod::lemma_mod_twice(e1, p);
        vstd::arithmetic::div_mod::lemma_mod_twice(la, p);
        vstd::arithmetic::div_mod::lemma_mod_twice(bt * lb, p);
        vstd::arithmetic::div_mod::lemma_mod_twice(cc, p);
        crate::field::lemma_mod_add_congruent(ea, ea, (bt * eb) % p, bt * eb, p);
        assert(e1 % p == (ea + bt * eb) % p);
        crate::field::lemma_mod_add_congruent(la, la, (bt * lb) % p, bt * lb, p);
        assert(cc % p == (la + bt * lb) % p);
        vstd::arithmetic::div_mod::lemma_mod_twice(xp, p);
        crate::field::lemma_mod_mul_congruent(cc, la + bt * lb, xp, xp, p);
        assert((la + bt * lb) * xp == la * xp + bt * (lb * xp)) by (nonlinear_arith);
        crate::field::lemma_mod_add_congruent(
            e1,
            ea + bt * eb,
            cc * xp,
            la * xp + bt * (lb * xp),
            p,
        );
        assert((e1 + cc * xp) % p == (ea + bt * eb + la * xp + bt * (lb * xp)) % p);
        // Normalize the right side.
        let av = crate::felt::fe_poly_eval(a, t);
        let bv = crate::felt::fe_poly_eval(b, t);
        assert(av == (ea + la * xp) % p);
        vstd::arithmetic::div_mod::lemma_mod_twice(av, p);
        vstd::arithmetic::div_mod::lemma_mod_twice(bv, p);
        vstd::arithmetic::div_mod::lemma_mod_twice(bt * bv, p);
        crate::field::lemma_mod_mul_congruent(bt, bt, bv, eb + lb * xp, p);
        crate::field::lemma_mod_add_congruent(
            av,
            ea + la * xp,
            (bt * bv) % p,
            bt * (eb + lb * xp),
            p,
        );
        assert(bt * (eb + lb * xp) == bt * eb + bt * (lb * xp)) by (nonlinear_arith);
        assert(fe_add(av, fe_mul(bt, bv)) == (ea + la * xp + bt * eb + bt * (lb * xp)) % p);
    }
}

/// The folding identity: feeding the kernel the evaluations of a
/// polynomial at a unit `x` and at `-x` produces exactly the evaluation of
/// the even-plus-`beta`-times-odd polynomial at `x^2`, for every `beta`.
#[verifier::rlimit(100)]
#[verifier::spinoff_prover]
pub proof fn lemma_folding_identity(c: Seq<u64>, x: int, beta: u64)
    requires
        fe_reduced(c),
        0 < x < FIELD_MODULUS,
        fe_mul(x, fe_inv(x)) == 1,
    ensures
        fold_value(
            crate::felt::fe_poly_eval(c, x),
            crate::felt::fe_poly_eval(c, (FIELD_MODULUS - x) as int),
            x,
            beta as int,
        ) == crate::felt::fe_poly_eval(fold_poly(c, beta), fe_mul(x, x)),
{
    let p = FIELD_MODULUS as int;
    let t = fe_mul(x, x);
    let xm = (FIELD_MODULUS - x) as int;
    let i2 = fe_inv(2);
    let ix = fe_inv(x);
    let bt = beta as int;
    // Split both evaluations into even and odd parts at x^2.
    lemma_poly_even_odd_split(c, x);
    lemma_poly_even_odd_split(c, xm);
    assert(fe_mul(xm, xm) == t) by {
        assert((p - x) * (p - x) == x * x + p * (p - 2 * x)) by (nonlinear_arith);
        vstd::arithmetic::div_mod::lemma_mod_multiples_vanish(p - 2 * x, x * x, p);
    };
    let ev = crate::felt::fe_poly_eval(even_coeffs(c), t);
    let ov = crate::felt::fe_poly_eval(odd_coeffs(c), t);
    let y = crate::felt::fe_poly_eval(c, x);
    let ys = crate::felt::fe_poly_eval(c, xm);
    crate::felt::lemma_fe_poly_eval_in_range(even_coeffs(c), t);
    crate::felt::lemma_fe_poly_eval_in_range(odd_coeffs(c), t);
    crate::felt::lemma_fe_poly_eval_in_range(c, x);
    crate::felt::lemma_fe_poly_eval_in_range(c, xm);
    assert(y == fe_add(ev, fe_mul(x, ov)));
    assert(ys == fe_add(ev, fe_mul(xm, ov)));
    vstd::arithmetic::div_mod::lemma_mod_twice(x * ov, p);
    vstd::arithmetic::div_mod::lemma_mod_twice(xm * ov, p);
    vstd::arithmetic::div_mod::lemma_mod_twice(ev, p);
    vstd::arithmetic::div_mod::lemma_mod_twice(y, p);
    vstd::arithmetic::div_mod::lemma_mod_twice(ys, p);
    vstd::arithmetic::div_mod::lemma_small_mod(y as nat, FIELD_MODULUS as nat);
    vstd::arithmetic::div_mod::lemma_small_mod(ys as nat, FIELD_MODULUS as nat);
    crate::field::lemma_mod_add_congruent(ev, ev, (x * ov) % p, x * ov, p);
    assert(y % p == (ev + x * ov) % p);
    crate::field::lemma_mod_add_congruent(ev, ev, (xm * ov) % p, xm * ov, p);
    assert(ys % p == (ev + xm * ov) % p);
    // Even part: (y + y')/2 == E, because x + (-x) vanishes and 2/2 == 1.
    crate::felt::lemma_fe_two_inv();
    let even_out = fe_mul(fe_add(y, ys), i2);
    assert(even_out == ev) by {
        crate::field::lemma_mod_add_congruent(y, ev + x * ov, ys, ev + xm * ov, p);
        assert((ev + x * ov) + (ev + xm * ov) == p * ov + 2 * ev) by (nonlinear_arith)
            requires
                x + xm == p,
        ;
        vstd::arithmetic::div_mod::lemma_mod_multiples_vanish(ov, 2 * ev, p);
        assert((y + ys) % p == (2 * ev) % p);
        vstd::arithmetic::div_mod::lemma_mod_twice(y + ys, p);
        vstd::arithmetic::div_mod::lemma_mod_twice(i2, p);
        crate::field::lemma_mod_mul_congruent((y + ys) % p, 2 * ev, i2, i2, p);
        assert((2 * ev) * i2 == ev * (2 * i2)) by (nonlinear_arith);
        vstd::arithmetic::div_mod::lemma_mod_twice(2 * i2, p);
        crate::field::lemma_mod_mul_congruent(ev, ev, 2 * i2, 1, p);
        assert(ev * 1 == ev);
        vstd::arithmetic::div_mod::lemma_small_mod(ev as nat, FIELD_MODULUS as nat);
        assert((ev * (2 * i2)) % p == ev);
        crate::felt::lemma_fe_mul_assoc(2, ev, i2);
    };
    // Odd part: (y - y')/(2x) == O.
    let sub = fe_sub(y, ys);
    let odd_out = fe_mul(fe_mul(sub, i2), ix);
    assert(odd_out == ov) by {
        assert(sub == (y + p - ys) % p);
        assert(y + p - ys == p * 1 + (y - ys));
        vstd::arithmetic::div_mod::lemma_mod_multiples_vanish(1, y - ys, p);
        vstd::arithmetic::div_mod::lemma_sub_mod_noop(ev + x * ov, ev + xm * ov, p);
        assert(((y % p) - (ys % p)) % p == (y - ys) % p) by {
            vstd::arithmetic::div_mod::lemma_sub_mod_noop(y, ys, p);
        };
        assert((y - ys) % p == ((ev + x * ov) - (ev + xm * ov)) % p);
        assert((ev + x * ov) - (ev + xm * ov) == p * (-ov) + (2 * x) * ov) by (nonlinear_arith)
            requires
                x + xm == p,
        ;
        vstd::arithmetic::div_mod::lemma_mod_multiples_vanish(-ov, (2 * x) * ov, p);
        assert(sub % p == ((2 * x) * ov) % p) by {
            vstd::arithmetic::div_mod::lemma_mod_twice(y + p - ys, p);
        };
        vstd::arithmetic::div_mod::lemma_mod_twice(sub, p);
        vstd::arithmetic::div_mod::lemma_mod_twice(i2, p);
        crate::field::lemma_mod_mul_congruent(sub, (2 * x) * ov, i2, i2, p);
        assert(fe_mul(sub, i2) == (((2 * x) * ov) * i2) % p);
        vstd::arithmetic::div_mod::lemma_mod_twice(((2 * x) * ov) * i2, p);
        vstd::arithmetic::div_mod::lemma_mod_twice(ix, p);
        crate::field::lemma_mod_mul_congruent(
            fe_mul(sub, i2),
            ((2 * x) * ov) * i2,
            ix,
            ix,
            p,
        );
        assert((((2 * x) * ov) * i2) * ix == ov * ((2 * i2) * (x * ix))) by (nonlinear_arith);
        vstd::arithmetic::div_mod::lemma_mod_twice(2 * i2, p);
        vstd::arithmetic::div_mod::lemma_mod_twice(x * ix, p);
        crate::field::lemma_mod_mul_congruent(2 * i2, 1, x * ix, 1, p);
        assert(((2 * i2) * (x * ix)) % p == 1int % p);
        assert(1int % p == 1);
        vstd::arithmetic::div_mod::lemma_mod_twice((2 * i2) * (x * ix), p);
        crate::field::lemma_mod_mul_congruent(ov, ov, (2 * i2) * (x * ix), 1, p);
        assert(ov * 1 == ov);
        vstd::arithmetic::div_mod::lemma_small_mod(ov as nat, FIELD_MODULUS as nat);
        assert((ov * ((2 * i2) * (x * ix))) % p == ov);
    };
    // Combine: E + beta * O is the folded polynomial's value at x^2.
    assert forall|i: int| 0 <= i < even_coeffs(c).len() implies #[trigger] even_coeffs(c)[i]
        < FIELD_MODULUS by {}
    assert forall|i: int| 0 <= i < odd_coeffs(c).len() implies #[trigger] odd_coeffs(c)[i]
        < FIELD_MODULUS by {}
    lemma_poly_linear_comb(even_coeffs(c), odd_coeffs(c), beta, t);
    assert(fold_value(y, ys, x, bt) == fe_add(ev, fe_mul(bt, ov)));
}

/// The folding identity for a whole layer transition: if a layer holds
/// the evaluations of a polynomial over a domain whose second half is the
/// negation of its first half (all points units), then for every `beta`
/// the kernel's output is exactly the evaluation of the folded polynomial
/// over the squared half-domain.
pub proof fn lemma_fold_layer_of_polynomial(
    c: Seq<u64>,
    evals: Seq<u64>,
    domain: Seq<u64>,
    beta: u64,
)
    requires
        fe_reduced(c),
        fe_reduced(domain),
        evals.len() == domain.len(),
        forall|i: int|
            0 <= i < domain.len() ==> #[trigger] evals[i] == crate::felt::fe_poly_eval(
                c,
                domain[i] as int,
            ),
        forall|i: int|
            0 <= i < domain.len() / 2 ==> #[trigger] domain[i + domain.len() / 2] as int == (
            FIELD_MODULUS - domain[i] as int),
        forall|i: int|
            0 <= i < domain.len() / 2 ==> 0 < #[trigger] domain[i] as int && fe_mul(
                domain[i] as int,
                fe_inv(domain[i] as int),
            ) == 1,
    ensures
        forall|i: int|
            0 <= i < domain.len() / 2 ==> #[trigger] spec_fold_evals(evals, domain, beta)[i]
                == crate::felt::fe_poly_eval(
                fold_poly(c, beta),
                spec_fold_domain(domain)[i] as int,
            ) as u64,
{
    assert forall|i: int| 0 <= i < domain.len() / 2 implies #[trigger] spec_fold_evals(
        evals,
        domain,
        beta,
    )[i] == crate::felt::fe_poly_eval(fold_poly(c, beta), spec_fold_domain(domain)[i] as int)
        as u64 by {
        let x = domain[i] as int;
        lemma_folding_identity(c, x, beta);
        assert(evals[i + evals.len() / 2] == crate::felt::fe_poly_eval(
            c,
            (FIELD_MODULUS - x) as int,
        ));
        lemma_fold_value_in_range(evals[i] as int, evals[i + evals.len() / 2] as int, x, beta as int);
    }
}

/// The coefficients of the polynomial represented by layer `j`: the input
/// coefficients folded once per completed layer under the modelled
/// challenges.
pub open spec fn folded_coeffs(
    c: Seq<u64>,
    e0: Seq<u64>,
    d0: Seq<u64>,
    h0: Seq<Seq<u8>>,
    j: nat,
) -> Seq<u64>
    decreases j,
{
    if j == 0 {
        c
    } else {
        fold_poly(
            folded_coeffs(c, e0, d0, h0, (j - 1) as nat),
            beta_model(e0, d0, h0, (j - 1) as nat),
        )
    }
}

/// Every modelled layer holds the evaluations of a polynomial: layer `j`
/// evaluates the `j`-times-folded coefficients over its own domain.
#[verifier::rlimit(100)]
#[verifier::spinoff_prover]
pub proof fn lemma_layers_are_polynomial(
    c: Seq<u64>,
    d0: Seq<u64>,
    h0: Seq<Seq<u8>>,
    g: u64,
    t: nat,
    j: nat,
)
    requires
        fe_reduced(c),
        fe_reduced(d0),
        d0.len() == pow2(t),
        t <= 27,
        g < FIELD_MODULUS,
        fe_exp(g as int, pow2(t)) == 1,
        t >= 1 ==> fe_exp(g as int, pow2((t - 1) as nat)) == (FIELD_MODULUS - 1) as int,
        forall|i: int| 0 <= i < d0.len() ==> #[trigger] d0[i] == fe_exp(g as int, i as nat),
        j <= t,
    ensures
        ({
            let e0 = eval_seq(c, d0);
            let cj = folded_coeffs(c, e0, d0, h0, j);
            &&& fe_reduced(cj)
            &&& forall|i: int|
                0 <= i < layer_model(e0, d0, h0, j).evals.len() ==> #[trigger] layer_model(
                    e0,
                    d0,
                    h0,
                    j,
                ).evals[i] == crate::felt::fe_poly_eval(
                    cj,
                    layer_model(e0, d0, h0, j).domain[i] as int,
                ) as u64
        }),
    decreases j,
{
    let p = FIELD_MODULUS as int;
    let e0 = eval_seq(c, d0);
    assert(e0.len() == d0.len());
    assert forall|i: int| 0 <= i < e0.len() implies #[trigger] e0[i] < FIELD_MODULUS by {
        crate::felt::lemma_fe_poly_eval_in_range(c, d0[i] as int);
    }
    if j == 0 {
        assert forall|i: int| 0 <= i < e0.len() implies #[trigger] layer_model(
            e0,
            d0,
            h0,
            0,
        ).evals[i] == crate::felt::fe_poly_eval(c, layer_model(e0, d0, h0, 0).domain[i] as int)
            as u64 by {
            crate::felt::lemma_fe_poly_eval_in_range(c, d0[i] as int);
        }
    } else {
        lemma_layers_are_polynomial(c, d0, h0, g, t, (j - 1) as nat);
        let jp = (j - 1) as nat;
        let cj = folded_coeffs(c, e0, d0, h0, jp);
        let beta = beta_model(e0, d0, h0, jp);
        let ej = layer_model(e0, d0, h0, jp).evals;
        let dj = layer_model(e0, d0, h0, jp).domain;
        lemma_layer_model_sizes(e0, d0, h0, jp);
        lemma_layer_model_sizes(e0, d0, h0, j);
        lemma_half_size_pow2_exact(t, jp);
        lemma_half_size_pow2_exact(t, j);
        lemma_layer_model_domain(e0, d0, h0, g, jp);
        lemma_layer_model_domain(e0, d0, h0, g, j);
        lemma_layer_model_reduced(e0, d0, h0, jp);
        vstd::arithmetic::power2::lemma_pow2_unfold((t - j + 1) as nat);
        vstd::arithmetic::power2::lemma_pow2_pos((t - j) as nat);
        let gj = fe_exp(g as int, pow2(jp));
        let half = pow2((t - j) as nat) as int;
        assert(dj.len() == 2 * half);
        // Every domain point is a power of g, hence a unit of the field.
        assert forall|i: int| 0 <= i < dj.len() implies 0 < #[trigger] dj[i] as int && fe_mul(
            dj[i] as int,
            fe_inv(dj[i] as int),
        ) == 1 by {
            assert(dj[i] as int == fe_exp(gj, i as nat));
            crate::felt::lemma_fe_exp_multiplies(g as int, pow2(jp), i as nat);
            assert(dj[i] as int == fe_exp(g as int, pow2(jp) * (i as nat)));
            let m = pow2(jp) * (i as nat);
            // (g^m)^(2^t) == (g^(2^t))^m == 1^m == 1
            crate::felt::lemma_fe_exp_multiplies(g as int, m, pow2(t));
            crate::felt::lemma_fe_exp_multiplies(g as int, pow2(t), m);
            crate::felt::lemma_fe_exp_one_base(m);
            crate::felt::lemma_fe_exp_in_range(g as int, m);
            assert(fe_exp(fe_exp(g as int, m), pow2(t)) == 1) by {
                assert(m * pow2(t) == pow2(t) * m) by (nonlinear_arith);
            };
            crate::felt::lemma_fe_unit_root_inv(fe_exp(g as int, m), t);
        }
        // The second half of the layer domain negates the first half.
        assert forall|i: int| 0 <= i < half implies #[trigger] dj[i + half] as int == (
        FIELD_MODULUS - dj[i] as int) by {
            assert(dj[i] as int == fe_exp(gj, i as nat));
            assert(dj[i + half] as int == fe_exp(gj, (i + half) as nat));
            crate::felt::lemma_fe_exp_adds(gj, i as nat, half as nat);
            crate::felt::lemma_fe_exp_multiplies(g as int, pow2(jp), half as nat);
            vstd::arithmetic::power2::lemma_pow2_adds(jp, (t - j) as nat);
            assert(pow2(jp) * (half as nat) == pow2((t - 1) as nat));
            assert(fe_exp(gj, half as nat) == (FIELD_MODULUS - 1) as int);
            crate::felt::lemma_fe_exp_in_range(gj, i as nat);
            crate::felt::lemma_fe_neg_one_mul(fe_exp(gj, i as nat));
            vstd::arithmetic::div_mod::lemma_small_mod(
                (FIELD_MODULUS - dj[i]) as nat,
                FIELD_MODULUS as nat,
            );
        }
        lemma_fold_layer_of_polynomial(cj, ej, dj, beta);
        assert forall|i: int| 0 <= i < fold_poly(cj, beta).len() implies #[trigger] fold_poly(
            cj,
            beta,
        )[i] < FIELD_MODULUS by {
            vstd::arithmetic::div_mod::lemma_mod_bound(
                cj[2 * i] as int + fe_mul(
                    beta as int,
                    if 2 * i + 1 < cj.len() {
                        cj[2 * i + 1] as int
                    } else {
                        0
                    },
                ),
                p,
            );
        }
        assert(layer_model(e0, d0, h0, j).evals == spec_fold_evals(ej, dj, beta));
        assert(layer_model(e0, d0, h0, j).domain == spec_fold_domain(dj));
    }
}

/// Folding at most halves the number of coefficients, rounding up.
proof fn lemma_folded_coeffs_len(
    c: Seq<u64>,
    e0: Seq<u64>,
    d0: Seq<u64>,
    h0: Seq<Seq<u8>>,
    t: nat,
    j: nat,
)
    requires
        c.len() <= pow2(t),
        j <= t,
    ensures
        folded_coeffs(c, e0, d0, h0, j).len() <= pow2((t - j) as nat),
    decreases j,
{
    if j > 0 {
        lemma_folded_coeffs_len(c, e0, d0, h0, t, (j - 1) as nat);
        vstd::arithmetic::power2::lemma_pow2_unfold((t - j + 1) as nat);
        vstd::arithmetic::power2::lemma_pow2_pos((t - j) as nat);
    }
}

/// After full folding the last layer's single evaluation is a constant:
/// the one remaining coefficient of the fully folded polynomial (or zero
/// when none remains), independent of the evaluation point.
#[verifier::rlimit(100)]
#[verifier::spinoff_prover]
pub proof fn lemma_last_layer_constant(c: Seq<u64>, d0: Seq<u64>, h0: Seq<Seq<u8>>, g: u64, t: nat)
    requires
        fe_reduced(c),
        fe_reduced(d0),
        d0.len() == pow2(t),
        c.len() <= pow2(t),
        t <= 27,
        g < FIELD_MODULUS,
        fe_exp(g as int, pow2(t)) == 1,
        t >= 1 ==> fe_exp(g as int, pow2((t - 1) as nat)) == (FIELD_MODULUS - 1) as int,
        forall|i: int| 0 <= i < d0.len() ==> #[trigger] d0[i] == fe_exp(g as int, i as nat),
    ensures
        ({
            let e0 = eval_seq(c, d0);
            let ct = folded_coeffs(c, e0, d0, h0, t);
            &&& ct.len() <= 1
            &&& layer_model(e0, d0, h0, t).evals[0] == (if ct.len() == 1 {
                ct[0]
            } else {
                0
            })
        }),
{
    let e0 = eval_seq(c, d0);
    let ct = folded_coeffs(c, e0, d0, h0, t);
    lemma_layers_are_polynomial(c, d0, h0, g, t, t);
    lemma_folded_coeffs_len(c, e0, d0, h0, t, t);
    vstd::arithmetic::power2::lemma2_to64();
    assert(ct.len() <= 1);
    lemma_layer_model_sizes(e0, d0, h0, t);
    lemma_half_size_pow2_exact(t, t);
    assert(layer_model(e0, d0, h0, t).evals.len() == 1);
    let v = layer_model(e0, d0, h0, t).domain[0] as int;
    assert(layer_model(e0, d0, h0, t).evals[0] == crate::felt::fe_poly_eval(ct, v) as u64);
    if ct.len() == 1 {
        assert(crate::felt::fe_poly_eval(ct, v) == (0 + ct[0] * pow(v, 0nat)) % (
        FIELD_MODULUS as int)) by {
            assert(ct.drop_last() =~= Seq::<u64>::empty());
            assert(crate::felt::fe_poly_eval(ct.drop_last(), v) == 0);
            assert(ct.last() == ct[0]);
        };
        vstd::arithmetic::power::lemma_pow0(v);
        assert(ct[0] * 1 == ct[0]);
        vstd::arithmetic::div_mod::lemma_small_mod(ct[0] as nat, FIELD_MODULUS as nat);
    }
}

} // verus!




