//! The FRI verifier: replay the transcript to recover the prover's
//! challenges and query indices, check every Merkle opening, and recompute
//! the folding chain for every query.
//!
//! The whole decision procedure is mirrored by specification functions
//! (`spec_verify` and its scans), and `verify` returns exactly their
//! verdict, including which error is reported first.

use vstd::prelude::*;
use vstd::arithmetic::power2::pow2;

use crate::backend::{
    absorb_event, block_event, felt_event, merkle_verify, merkle_verify_spec, primitive_root_of_unity,
    root_of_unity, transcript_felt_of, Transcript,
};
use crate::error::FriError;
use crate::felt::{add_fe, fe_exp, fe_reduced, inv_fe, mul_fe, pow_fe, sub_fe, FIELD_MODULUS};
use crate::field::{trailing_zeros, tz_spec};
use crate::prover::bytes32_to_vec;
use crate::types::{
    felt_bytes, felt_to_bytes, fold_value, half_size, layer_index, protocol_id, protocol_id_spec,
    push_blocks, query_index, sym_index, FriParameters, FriProof, QueryDecommitment,
};

verus! {

/// The transcript history after the verifier has absorbed commitment `j`,
/// sampling one challenge between consecutive commitments. This is the
/// same sequence of events the prover performs while committing and
/// folding.
pub open spec fn replay_hist(seed_hist: Seq<Seq<u8>>, cs: Seq<Seq<u8>>, j: nat) -> Seq<Seq<u8>>
    decreases j,
{
    if j == 0 {
        seed_hist.push(absorb_event(cs[0]))
    } else {
        replay_hist(seed_hist, cs, (j - 1) as nat).push(felt_event()).push(
            absorb_event(cs[j as int]),
        )
    }
}

/// The challenge folding layer `i` into layer `i + 1`, as reconstructed by
/// the verifier: sampled right after commitment `i` was absorbed.
pub open spec fn replay_beta(seed_hist: Seq<Seq<u8>>, cs: Seq<Seq<u8>>, i: nat) -> u64 {
    transcript_felt_of(replay_hist(seed_hist, cs, i))
}

/// The Merkle phase of one query: walk the layers from first to last,
/// checking the opening at the walked-down index and at its symmetric
/// position; the first bad path reports `InvalidMerkleProof`.
pub open spec fn merkle_scan(
    cs: Seq<Seq<u8>>,
    dec: QueryDecommitment,
    n0: int,
    idx: int,
    j: nat,
) -> Result<(), FriError>
    decreases cs.len() - j,
{
    if j >= cs.len() {
        Ok(())
    } else {
        let nj = half_size(n0, j);
        let sym = sym_index(idx, nj);
        if !merkle_verify_spec(
            cs[j as int],
            idx,
            dec.layer_evaluations@[j as int],
            dec.layer_auth_paths@[j as int].deep_view(),
        ) {
            Err(FriError::InvalidMerkleProof)
        } else if !merkle_verify_spec(
            cs[j as int],
            sym,
            dec.layer_evaluations_sym@[j as int],
            dec.layer_auth_paths_sym@[j as int].deep_view(),
        ) {
            Err(FriError::InvalidMerkleProof)
        } else {
            merkle_scan(
                cs,
                dec,
                n0,
                idx % (if nj / 2 >= 1 {
                    nj / 2
                } else {
                    1
                }),
                (j + 1) as nat,
            )
        }
    }
}

/// The folding phase of one query: from the next-to-last layer down to the
/// first, recompute the folded value from the decommitted pair and compare
/// it with the claimed child evaluation; the first mismatch reports
/// `InconsistentFolding` at that layer.
pub open spec fn fold_scan(
    dec: QueryDecommitment,
    betas: Seq<u64>,
    g: u64,
    n0: int,
    q0: int,
    claimed: u64,
    i: int,
) -> Result<(), FriError>
    decreases i + 1,
{
    if i < 0 {
        Ok(())
    } else {
        let nj = half_size(n0, i as nat);
        let idx_in_layer = q0 % nj;
        let x = fe_exp(fe_exp(g as int, pow2(i as nat)), idx_in_layer as nat);
        let y = dec.layer_evaluations@[i];
        let ysym = dec.layer_evaluations_sym@[i];
        let expected = fold_value(y as int, ysym as int, x, betas[i] as int);
        if claimed != expected {
            Err(
                FriError::InconsistentFolding {
                    layer: i as usize,
                    expected: expected as u64,
                    got: claimed,
                },
            )
        } else {
            fold_scan(dec, betas, g, n0, q0, y, i - 1)
        }
    }
}

/// All queries in order: the Merkle phase and then the folding phase of
/// each, stopping at the first error.
pub open spec fn query_scan(
    proof: FriProof,
    betas: Seq<u64>,
    g: u64,
    n0: int,
    qidx: Seq<int>,
    q: nat,
) -> Result<(), FriError>
    decreases qidx.len() - q,
{
    if q >= qidx.len() {
        Ok(())
    } else {
        let dec = proof.query_decommitments@[q as int];
        let m = merkle_scan(proof.layer_commitments.deep_view(), dec, n0, qidx[q as int], 0);
        if m is Err {
            m
        } else {
            let f = fold_scan(
                dec,
                betas,
                g,
                n0,
                qidx[q as int],
                proof.last_layer_value,
                proof.layer_commitments@.len() - 2,
            );
            if f is Err {
                f
            } else {
                query_scan(proof, betas, g, n0, qidx, (q + 1) as nat)
            }
        }
    }
}

/// One unfolding of `query_scan`, packaged so that callers need not expand
/// the recursive definition themselves.
pub proof fn lemma_query_scan_step(
    proof: FriProof,
    betas: Seq<u64>,
    g: u64,
    n0: int,
    qidx: Seq<int>,
    q: nat,
)
    requires
        q < qidx.len(),
    ensures
        query_scan(proof, betas, g, n0, qidx, q) == ({
            let dec = proof.query_decommitments@[q as int];
            let m = merkle_scan(proof.layer_commitments.deep_view(), dec, n0, qidx[q as int], 0);
            let f = fold_scan(
                dec,
                betas,
                g,
                n0,
                qidx[q as int],
                proof.last_layer_value,
                proof.layer_commitments@.len() - 2,
            );
            if m is Err {
                m
            } else if f is Err {
                f
            } else {
                query_scan(proof, betas, g, n0, qidx, (q + 1) as nat)
            }
        }),
{
}

/// The verifier's verdict on a proof against an initial domain of size
/// `n0`: replay the transcript for the challenges and query indices, then
/// scan every query.
pub open spec fn spec_verify(proof: FriProof, n0: int) -> Result<(), FriError> {
    let seed_hist = seq![absorb_event(protocol_id_spec())];
    let cs = proof.layer_commitments.deep_view();
    let k = (cs.len() - 1) as nat;
    let hf = replay_hist(seed_hist, cs, k).push(absorb_event(felt_bytes(proof.last_layer_value)));
    let betas = Seq::new(k, |i: int| replay_beta(seed_hist, cs, i as nat));
    let g = root_of_unity(tz_spec(n0));
    let qidx = Seq::new(
        proof.query_decommitments@.len(),
        |q: int| query_index(hf, q as nat, n0),
    );
    query_scan(proof, betas, g, n0, qidx, 0)
}

/// Halving never goes negative.
pub proof fn lemma_half_size_nonneg(n: int, j: nat)
    requires
        n >= 0,
    ensures
        half_size(n, j) >= 0,
    decreases j,
{
    if j > 0 {
        lemma_half_size_nonneg(n, (j - 1) as nat);
    }
}

/// Halving more often cannot increase the size.
pub proof fn lemma_half_size_mono(n: int, j1: nat, j2: nat)
    requires
        n >= 0,
        j1 <= j2,
    ensures
        half_size(n, j1) >= half_size(n, j2),
    decreases j2,
{
    if j2 > j1 {
        lemma_half_size_mono(n, j1, (j2 - 1) as nat);
        lemma_half_size_nonneg(n, (j2 - 1) as nat);
    }
}

/// If `j` halvings leave at least one element, then `2^j` fits below `n`.
pub proof fn lemma_half_size_pow2(n: int, j: nat)
    requires
        n >= 0,
        half_size(n, j) >= 1,
    ensures
        pow2(j) <= n,
    decreases j,
{
    if j == 0 {
        vstd::arithmetic::power2::lemma2_to64();
    } else {
        crate::types::lemma_half_size_shift(n, j);
        lemma_half_size_pow2(n / 2, (j - 1) as nat);
        vstd::arithmetic::power2::lemma_pow2_unfold(j);
    }
}

/// Computes `half_size(n, j)` by repeated halving.
pub fn half_size_exec(n: usize, j: usize) -> (r: usize)
    ensures
        r == half_size(n as int, j as nat),
{
    let mut cur: usize = n;
    let mut jj: usize = 0;
    while jj < j
        invariant
            jj <= j,
            cur == half_size(n as int, jj as nat),
        decreases j - jj,
    {
        cur = cur / 2;
        jj = jj + 1;
    }
    cur
}

/// Computes `2^j` for exponents small enough to fit.
pub fn pow2_exec(j: usize) -> (r: u64)
    requires
        pow2(j as nat) <= u64::MAX,
    ensures
        r == pow2(j as nat),
{
    let mut cur: u64 = 1;
    let mut jj: usize = 0;
    proof {
        vstd::arithmetic::power2::lemma2_to64();
    }
    while jj < j
        invariant
            jj <= j,
            cur == pow2(jj as nat),
            pow2(j as nat) <= u64::MAX,
        decreases j - jj,
    {
        proof {
            vstd::arithmetic::power2::lemma_pow2_strictly_increases(jj as nat, j as nat);
            if jj + 1 <= j {
                if (jj + 1) as nat == j as nat {
                    assert(pow2((jj + 1) as nat) <= u64::MAX);
                } else {
                    vstd::arithmetic::power2::lemma_pow2_strictly_increases(
                        (jj + 1) as nat,
                        j as nat,
                    );
                }
            }
            vstd::arithmetic::power2::lemma_pow2_unfold((jj + 1) as nat);
        }
        cur = cur * 2;
        jj = jj + 1;
    }
    cur
}

/// The verifier for the FRI protocol.
pub struct Verifier {
    params: FriParameters,
    transcript: Transcript,
}

impl Verifier {
    /// The initial evaluation domain.
    pub closed spec fn domain_spec(&self) -> Seq<u64> {
        self.params.domain@
    }

    /// The transcript history so far.
    pub closed spec fn hist(&self) -> Seq<Seq<u8>> {
        self.transcript@
    }

    /// Creates a verifier with a transcript freshly seeded by the protocol
    /// id, so that replaying the proof's commitments reproduces the
    /// prover's challenges.
    pub fn new(params: FriParameters) -> (r: Self)
        ensures
            r.domain_spec() == params.domain@,
            r.hist() == seq![absorb_event(protocol_id_spec())],
    {
        let id = protocol_id();
        Self { params, transcript: Transcript::new(&id) }
    }

    /// Samples a query index exactly as the prover does.
    fn sample_index(&mut self, max_value: usize) -> (r: usize)
        requires
            max_value >= 1,
        ensures
            r == crate::types::index_from_block(
                crate::backend::transcript_block_of(old(self).hist()),
                max_value as int,
            ),
            r < max_value,
            final(self).hist() == old(self).hist().push(block_event()),
            final(self).domain_spec() == old(self).domain_spec(),
    {
        let block = self.transcript.sample_block();
        let ghost bs = block@;
        let mut acc: u64 = 0;
        let mut i: usize = 0;
        proof {
            crate::prover::lemma_pow256();
            assert(bs.take(0int) =~= Seq::<u8>::empty());
        }
        while i < 8
            invariant
                bs == block@,
                bs.len() == 32,
                i <= 8,
                acc == crate::types::be_val(bs.take(i as int)),
                acc < vstd::arithmetic::power::pow(256, i as nat),
                vstd::arithmetic::power::pow(256, i as nat) <= 0x10000000000000000,
            decreases 8 - i,
        {
            proof {
                crate::prover::lemma_pow256();
                let s1 = bs.take(i + 1int);
                assert(s1.drop_last() =~= bs.take(i as int));
                crate::prover::lemma_be_val_bound(bs.take(i + 1int));
            }
            acc = acc * 256 + (block[i] as u64);
            i = i + 1;
        }
        proof {
            crate::prover::lemma_pow256();
        }
        let idx = (acc % (max_value as u64)) as usize;
        proof {
            vstd::arithmetic::div_mod::lemma_mod_bound(acc as int, max_value as int);
        }
        idx
    }

    /// Replays the prover's transcript from the proof: absorb the first
    /// commitment, then alternate sampling a challenge and absorbing the
    /// next commitment; absorb the last layer's value; finally sample the
    /// query indices.
    pub fn reconstruct_challenges(&mut self, proof: &FriProof) -> (r: (Vec<u64>, Vec<usize>))
        requires
            old(self).hist() == seq![absorb_event(protocol_id_spec())],
            proof.layer_commitments@.len() >= 1,
            old(self).domain_spec().len() >= 1,
        ensures
            ({
                let seed_hist = seq![absorb_event(protocol_id_spec())];
                let cs = proof.layer_commitments.deep_view();
                let k = (cs.len() - 1) as nat;
                let hf = replay_hist(seed_hist, cs, k).push(
                    absorb_event(felt_bytes(proof.last_layer_value)),
                );
                let n0 = old(self).domain_spec().len() as int;
                &&& r.0@.len() == k
                &&& (forall|i: int|
                    0 <= i < k ==> #[trigger] r.0@[i] == replay_beta(seed_hist, cs, i as nat)
                        && r.0@[i] < FIELD_MODULUS)
                &&& r.1@.len() == proof.query_decommitments@.len()
                &&& (forall|q: int|
                    0 <= q < r.1@.len() ==> #[trigger] r.1@[q] == query_index(hf, q as nat, n0)
                        && r.1@[q] < n0)
                &&& final(self).hist() == push_blocks(hf, proof.query_decommitments@.len())
            }),
            final(self).domain_spec() == old(self).domain_spec(),
    {
        let ghost seed_hist = seq![absorb_event(protocol_id_spec())];
        let ghost cs = proof.layer_commitments.deep_view();
        let ghost k = (cs.len() - 1) as nat;
        let first_bytes = bytes32_to_vec(&proof.layer_commitments[0]);
        self.transcript.append_bytes(&first_bytes);
        proof {
            assert(cs[0int] =~= proof.layer_commitments@[0int]@);
            assert(self.hist() == replay_hist(seed_hist, cs, 0));
        }
        let mut betas: Vec<u64> = Vec::new();
        let mut i: usize = 1;
        while i < proof.layer_commitments.len()
            invariant
                cs == proof.layer_commitments.deep_view(),
                cs.len() == proof.layer_commitments@.len(),
                1 <= i <= cs.len(),
                betas@.len() == i - 1,
                forall|ii: int|
                    0 <= ii < i - 1 ==> #[trigger] betas@[ii] == replay_beta(
                        seed_hist,
                        cs,
                        ii as nat,
                    ) && betas@[ii] < FIELD_MODULUS,
                self.hist() == replay_hist(seed_hist, cs, (i - 1) as nat),
                self.domain_spec() == old(self).domain_spec(),
            decreases cs.len() - i,
        {
            let beta = self.transcript.sample_felt();
            let commit_bytes = bytes32_to_vec(&proof.layer_commitments[i]);
            self.transcript.append_bytes(&commit_bytes);
            betas.push(beta);
            proof {
                assert(cs[i as int] =~= proof.layer_commitments@[i as int]@);
                assert(self.hist() == replay_hist(seed_hist, cs, i as nat));
            }
            i = i + 1;
        }
        let last_bytes = felt_to_bytes(proof.last_layer_value);
        self.transcript.append_bytes(&last_bytes);
        let ghost hf = replay_hist(seed_hist, cs, k).push(
            absorb_event(felt_bytes(proof.last_layer_value)),
        );
        proof {
            assert(self.hist() == hf);
            assert(push_blocks(hf, 0nat) == hf);
        }
        let n0 = self.params.domain.len();
        let nq = proof.query_decommitments.len();
        let mut query_indices: Vec<usize> = Vec::new();
        let mut q: usize = 0;
        while q < nq
            invariant
                n0 == old(self).domain_spec().len(),
                n0 >= 1,
                q <= nq,
                query_indices@.len() == q,
                forall|qq: int|
                    0 <= qq < q ==> #[trigger] query_indices@[qq] == query_index(
                        hf,
                        qq as nat,
                        n0 as int,
                    ) && query_indices@[qq] < n0,
                self.hist() == push_blocks(hf, q as nat),
                self.domain_spec() == old(self).domain_spec(),
            decreases nq - q,
        {
            let idx = self.sample_index(n0);
            query_indices.push(idx);
            q = q + 1;
        }
        (betas, query_indices)
    }

    /// Checks both Merkle openings of one query in every layer, walking
    /// the query index down as the layers halve.
    fn verify_merkle_paths(
        &self,
        proof: &FriProof,
        query_idx: usize,
        decommitment: &QueryDecommitment,
    ) -> (r: Result<(), FriError>)
        requires
            proof.wf(self.domain_spec().len() as int),
            decommitment.wf(proof.layer_commitments@.len() as int),
            self.domain_spec().len() >= 1,
        ensures
            r == merkle_scan(
                proof.layer_commitments.deep_view(),
                *decommitment,
                self.domain_spec().len() as int,
                query_idx as int,
                0,
            ),
    {
        let ghost cs = proof.layer_commitments.deep_view();
        let ghost n0 = self.domain_spec().len() as int;
        let domain_len = self.params.domain.len();
        let kk = proof.layer_commitments.len();
        let mut current_idx = query_idx;
        let mut i: usize = 0;
        while i < kk
            invariant
                cs == proof.layer_commitments.deep_view(),
                cs.len() == kk,
                n0 == self.domain_spec().len(),
                n0 >= 1,
                domain_len == n0,
                proof.wf(n0),
                decommitment.wf(kk as int),
                i <= kk,
                merkle_scan(cs, *decommitment, n0, query_idx as int, 0) == merkle_scan(
                    cs,
                    *decommitment,
                    n0,
                    current_idx as int,
                    i as nat,
                ),
            decreases kk - i,
        {
            let domain_size = half_size_exec(domain_len, i);
            proof {
                lemma_half_size_mono(n0, i as nat, (kk - 1) as nat);
                assert(domain_size >= 1);
            }
            let sym_idx = ((current_idx as u128 + (domain_size / 2) as u128) % (
            domain_size as u128)) as usize;
            proof {
                vstd::arithmetic::div_mod::lemma_mod_bound(
                    current_idx + domain_size / 2,
                    domain_size as int,
                );
                assert(sym_idx as int == sym_index(current_idx as int, half_size(n0, i as nat)));
                assert(cs[i as int] =~= proof.layer_commitments@[i as int]@);
            }
            let ok_main = merkle_verify(
                &proof.layer_commitments[i],
                current_idx,
                decommitment.layer_evaluations[i],
                &decommitment.layer_auth_paths[i],
            );
            if !ok_main {
                return Err(FriError::InvalidMerkleProof);
            }
            let ok_sym = merkle_verify(
                &proof.layer_commitments[i],
                sym_idx,
                decommitment.layer_evaluations_sym[i],
                &decommitment.layer_auth_paths_sym[i],
            );
            if !ok_sym {
                return Err(FriError::InvalidMerkleProof);
            }
            let half = domain_size / 2;
            let modulus = if half >= 1 {
                half
            } else {
                1
            };
            current_idx = current_idx % modulus;
            i = i + 1;
        }
        Ok(())
    }

    /// Recomputes the folding chain of one query from the next-to-last
    /// layer down to the first and compares each folded value with the
    /// claimed child evaluation.
    fn verify_folding_consistency(
        &self,
        proof: &FriProof,
        query_idx: usize,
        decommitment: &QueryDecommitment,
        betas: &Vec<u64>,
        generator: u64,
    ) -> (r: Result<(), FriError>)
        requires
            proof.wf(self.domain_spec().len() as int),
            decommitment.wf(proof.layer_commitments@.len() as int),
            self.domain_spec().len() >= 1,
            betas@.len() == proof.layer_commitments@.len() - 1,
            fe_reduced(betas@),
            generator < FIELD_MODULUS,
        ensures
            r == fold_scan(
                *decommitment,
                betas@,
                generator,
                self.domain_spec().len() as int,
                query_idx as int,
                proof.last_layer_value,
                proof.layer_commitments@.len() - 2,
            ),
    {
        let ghost n0 = self.domain_spec().len() as int;
        let domain_len = self.params.domain.len();
        let kk = proof.layer_commitments.len();
        let mut claimed: u64 = proof.last_layer_value;
        let mut ii: usize = kk;
        proof {
            lemma_half_size_pow2(n0, (kk - 1) as nat);
        }
        while ii > 1
            invariant
                n0 == self.domain_spec().len(),
                n0 >= 1,
                domain_len == n0,
                kk == proof.layer_commitments@.len(),
                kk >= 1,
                proof.wf(n0),
                decommitment.wf(kk as int),
                betas@.len() == kk - 1,
                fe_reduced(betas@),
                generator < FIELD_MODULUS,
                1 <= ii <= kk,
                claimed < FIELD_MODULUS,
                pow2((kk - 1) as nat) <= n0,
                fold_scan(
                    *decommitment,
                    betas@,
                    generator,
                    n0,
                    query_idx as int,
                    proof.last_layer_value,
                    kk - 2,
                ) == fold_scan(
                    *decommitment,
                    betas@,
                    generator,
                    n0,
                    query_idx as int,
                    claimed,
                    ii - 2,
                ),
            decreases ii,
        {
            let i = ii - 2;
            let nj = half_size_exec(domain_len, i);
            proof {
                lemma_half_size_mono(n0, i as nat, (kk - 1) as nat);
                assert(nj >= 1);
                if (i as nat) < (kk - 1) as nat {
                    vstd::arithmetic::power2::lemma_pow2_strictly_increases(
                        i as nat,
                        (kk - 1) as nat,
                    );
                }
            }
            let idx_in_layer = query_idx % nj;
            let gi = pow_fe(generator, pow2_exec(i));
            let x = pow_fe(gi, idx_in_layer as u64);
            let x_inv = inv_fe(x);
            let two_inv = inv_fe(2);
            let y = decommitment.layer_evaluations[i];
            let y_sym = decommitment.layer_evaluations_sym[i];
            let f_even = mul_fe(add_fe(y, y_sym), two_inv);
            let f_odd = mul_fe(mul_fe(sub_fe(y, y_sym), two_inv), x_inv);
            let expected = add_fe(f_even, mul_fe(betas[i], f_odd));
            proof {
                assert(expected as int == fold_value(
                    y as int,
                    y_sym as int,
                    fe_exp(fe_exp(generator as int, pow2(i as nat)), idx_in_layer as nat),
                    betas@[i as int] as int,
                ));
            }
            if claimed != expected {
                return Err(
                    FriError::InconsistentFolding { layer: i, expected, got: claimed },
                );
            }
            claimed = y;
            ii = ii - 1;
        }
        Ok(())
    }

    /// Verifies a single query: the Merkle phase first, then the folding
    /// phase.
    fn verify_query(
        &self,
        proof: &FriProof,
        query_idx: usize,
        betas: &Vec<u64>,
        generator: u64,
        decommitment: &QueryDecommitment,
    ) -> (r: Result<(), FriError>)
        requires
            proof.wf(self.domain_spec().len() as int),
            decommitment.wf(proof.layer_commitments@.len() as int),
            self.domain_spec().len() >= 1,
            betas@.len() == proof.layer_commitments@.len() - 1,
            fe_reduced(betas@),
            generator < FIELD_MODULUS,
        ensures
            r == ({
                let m = merkle_scan(
                    proof.layer_commitments.deep_view(),
                    *decommitment,
                    self.domain_spec().len() as int,
                    query_idx as int,
                    0,
                );
                if m is Err {
                    m
                } else {
                    fold_scan(
                        *decommitment,
                        betas@,
                        generator,
                        self.domain_spec().len() as int,
                        query_idx as int,
                        proof.last_layer_value,
                        proof.layer_commitments@.len() - 2,
                    )
                }
            }),
    {
        let m = self.verify_merkle_paths(proof, query_idx, decommitment);
        if m.is_err() {
            return m;
        }
        self.verify_folding_consistency(proof, query_idx, decommitment, betas, generator)
    }

    /// Verifies a FRI proof: replay the transcript, then check every
    /// query's Merkle openings and folding chain. Returns exactly the
    /// verdict of `spec_verify`.
    #[verifier::rlimit(100)]
    pub fn verify(&mut self, proof: &FriProof) -> (r: Result<(), FriError>)
        requires
            old(self).hist() == seq![absorb_event(protocol_id_spec())],
            old(self).domain_spec().len() >= 1,
            tz_spec(old(self).domain_spec().len() as int) <= 24,
            proof.wf(old(self).domain_spec().len() as int),
        ensures
            r == spec_verify(*proof, old(self).domain_spec().len() as int),
    {
        let ghost n0 = self.domain_spec().len() as int;
        let ghost seed_hist = seq![absorb_event(protocol_id_spec())];
        let ghost cs = proof.layer_commitments.deep_view();
        let ghost k = (cs.len() - 1) as nat;
        let ghost hf = replay_hist(seed_hist, cs, k).push(
            absorb_event(felt_bytes(proof.last_layer_value)),
        );
        let (betas, query_indices) = self.reconstruct_challenges(proof);
        let ghost betas_spec = Seq::new(k, |i: int| replay_beta(seed_hist, cs, i as nat));
        let ghost qidx_spec = Seq::new(
            proof.query_decommitments@.len(),
            |q: int| query_index(hf, q as nat, n0),
        );
        proof {
            assert(betas@ =~= betas_spec);
        }
        let root_order = trailing_zeros(self.params.domain.len());
        let generator = primitive_root_of_unity(root_order);
        proof {
            assert(spec_verify(*proof, n0) == query_scan(
                *proof,
                betas_spec,
                generator,
                n0,
                qidx_spec,
                0,
            ));
        }
        let nq = query_indices.len();
        let mut query_num: usize = 0;
        while query_num < nq
            invariant
                n0 == self.domain_spec().len(),
                self.domain_spec() == old(self).domain_spec(),
                n0 >= 1,
                proof.wf(n0),
                generator < FIELD_MODULUS,
                betas@ == betas_spec,
                betas@.len() == proof.layer_commitments@.len() - 1,
                fe_reduced(betas@),
                query_indices@.len() == nq,
                nq == proof.query_decommitments@.len(),
                qidx_spec.len() == nq,
                forall|qq: int| 0 <= qq < nq ==> qidx_spec[qq] == #[trigger] query_indices@[qq] as int,
                query_num <= nq,
                spec_verify(*proof, n0) == query_scan(
                    *proof,
                    betas_spec,
                    generator,
                    n0,
                    qidx_spec,
                    query_num as nat,
                ),
            decreases nq - query_num,
        {
            let query_idx = query_indices[query_num];
            let result = self.verify_query(
                proof,
                query_idx,
                &betas,
                generator,
                &proof.query_decommitments[query_num],
            );
            proof {
                lemma_query_scan_step(
                    *proof,
                    betas_spec,
                    generator,
                    n0,
                    qidx_spec,
                    query_num as nat,
                );
                assert(qidx_spec[query_num as int] == query_idx as int);
                let dec = proof.query_decommitments@[query_num as int];
                let m = merkle_scan(
                    proof.layer_commitments.deep_view(),
                    dec,
                    n0,
                    qidx_spec[query_num as int],
                    0,
                );
                let f = fold_scan(
                    dec,
                    betas_spec,
                    generator,
                    n0,
                    qidx_spec[query_num as int],
                    proof.last_layer_value,
                    proof.layer_commitments@.len() - 2,
                );
                assert(result == (if m is Err {
                    m
                } else {
                    f
                }));
                if result is Err {
                    assert(spec_verify(*proof, n0) == result);
                } else {
                    assert(spec_verify(*proof, n0) == query_scan(
                        *proof,
                        betas_spec,
                        generator,
                        n0,
                        qidx_spec,
                        (query_num + 1) as nat,
                    ));
                }
            }
            if let Err(e) = result {
                return Err(e);
            }
            query_num = query_num + 1;
        }
        Ok(())
    }
}

} // verus!

use crate::types::{
    beta_model, decommit_matches, eval_seq, hist_after_fold, initial_hist, layer_model,
    lemma_fold_value_in_range, lemma_fold_value_sym, lemma_half_size_pow2_exact,
    lemma_layer_index_mod, lemma_layer_model_domain, lemma_layer_model_reduced,
    lemma_layer_model_sizes, lemma_num_folds_pow2, num_folds, prover_pins,
};
use crate::felt::{fe_mul, fe_reduced as fe_reduced_seq, FIELD_MODULUS as P_CONST};
use crate::field::{is_pow2_spec, lemma_pow2_of_tz};

verus! {

/// The verifier's transcript replay reproduces the prover's history: both
/// absorb the same roots and squeeze at the same points.
proof fn lemma_replay_matches(
    e0: Seq<u64>,
    d0: Seq<u64>,
    h0: Seq<Seq<u8>>,
    seed_hist: Seq<Seq<u8>>,
    cs: Seq<Seq<u8>>,
    j: nat,
)
    requires
        cs.len() >= 1,
        j < cs.len(),
        h0 == seed_hist.push(crate::backend::absorb_event(cs[0])),
        forall|jj: int|
            0 <= jj < cs.len() ==> #[trigger] cs[jj] == crate::backend::merkle_root_of(
                layer_model(e0, d0, h0, jj as nat).evals,
            ),
    ensures
        replay_hist(seed_hist, cs, j) == layer_model(e0, d0, h0, j).hist,
    decreases j,
{
    if j > 0 {
        lemma_replay_matches(e0, d0, h0, seed_hist, cs, (j - 1) as nat);
    }
}

/// For an honest decommitment the Merkle phase accepts every layer.
proof fn lemma_merkle_scan_ok(
    cs: Seq<Seq<u8>>,
    dec: QueryDecommitment,
    evs: Seq<Seq<u64>>,
    n0: int,
    q0: int,
    j: nat,
)
    requires
        evs.len() == cs.len(),
        decommit_matches(dec, evs, n0, q0),
        forall|jj: int|
            0 <= jj < cs.len() ==> #[trigger] cs[jj] == crate::backend::merkle_root_of(evs[jj]),
        j <= cs.len(),
    ensures
        merkle_scan(cs, dec, n0, crate::types::layer_index(n0, q0, j), j) == Ok::<(), FriError>(
            (),
        ),
    decreases cs.len() - j,
{
    if j < cs.len() {
        let idxj = crate::types::layer_index(n0, q0, j);
        let nj = half_size(n0, j);
        reveal(crate::types::decommit_matches);
        assert(dec.layer_evaluations@[j as int] == evs[j as int][idxj]);
        lemma_merkle_scan_ok(cs, dec, evs, n0, q0, (j + 1) as nat);
        assert(crate::types::layer_index(n0, q0, (j + 1) as nat) == idxj % (if nj / 2 >= 1 {
            nj / 2
        } else {
            1
        }));
    }
}

/// The algebraic core of one folding check: over a power-of-two subgroup
/// domain, the verifier's recomputed value at the walked-down index equals
/// the fold of the first-half pair at the reduced index, whether the index
/// fell in the first half (same point) or the second (negated point,
/// swapped pair).
#[verifier::rlimit(100)]
#[verifier::spinoff_prover]
proof fn lemma_fold_step_value(g: u64, t: nat, i: int, q0: int, ei: Seq<u64>, di: Seq<u64>, beta: u64)
    requires
        0 <= i <= t - 1,
        0 <= q0 < pow2(t),
        ei.len() == pow2((t - i) as nat),
        di.len() == ei.len(),
        fe_reduced(ei),
        g < FIELD_MODULUS,
        crate::felt::fe_exp(g as int, pow2((t - 1) as nat)) == (FIELD_MODULUS - 1) as int,
        forall|m: int|
            0 <= m < di.len() ==> #[trigger] di[m] == crate::felt::fe_exp(
                crate::felt::fe_exp(g as int, pow2(i as nat)),
                m as nat,
            ),
    ensures
        ({
            let nj = pow2((t - i) as nat) as int;
            let half = nj / 2;
            let idx = q0 % nj;
            let m = q0 % half;
            let sym = sym_index(idx, nj);
            let x = crate::felt::fe_exp(
                crate::felt::fe_exp(g as int, pow2(i as nat)),
                idx as nat,
            );
            fold_value(ei[idx] as int, ei[sym] as int, x, beta as int) == fold_value(
                ei[m] as int,
                ei[m + half] as int,
                di[m] as int,
                beta as int,
            )
        }),
{
    let nj = pow2((t - i) as nat) as int;
    vstd::arithmetic::power2::lemma_pow2_unfold((t - i) as nat);
    vstd::arithmetic::power2::lemma_pow2_pos((t - i - 1) as nat);
    let half = pow2((t - i - 1) as nat) as int;
    assert(nj == 2 * half);
    let idx = q0 % nj;
    let m = q0 % half;
    vstd::arithmetic::div_mod::lemma_mod_bound(q0, nj);
    vstd::arithmetic::div_mod::lemma_mod_bound(q0, half);
    vstd::arithmetic::div_mod::lemma_mod_mod(q0, half, 2);
    assert(m == idx % half);
    let sym = sym_index(idx, nj);
    let gi = crate::felt::fe_exp(g as int, pow2(i as nat));
    let x = crate::felt::fe_exp(gi, idx as nat);
    crate::felt::lemma_fe_exp_in_range(gi, idx as nat);
    if idx < half {
        assert(m == idx) by {
            vstd::arithmetic::div_mod::lemma_small_mod(idx as nat, half as nat);
        };
        assert(sym == idx + half) by {
            vstd::arithmetic::div_mod::lemma_small_mod((idx + half) as nat, nj as nat);
        };
        assert(di[m] == crate::felt::fe_exp(gi, m as nat));
        assert(x == di[m]);
    } else {
        assert(m == idx - half) by {
            assert(idx == half * 1 + (idx - half));
            vstd::arithmetic::div_mod::lemma_mod_multiples_vanish(1, idx - half, half);
            vstd::arithmetic::div_mod::lemma_small_mod((idx - half) as nat, half as nat);
        };
        assert(sym == idx - half) by {
            assert(idx + half == nj * 1 + (idx - half));
            vstd::arithmetic::div_mod::lemma_mod_multiples_vanish(1, idx - half, nj);
            vstd::arithmetic::div_mod::lemma_small_mod((idx - half) as nat, nj as nat);
        };
        // x = g_i^(m + half) = d_i[m] * (p - 1): the second-half point is
        // the negation of its first-half counterpart.
        crate::felt::lemma_fe_exp_adds(gi, m as nat, half as nat);
        assert(x == fe_mul(
            crate::felt::fe_exp(gi, m as nat),
            crate::felt::fe_exp(gi, half as nat),
        ));
        crate::felt::lemma_fe_exp_multiplies(g as int, pow2(i as nat), (half as nat));
        vstd::arithmetic::power2::lemma_pow2_adds(i as nat, (t - i - 1) as nat);
        assert(pow2(i as nat) * (half as nat) == pow2((t - 1) as nat));
        assert(crate::felt::fe_exp(gi, half as nat) == (FIELD_MODULUS - 1) as int);
        assert(di[m] == crate::felt::fe_exp(gi, m as nat));
        assert(x == fe_mul(di[m] as int, (FIELD_MODULUS - 1) as int));
        crate::felt::lemma_fe_exp_in_range(gi, m as nat);
        lemma_fold_value_sym(ei[idx] as int, ei[sym] as int, di[m] as int, beta as int);
    }
}

/// The folding phase accepts every layer, stated over plain per-layer
/// sequences: `es[j]`/`ds[j]` are layer `j`'s evaluations and domain, tied
/// together by the folding relation, and the decommitment opens `es` at
/// the reduced query index and its symmetric position.
#[verifier::rlimit(100)]
#[verifier::spinoff_prover]
proof fn lemma_fold_scan_ok_abstract(
    dec: QueryDecommitment,
    betas: Seq<u64>,
    g: u64,
    t: nat,
    es: Seq<Seq<u64>>,
    ds: Seq<Seq<u64>>,
    q0: int,
    claimed: u64,
    i: int,
)
    requires
        es.len() == t + 1,
        ds.len() == t + 1,
        forall|j: int| 0 <= j <= t ==> (#[trigger] es[j]).len() == pow2((t - j) as nat),
        forall|j: int| 0 <= j <= t ==> (#[trigger] ds[j]).len() == pow2((t - j) as nat),
        forall|j: int| 0 <= j <= t ==> fe_reduced(#[trigger] es[j]),
        forall|j: int, m: int|
            0 <= j < t && 0 <= m < ds[j].len() ==> #[trigger] ds[j][m] == crate::felt::fe_exp(
                crate::felt::fe_exp(g as int, pow2(j as nat)),
                m as nat,
            ),
        g < FIELD_MODULUS,
        t >= 1 ==> crate::felt::fe_exp(g as int, pow2((t - 1) as nat)) == (FIELD_MODULUS
            - 1) as int,
        betas.len() >= t,
        forall|j: int, m: int|
            0 <= j < t && 0 <= m < es[j + 1].len() ==> #[trigger] es[j + 1][m] == fold_value(
                es[j][m] as int,
                es[j][m + es[j + 1].len()] as int,
                ds[j][m] as int,
                betas[j] as int,
            ) as u64,
        forall|j: int|
            0 <= j <= t ==> #[trigger] dec.layer_evaluations@[j] == es[j][q0 % (pow2(
                (t - j) as nat,
            ) as int)],
        forall|j: int|
            0 <= j <= t ==> #[trigger] dec.layer_evaluations_sym@[j] == es[j][sym_index(
                q0 % (pow2((t - j) as nat) as int),
                pow2((t - j) as nat) as int,
            )],
        0 <= q0 < pow2(t),
        -1 <= i <= t - 1,
        claimed == es[i + 1][q0 % (pow2((t - i - 1) as nat) as int)],
    ensures
        fold_scan(dec, betas, g, pow2(t) as int, q0, claimed, i) == Ok::<(), FriError>(()),
    decreases i + 1,
{
    if i >= 0 {
        let n0 = pow2(t) as int;
        lemma_half_size_pow2_exact(t, i as nat);
        vstd::arithmetic::power2::lemma_pow2_unfold((t - i) as nat);
        vstd::arithmetic::power2::lemma_pow2_pos((t - i - 1) as nat);
        let nj = half_size(n0, i as nat);
        let half = pow2((t - i - 1) as nat) as int;
        assert(nj == 2 * half);
        vstd::arithmetic::div_mod::lemma_mod_bound(q0, nj);
        vstd::arithmetic::div_mod::lemma_mod_bound(q0, half);
        vstd::arithmetic::div_mod::lemma_mod_mod(q0, half, 2);
        let idx = q0 % nj;
        let m = q0 % half;
        assert(m == idx % half);
        let y = dec.layer_evaluations@[i];
        let ysym = dec.layer_evaluations_sym@[i];
        assert(y == es[i][idx]);
        assert(ysym == es[i][sym_index(idx, nj)]);
        assert(es[i + 1].len() == half);
        assert(claimed == es[i + 1][m]);
        assert(es[i + 1][m] == fold_value(
            es[i][m] as int,
            es[i][m + half] as int,
            ds[i][m] as int,
            betas[i] as int,
        ) as u64);
        lemma_fold_value_in_range(
            es[i][m] as int,
            es[i][m + half] as int,
            ds[i][m] as int,
            betas[i] as int,
        );
        lemma_fold_step_value(g, t, i, q0, es[i], ds[i], betas[i]);
        let x = crate::felt::fe_exp(
            crate::felt::fe_exp(g as int, pow2(i as nat)),
            idx as nat,
        );
        assert(fold_value(y as int, ysym as int, x, betas[i] as int) == claimed);
        lemma_fold_scan_ok_abstract(dec, betas, g, t, es, ds, q0, y, i - 1);
        assert(fold_scan(dec, betas, g, n0, q0, claimed, i) == fold_scan(
            dec,
            betas,
            g,
            n0,
            q0,
            y,
            i - 1,
        ));
    }
}

/// Bridges the prover's layer model to the abstract folding lemma: for an
/// honest decommitment over a genuine power-of-two subgroup domain, the
/// folding phase accepts every layer.
#[verifier::rlimit(100)]
#[verifier::spinoff_prover]
proof fn lemma_fold_scan_ok(
    dec: QueryDecommitment,
    betas: Seq<u64>,
    g: u64,
    t: nat,
    e0: Seq<u64>,
    d0: Seq<u64>,
    h0: Seq<Seq<u8>>,
    q0: int,
    claimed: u64,
)
    requires
        e0.len() == pow2(t),
        d0.len() == e0.len(),
        fe_reduced_seq(e0),
        fe_reduced_seq(d0),
        g < FIELD_MODULUS,
        t >= 1 ==> crate::felt::fe_exp(g as int, pow2((t - 1) as nat)) == (FIELD_MODULUS
            - 1) as int,
        forall|ii: int| 0 <= ii < d0.len() ==> #[trigger] d0[ii] == crate::felt::fe_exp(
            g as int,
            ii as nat,
        ),
        betas.len() >= t,
        forall|ii: int|
            0 <= ii < t ==> #[trigger] betas[ii] == beta_model(e0, d0, h0, ii as nat),
        decommit_matches(
            dec,
            Seq::new((t + 1) as nat, |jj: int| layer_model(e0, d0, h0, jj as nat).evals),
            pow2(t) as int,
            q0,
        ),
        0 <= q0 < pow2(t),
        claimed == layer_model(e0, d0, h0, t).evals[0],
    ensures
        fold_scan(dec, betas, g, pow2(t) as int, q0, claimed, t - 1) == Ok::<(), FriError>(()),
{
    let n0 = pow2(t) as int;
    let es = Seq::new((t + 1) as nat, |jj: int| layer_model(e0, d0, h0, jj as nat).evals);
    let ds = Seq::new((t + 1) as nat, |jj: int| layer_model(e0, d0, h0, jj as nat).domain);
    assert forall|j: int| 0 <= j <= t implies (#[trigger] es[j]).len() == pow2((t - j) as nat) by {
        lemma_layer_model_sizes(e0, d0, h0, j as nat);
        lemma_half_size_pow2_exact(t, j as nat);
    }
    assert forall|j: int| 0 <= j <= t implies (#[trigger] ds[j]).len() == pow2((t - j) as nat) by {
        lemma_layer_model_sizes(e0, d0, h0, j as nat);
        lemma_half_size_pow2_exact(t, j as nat);
    }
    assert forall|j: int| 0 <= j <= t implies fe_reduced(#[trigger] es[j]) by {
        lemma_layer_model_reduced(e0, d0, h0, j as nat);
    }
    assert forall|j: int, m: int| 0 <= j < t && 0 <= m < ds[j].len() implies #[trigger] ds[j][m]
        == crate::felt::fe_exp(crate::felt::fe_exp(g as int, pow2(j as nat)), m as nat) by {
        lemma_layer_model_domain(e0, d0, h0, g, j as nat);
    }
    assert forall|j: int, m: int| 0 <= j < t && 0 <= m < es[j + 1].len() implies #[trigger] es[j
        + 1][m] == fold_value(
        es[j][m] as int,
        es[j][m + es[j + 1].len()] as int,
        ds[j][m] as int,
        betas[j] as int,
    ) as u64 by {
        lemma_layer_model_sizes(e0, d0, h0, j as nat);
        lemma_layer_model_sizes(e0, d0, h0, (j + 1) as nat);
        lemma_half_size_pow2_exact(t, j as nat);
        lemma_half_size_pow2_exact(t, (j + 1) as nat);
        vstd::arithmetic::power2::lemma_pow2_unfold((t - j) as nat);
        assert(layer_model(e0, d0, h0, (j + 1) as nat).evals == crate::types::spec_fold_evals(
            layer_model(e0, d0, h0, j as nat).evals,
            layer_model(e0, d0, h0, j as nat).domain,
            beta_model(e0, d0, h0, j as nat),
        ));
    }
    assert forall|j: int| 0 <= j <= t implies #[trigger] dec.layer_evaluations@[j] == es[j][q0 % (
    pow2((t - j) as nat) as int)] by {
        reveal(crate::types::decommit_matches);
        lemma_layer_index_mod(t, q0, j as nat);
        lemma_half_size_pow2_exact(t, j as nat);
        assert(dec.layer_auth_paths@[j].deep_view() == dec.layer_auth_paths@[j].deep_view());
    }
    assert forall|j: int| 0 <= j <= t implies #[trigger] dec.layer_evaluations_sym@[j] == es[j][
    sym_index(q0 % (pow2((t - j) as nat) as int), pow2((t - j) as nat) as int)] by {
        reveal(crate::types::decommit_matches);
        lemma_layer_index_mod(t, q0, j as nat);
        lemma_half_size_pow2_exact(t, j as nat);
        assert(dec.layer_auth_paths@[j].deep_view() == dec.layer_auth_paths@[j].deep_view());
    }
    assert(claimed == es[t as int][q0 % (pow2((t - (t - 1) - 1) as nat) as int)]) by {
        vstd::arithmetic::power2::lemma2_to64();
        vstd::arithmetic::div_mod::lemma_mod_bound(q0, 1int);
        assert(q0 % 1int == 0);
    };
    lemma_fold_scan_ok_abstract(dec, betas, g, t, es, ds, q0, claimed, t - 1);
}

/// All queries of an honestly pinned proof pass both phases.
#[verifier::rlimit(100)]
#[verifier::spinoff_prover]
proof fn lemma_queries_ok(
    pr: FriProof,
    coeffs: Seq<u64>,
    d0: Seq<u64>,
    g: u64,
    betas_spec: Seq<u64>,
    qidx: Seq<int>,
    q: nat,
)
    requires
        prover_pins(pr, coeffs, d0),
        d0.len() == pow2(tz_spec(d0.len() as int)),
        d0.len() >= 1,
        fe_reduced(eval_seq(coeffs, d0)),
        fe_reduced(d0),
        g < FIELD_MODULUS,
        tz_spec(d0.len() as int) >= 1 ==> crate::felt::fe_exp(
            g as int,
            pow2((tz_spec(d0.len() as int) - 1) as nat),
        ) == (FIELD_MODULUS - 1) as int,
        forall|i: int| 0 <= i < d0.len() ==> #[trigger] d0[i] == crate::felt::fe_exp(
            g as int,
            i as nat,
        ),
        betas_spec.len() >= tz_spec(d0.len() as int),
        forall|i: int|
            0 <= i < tz_spec(d0.len() as int) ==> #[trigger] betas_spec[i] == crate::types::beta_model(
                eval_seq(coeffs, d0),
                d0,
                initial_hist(eval_seq(coeffs, d0)),
                i as nat,
            ),
        forall|jj: int|
            0 <= jj < pr.layer_commitments@.len()
                ==> #[trigger] pr.layer_commitments.deep_view()[jj]
                == crate::backend::merkle_root_of(
                layer_model(
                    eval_seq(coeffs, d0),
                    d0,
                    initial_hist(eval_seq(coeffs, d0)),
                    jj as nat,
                ).evals,
            ),
        pr.layer_commitments@.len() == tz_spec(d0.len() as int) + 1,
        qidx.len() == pr.query_decommitments@.len(),
        forall|qq: int|
            0 <= qq < qidx.len() ==> #[trigger] qidx[qq] == query_index(
                hist_after_fold(
                    eval_seq(coeffs, d0),
                    d0,
                    initial_hist(eval_seq(coeffs, d0)),
                    tz_spec(d0.len() as int),
                ),
                qq as nat,
                d0.len() as int,
            ),
        q <= qidx.len(),
    ensures
        query_scan(pr, betas_spec, g, d0.len() as int, qidx, q) == Ok::<(), FriError>(()),
    decreases qidx.len() - q,
{
    if q < qidx.len() {
        let n0 = d0.len() as int;
        let t = tz_spec(n0);
        let e0 = eval_seq(coeffs, d0);
        let h0 = initial_hist(e0);
        let evs = Seq::new((t + 1) as nat, |jj: int| layer_model(e0, d0, h0, jj as nat).evals);
        let q0 = qidx[q as int];
        assert(0 <= q0 < n0) by {
            vstd::arithmetic::div_mod::lemma_mod_bound(
                crate::types::be_val(
                    crate::backend::transcript_block_of(
                        crate::types::push_blocks(
                            hist_after_fold(e0, d0, h0, t),
                            q as nat,
                        ),
                    ).take(8),
                ),
                n0,
            );
        };
        let dec = pr.query_decommitments@[q as int];
        let cs = pr.layer_commitments.deep_view();
        lemma_num_folds_pow2(t);
        assert(num_folds(e0.len()) == t);
        assert(decommit_matches(dec, evs, n0, q0));
        assert(cs.len() == t + 1);
        lemma_merkle_scan_ok(cs, dec, evs, n0, q0, 0);
        assert(crate::types::layer_index(n0, q0, 0) == q0);
        assert(merkle_scan(cs, dec, n0, q0, 0) == Ok::<(), FriError>(()));
        lemma_fold_scan_ok(dec, betas_spec, g, t, e0, d0, h0, q0, pr.last_layer_value);
        assert(fold_scan(dec, betas_spec, g, n0, q0, pr.last_layer_value, t - 1) == Ok::<
            (),
            FriError,
        >(()));
        lemma_query_scan_step(pr, betas_spec, g, n0, qidx, q);
        lemma_queries_ok(pr, coeffs, d0, g, betas_spec, qidx, (q + 1) as nat);
    }
}

/// The round-trip law of the protocol: a proof produced by the honest
/// prover for a polynomial over a genuine power-of-two subgroup domain is
/// accepted by the verifier. The generator hypotheses are exactly what the
/// backend guarantees for its primitive root of unity.
#[verifier::rlimit(100)]
#[verifier::spinoff_prover]
pub proof fn lemma_prove_verifies(pr: FriProof, coeffs: Seq<u64>, d0: Seq<u64>, g: u64)
    requires
        d0.len() >= 2,
        is_pow2_spec(d0.len() as int),
        fe_reduced(d0),
        g == root_of_unity(tz_spec(d0.len() as int)),
        g < FIELD_MODULUS,
        crate::felt::fe_exp(g as int, pow2((tz_spec(d0.len() as int) - 1) as nat)) == (
        FIELD_MODULUS - 1) as int,
        forall|i: int| 0 <= i < d0.len() ==> #[trigger] d0[i] == crate::felt::fe_exp(
            g as int,
            i as nat,
        ),
        prover_pins(pr, coeffs, d0),
        pr.layer_commitments@.len() >= 1,
    ensures
        spec_verify(pr, d0.len() as int) == Ok::<(), FriError>(()),
{
    let n0 = d0.len() as int;
    let t = tz_spec(n0);
    lemma_pow2_of_tz(n0);
    assert(pow2(t) == n0);
    let e0 = eval_seq(coeffs, d0);
    let h0 = initial_hist(e0);
    lemma_num_folds_pow2(t);
    let k = num_folds(e0.len());
    assert(e0.len() == n0);
    assert(k == t);
    assert(fe_reduced(e0)) by {
        assert forall|i: int| 0 <= i < e0.len() implies #[trigger] e0[i] < FIELD_MODULUS by {
            crate::felt::lemma_fe_poly_eval_in_range(coeffs, d0[i] as int);
        }
    };
    let seed_hist = seq![absorb_event(protocol_id_spec())];
    let cs = pr.layer_commitments.deep_view();
    assert(cs.len() == k + 1);
    assert forall|jj: int| 0 <= jj < cs.len() implies #[trigger] cs[jj]
        == crate::backend::merkle_root_of(layer_model(e0, d0, h0, jj as nat).evals) by {
        assert(cs[jj] =~= pr.layer_commitments@[jj]@);
    }
    // The replayed histories, challenges and query indices coincide with
    // the prover's.
    assert(h0 == seed_hist.push(absorb_event(cs[0])));
    assert forall|i: int| 0 <= i < t implies #[trigger] replay_beta(seed_hist, cs, i as nat)
        == crate::types::beta_model(e0, d0, h0, i as nat) by {
        lemma_replay_matches(e0, d0, h0, seed_hist, cs, i as nat);
    }
    lemma_replay_matches(e0, d0, h0, seed_hist, cs, k);
    let hf = replay_hist(seed_hist, cs, k).push(absorb_event(felt_bytes(pr.last_layer_value)));
    assert(hf == hist_after_fold(e0, d0, h0, k));
    let betas_spec = Seq::new(k, |i: int| replay_beta(seed_hist, cs, i as nat));
    let qidx = Seq::new(
        pr.query_decommitments@.len(),
        |qq: int| query_index(hf, qq as nat, n0),
    );
    lemma_queries_ok(pr, coeffs, d0, g, betas_spec, qidx, 0);
    assert(spec_verify(pr, n0) == query_scan(pr, betas_spec, g, n0, qidx, 0));
}

/// The last-layer law at the proof level: a proof pinned to a polynomial
/// with at most as many coefficients as the domain has points carries, as
/// its last layer value, the single coefficient left after fully folding
/// those coefficients under the transcript challenges (or zero when none
/// remains) — a constant determined before any query is made.
#[verifier::rlimit(100)]
#[verifier::spinoff_prover]
pub proof fn lemma_proof_last_layer_constant(
    pr: FriProof,
    coeffs: Seq<u64>,
    d0: Seq<u64>,
    g: u64,
)
    requires
        is_pow2_spec(d0.len() as int),
        d0.len() >= 2,
        d0.len() <= 0x1000000,
        fe_reduced(d0),
        fe_reduced(coeffs),
        coeffs.len() <= d0.len(),
        g < FIELD_MODULUS,
        fe_exp(g as int, pow2(tz_spec(d0.len() as int))) == 1,
        fe_exp(g as int, pow2((tz_spec(d0.len() as int) - 1) as nat)) == (FIELD_MODULUS
            - 1) as int,
        forall|i: int| 0 <= i < d0.len() ==> #[trigger] d0[i] == fe_exp(g as int, i as nat),
        prover_pins(pr, coeffs, d0),
    ensures
        ({
            let e0 = eval_seq(coeffs, d0);
            let ct = crate::types::folded_coeffs(
                coeffs,
                e0,
                d0,
                initial_hist(e0),
                tz_spec(d0.len() as int),
            );
            &&& ct.len() <= 1
            &&& pr.last_layer_value == (if ct.len() == 1 {
                ct[0]
            } else {
                0
            })
        }),
{
    let n0 = d0.len() as int;
    let t = tz_spec(n0);
    lemma_pow2_of_tz(n0);
    let e0 = eval_seq(coeffs, d0);
    let h0 = initial_hist(e0);
    lemma_num_folds_pow2(t);
    assert(e0.len() == pow2(t));
    vstd::arithmetic::power2::lemma2_to64();
    crate::field::lemma_tz_le(n0, 24nat);
    crate::types::lemma_last_layer_constant(coeffs, d0, h0, g, t);
    assert(pr.last_layer_value == layer_model(e0, d0, h0, t).evals[0]);
}

} // verus!
