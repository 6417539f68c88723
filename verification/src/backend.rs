//! The boundary to the outside cryptographic and FFT primitives: Merkle
//! trees and Fiat-Shamir transcripts from `lambdaworks_crypto`, and
//! FFT-based polynomial routines and roots of unity from `lambdaworks_math`,
//! all over the Babybear prime field.
//!
//! Each wrapper converts between this crate's canonical `u64` residues and
//! the backend's field elements, and states what the wrapped call returns.
//! Results that are deterministic functions of the inputs but have no short
//! closed form (hashes, transcript squeezes) are given uninterpreted names.

use vstd::prelude::*;
use vstd::arithmetic::power2::pow2;

use lambdaworks_crypto::fiat_shamir::default_transcript::DefaultTranscript;
use lambdaworks_crypto::fiat_shamir::is_transcript::IsTranscript;
use lambdaworks_crypto::merkle_tree::backends::types::Keccak256Backend;
use lambdaworks_crypto::merkle_tree::merkle::MerkleTree;
use lambdaworks_crypto::merkle_tree::proof::Proof;
use lambdaworks_math::fft::cpu::roots_of_unity::{
    get_powers_of_primitive_root, get_powers_of_primitive_root_coset,
};
use lambdaworks_math::field::element::FieldElement;
use lambdaworks_math::field::fields::fft_friendly::babybear::Babybear31PrimeField;
use lambdaworks_math::field::traits::{IsFFTField, RootsConfig};
use lambdaworks_math::polynomial::Polynomial;

use crate::felt::{fe_exp, fe_mul, fe_poly_eval, fe_reduced, FIELD_MODULUS};

verus! {

/// A Merkle tree over the Babybear Keccak256 backend, committing to a
/// vector of field elements. The tree itself is opaque; its contents are
/// captured by `tree_leaves`.
#[verifier::external_body]
pub struct CommitTree {
    inner: MerkleTree<Keccak256Backend<Babybear31PrimeField>>,
}

/// The contents of a committed Merkle tree: the canonical residues of the
/// leaves it was built over, in leaf order.
pub uninterp spec fn tree_leaves(t: CommitTree) -> Seq<u64>;

/// The 32-byte Merkle root determined by a leaf sequence.
pub uninterp spec fn merkle_root_of(leaves: Seq<u64>) -> Seq<u8>;

/// The authentication path produced for position `pos` of a tree with the
/// given leaves.
pub uninterp spec fn merkle_path_of(leaves: Seq<u64>, pos: int) -> Seq<Seq<u8>>;

/// The verdict of the backend's Merkle path verification, a function of the
/// root, the position, the claimed leaf value and the path alone.
pub uninterp spec fn merkle_verify_spec(
    root: Seq<u8>,
    pos: int,
    value: u64,
    path: Seq<Seq<u8>>,
) -> bool;

/// The field element squeezed by `sample_field_element` from a transcript
/// whose absorb/squeeze history is `h`.
pub uninterp spec fn transcript_felt_of(h: Seq<Seq<u8>>) -> u64;

/// The 32-byte block squeezed by `sample` from a transcript whose
/// absorb/squeeze history is `h`.
pub uninterp spec fn transcript_block_of(h: Seq<Seq<u8>>) -> Seq<u8>;

/// The primitive `2^order`-th root of unity that the backend returns for
/// the Babybear field.
pub uninterp spec fn root_of_unity(order: nat) -> u64;

/// A transcript history entry recording that `b` was absorbed.
pub open spec fn absorb_event(b: Seq<u8>) -> Seq<u8> {
    seq![0u8] + b
}

/// A transcript history entry recording a field-element squeeze.
pub open spec fn felt_event() -> Seq<u8> {
    seq![1u8]
}

/// A transcript history entry recording a 32-byte block squeeze.
pub open spec fn block_event() -> Seq<u8> {
    seq![2u8]
}

/// A Fiat-Shamir transcript over the Babybear field, abstracted by the
/// ordered history of its absorb and squeeze operations. Equal histories
/// mean equal internal hash states, so every squeeze is specified as a
/// function of the history at the time of the call.
pub struct Transcript {
    inner: TranscriptInner,
    history: Ghost<Seq<Seq<u8>>>,
}

/// The backend transcript state, opaque to the verifier.
#[verifier::external_body]
pub struct TranscriptInner {
    inner: DefaultTranscript<Babybear31PrimeField>,
}

impl View for Transcript {
    type V = Seq<Seq<u8>>;

    closed spec fn view(&self) -> Seq<Seq<u8>> {
        self.history@
    }
}

/// Relies on `DefaultTranscript::new`, which absorbs the seed into a fresh
/// Keccak256 state. The state is captured abstractly by the history that
/// `Transcript::new` attaches: a single absorb of the seed.
#[verifier::external_body]
fn transcript_inner_new(seed: &Vec<u8>) -> (t: TranscriptInner) {
    TranscriptInner { inner: DefaultTranscript::new(seed.as_slice()) }
}

impl Transcript {
    /// A transcript seeded by absorbing `seed`.
    pub fn new(seed: &Vec<u8>) -> (t: Transcript)
        ensures
            t@ == seq![absorb_event(seed@)],
    {
        let ghost hseq: Seq<Seq<u8>> = seq![absorb_event(seed@)];
        let h: Ghost<Seq<Seq<u8>>> = Ghost(hseq);
        Transcript { inner: transcript_inner_new(seed), history: h }
    }

    /// Relies on `IsTranscript::append_bytes`, which feeds the bytes to the
    /// running hash.
    #[verifier::external_body]
    pub fn append_bytes(&mut self, bytes: &Vec<u8>)
        ensures
            final(self)@ == old(self)@.push(absorb_event(bytes@)),
    {
        self.inner.inner.append_bytes(bytes.as_slice());
    }

    /// Relies on `IsTranscript::sample_field_element`: a Babybear element
    /// derived deterministically from the current hash state, which the
    /// squeeze also advances.
    #[verifier::external_body]
    pub fn sample_felt(&mut self) -> (r: u64)
        ensures
            r == transcript_felt_of(old(self)@),
            r < FIELD_MODULUS,
            final(self)@ == old(self)@.push(felt_event()),
    {
        self.inner.inner.sample_field_element().representative().limbs[0]
    }

    /// Relies on `DefaultTranscript::sample`: 32 bytes derived
    /// deterministically from the current hash state, which the squeeze
    /// also advances.
    #[verifier::external_body]
    pub fn sample_block(&mut self) -> (r: [u8; 32])
        ensures
            r@ == transcript_block_of(old(self)@),
            final(self)@ == old(self)@.push(block_event()),
    {
        self.inner.inner.sample()
    }
}

/// Relies on `MerkleTree::build` over the Keccak256 backend: it returns
/// `None` exactly on empty input, and otherwise a tree committing to the
/// given leaves. The power-of-two restriction keeps the backend from
/// padding the leaves (it would repeat the last one), so the tree
/// determines its leaf sequence.
#[verifier::external_body]
pub fn merkle_build(leaves: &Vec<u64>) -> (r: Option<CommitTree>)
    requires
        fe_reduced(leaves@),
        crate::field::is_pow2_spec(leaves@.len() as int),
    ensures
        r is Some <==> leaves@.len() > 0,
        r matches Some(t) ==> tree_leaves(t) == leaves@,
{
    let fes: Vec<FieldElement<Babybear31PrimeField>> =
        leaves.iter().map(|v| FieldElement::from(*v)).collect();
    MerkleTree::build(&fes).map(|t| CommitTree { inner: t })
}

/// Relies on the tree's public `root` field: the 32-byte commitment, a
/// function of the leaves alone.
#[verifier::external_body]
pub fn merkle_root(t: &CommitTree) -> (r: [u8; 32])
    ensures
        r@ == merkle_root_of(tree_leaves(*t)),
{
    t.inner.root
}

/// Relies on `MerkleTree::get_proof_by_pos`, which succeeds for every
/// position below the leaf count (the tree is padded to a complete binary
/// tree, so every sibling lookup is in bounds), and on the backend's
/// guarantee that a path generated from the tree verifies against its root
/// at the same position and leaf value.
#[verifier::external_body]
pub fn merkle_path(t: &CommitTree, pos: usize) -> (r: Vec<[u8; 32]>)
    requires
        pos < tree_leaves(*t).len(),
    ensures
        r.deep_view() == merkle_path_of(tree_leaves(*t), pos as int),
        merkle_verify_spec(
            merkle_root_of(tree_leaves(*t)),
            pos as int,
            tree_leaves(*t)[pos as int],
            r.deep_view(),
        ),
{
    t.inner.get_proof_by_pos(pos).unwrap().merkle_path
}

/// Relies on `Proof::verify` over the Keccak256 backend: it rehashes the
/// value along the path and compares against the root, a deterministic
/// function of its arguments named `merkle_verify_spec`.
#[verifier::external_body]
pub fn merkle_verify(root: &[u8; 32], pos: usize, value: u64, path: &Vec<[u8; 32]>) -> (r: bool)
    requires
        value < FIELD_MODULUS,
    ensures
        r == merkle_verify_spec(root@, pos as int, value, path.deep_view()),
{
    let proof = Proof { merkle_path: path.clone() };
    proof.verify::<Keccak256Backend<Babybear31PrimeField>>(
        root,
        pos,
        &FieldElement::from(value),
    )
}

/// Relies on `get_primitive_root_of_unity` for Babybear (two-adicity 24):
/// the result generates the multiplicative subgroup of order `2^order`, so
/// its `2^order` power is one while its `2^(order-1)` power is the other
/// square root of unity, `p - 1`.
#[verifier::external_body]
pub fn primitive_root_of_unity(order: u64) -> (r: u64)
    requires
        order <= 24,
    ensures
        r == root_of_unity(order as nat),
        r < FIELD_MODULUS,
        fe_exp(r as int, pow2(order as nat)) == 1,
        order >= 1 ==> fe_exp(r as int, pow2((order - 1) as nat)) == (FIELD_MODULUS - 1) as int,
        order == 0 ==> r == 1,
{
    let root = Babybear31PrimeField::get_primitive_root_of_unity(order).unwrap();
    root.representative().limbs[0]
}

/// Relies on `get_powers_of_primitive_root` in natural order: the powers
/// `w^0, w^1, ...` of the primitive `2^order`-th root of unity.
#[verifier::external_body]
pub fn powers_of_root(order: u64, count: usize) -> (r: Vec<u64>)
    requires
        order <= 24,
    ensures
        r@.len() == count,
        forall|i: int|
            0 <= i < count ==> #[trigger] r@[i] == fe_exp(
                root_of_unity(order as nat) as int,
                i as nat,
            ) && r@[i] < FIELD_MODULUS,
{
    get_powers_of_primitive_root::<Babybear31PrimeField>(order, count, RootsConfig::Natural)
        .unwrap().iter().map(|e| e.representative().limbs[0]).collect()
}

/// Relies on `get_powers_of_primitive_root_coset`: the same powers, each
/// multiplied by the coset offset.
#[verifier::external_body]
pub fn powers_of_root_coset(order: u64, count: usize, offset: u64) -> (r: Vec<u64>)
    requires
        order <= 24,
    ensures
        r@.len() == count,
        forall|i: int|
            0 <= i < count ==> #[trigger] r@[i] == fe_mul(
                offset as int,
                fe_exp(root_of_unity(order as nat) as int, i as nat),
            ) && r@[i] < FIELD_MODULUS,
{
    let off = FieldElement::from(offset);
    get_powers_of_primitive_root_coset::<Babybear31PrimeField>(order, count, &off)
        .unwrap().iter().map(|e| e.representative().limbs[0]).collect()
}

/// Relies on `Polynomial::evaluate_slice`, Horner evaluation of the
/// polynomial with the given coefficients at each point.
#[verifier::external_body]
pub fn poly_eval_slice(coeffs: &Vec<u64>, xs: &Vec<u64>) -> (r: Vec<u64>)
    requires
        fe_reduced(coeffs@),
        fe_reduced(xs@),
    ensures
        r@.len() == xs@.len(),
        forall|i: int|
            0 <= i < xs@.len() ==> #[trigger] r@[i] == fe_poly_eval(coeffs@, xs@[i] as int)
                && r@[i] < FIELD_MODULUS,
{
    let cs: Vec<FieldElement<Babybear31PrimeField>> =
        coeffs.iter().map(|v| FieldElement::from(*v)).collect();
    let points: Vec<FieldElement<Babybear31PrimeField>> =
        xs.iter().map(|v| FieldElement::from(*v)).collect();
    let poly = Polynomial::new(&cs);
    poly.evaluate_slice(&points).iter().map(|e| e.representative().limbs[0]).collect()
}

/// Relies on `Polynomial::interpolate_fft` over Babybear: for evaluations
/// on the size-`2^order` subgroup in natural order, it returns the
/// coefficients of the unique polynomial of smaller degree through them,
/// `(w^i, evals[i])` for the primitive root `w`.
#[verifier::external_body]
pub fn interpolate_subgroup(evals: &Vec<u64>, order: u64) -> (r: Vec<u64>)
    requires
        order <= 24,
        evals@.len() == pow2(order as nat),
        fe_reduced(evals@),
    ensures
        r@.len() <= evals@.len(),
        fe_reduced(r@),
        forall|i: int|
            0 <= i < evals@.len() ==> #[trigger] fe_poly_eval(
                r@,
                fe_exp(root_of_unity(order as nat) as int, i as nat),
            ) == evals@[i],
{
    let fes: Vec<FieldElement<Babybear31PrimeField>> =
        evals.iter().map(|v| FieldElement::from(*v)).collect();
    let poly = Polynomial::interpolate_fft::<Babybear31PrimeField>(&fes).unwrap();
    poly.coefficients.iter().map(|e| e.representative().limbs[0]).collect()
}

/// Relies on `Polynomial::interpolate_offset_fft` over Babybear: as
/// `interpolate_subgroup`, but through `(offset * w^i, evals[i])`.
#[verifier::external_body]
pub fn interpolate_coset(evals: &Vec<u64>, order: u64, offset: u64) -> (r: Vec<u64>)
    requires
        order <= 24,
        evals@.len() == pow2(order as nat),
        fe_reduced(evals@),
        0 < offset < FIELD_MODULUS,
    ensures
        r@.len() <= evals@.len(),
        fe_reduced(r@),
        forall|i: int|
            0 <= i < evals@.len() ==> #[trigger] fe_poly_eval(
                r@,
                fe_mul(offset as int, fe_exp(root_of_unity(order as nat) as int, i as nat)),
            ) == evals@[i],
{
    let fes: Vec<FieldElement<Babybear31PrimeField>> =
        evals.iter().map(|v| FieldElement::from(*v)).collect();
    let off = FieldElement::from(offset);
    let poly = Polynomial::interpolate_offset_fft::<Babybear31PrimeField>(&fes, &off).unwrap();
    poly.coefficients.iter().map(|e| e.representative().limbs[0]).collect()
}

/// Relies on `FieldElement::inplace_batch_inverse` (Montgomery's trick): it
/// fails exactly when some input is zero, and otherwise replaces every
/// element by its multiplicative inverse.
#[verifier::external_body]
pub fn batch_inverse(values: &Vec<u64>) -> (r: Option<Vec<u64>>)
    requires
        fe_reduced(values@),
    ensures
        r is Some <==> (forall|i: int| 0 <= i < values@.len() ==> values@[i] != 0),
        r matches Some(v) ==> v@.len() == values@.len(),
        r matches Some(v) ==> forall|i: int|
            0 <= i < values@.len() ==> fe_mul(values@[i] as int, #[trigger] v@[i] as int) == 1
                && v@[i] < FIELD_MODULUS,
{
    let mut fes: Vec<FieldElement<Babybear31PrimeField>> =
        values.iter().map(|v| FieldElement::from(*v)).collect();
    match FieldElement::inplace_batch_inverse(&mut fes) {
        Ok(()) => Some(fes.iter().map(|e| e.representative().limbs[0]).collect()),
        Err(_) => None,
    }
}

} // verus!
