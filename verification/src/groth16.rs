//! Groth16 instances/proofs and their *augmented relaxed* form.
//!
//! The relation checked for an augmented relaxed pair (u, π) against a verifying key is
//!
//! ```text
//! e(A,B) · e(C,δ)^(−μ) · e(Σ aᵢ·Sᵢ, γ)^(−μ) · e(α,β)^(−μ²)  =  E · e(R,δ) · e(Σ tᵢ·Sᵢ, γ) · e(α,β)^κ
//! ```
//!
//! where `Sᵢ = vk.gamma_abc_g1[i]` and `a₀ = 1`. A plain Groth16 proof is the special case
//! μ = 1, E = 1, R = 0, t = 0, κ = 0.
use vstd::prelude::*;
use crate::curve::{g1_decode, g1_identity, g2_decode, g2_identity, gt_one, gt_valid, G1, G2, GT};
use crate::encoding::{
    chunk, fe_all_reduced, fe_vec_bytes, lemma_chunk_split, lemma_fe_bytes,
    lemma_parse_fe_roundtrip, lemma_parse_fe_vec_roundtrip, lemma_parse_g1_roundtrip,
    lemma_parse_g2_roundtrip, lemma_parse_gt_roundtrip, parse_fe_spec, parse_fe_vec_spec,
    parse_g1_spec, parse_g2_spec, parse_gt_spec, parse_len_spec, push_bytes, push_fe,
    push_fe_vec, push_g1, push_g2, push_gt, push_u64_le, read_fe, read_fe_vec, read_g1, read_g2,
    read_gt, read_len, u64_le, lemma_pow256_values, lemma_le_nat_le_encode, g1_seq_bytes,
    g1_all_ok, parse_g1_vec_spec, push_g1_vec, read_g1_vec, lemma_parse_g1_n_roundtrip,
    lemma_g1_seq_bytes_len, parse_u64_spec,
};
use crate::error::{SnarkFoldError, SnarkFoldResult};
use crate::field::{fe_bytes, fr_modulus, FieldElement};

verus! {

/// The values of a sequence of scalars.
pub open spec fn fe_values(v: Seq<FieldElement>) -> Seq<nat> {
    v.map_values(|x: FieldElement| x@)
}

/// The encodings of a sequence of G1 points.
pub open spec fn g1_values(v: Seq<G1>) -> Seq<Seq<u8>> {
    v.map_values(|p: G1| p@)
}

/// `n` zero scalars.
pub open spec fn zeros(n: nat) -> Seq<nat> {
    Seq::new(n, |i: int| 0nat)
}

/// A (relaxed) proof (A, B, C) by the encodings of its points.
pub struct ProofModel {
    pub a: Seq<u8>,
    pub b: Seq<u8>,
    pub c: Seq<u8>,
}

/// An augmented relaxed instance (⃗a, μ, E, R, ⃗t, κ) by values and encodings.
pub struct RelaxedInstanceModel {
    pub a: Seq<nat>,
    pub mu: nat,
    pub error: Seq<u8>,
    pub r: Seq<u8>,
    pub t: Seq<nat>,
    pub kappa: nat,
}

/// Cross terms (T', R, ⃗t, κ) by values and encodings.
pub struct CrossTermsModel {
    pub t_prime: Seq<u8>,
    pub r: Seq<u8>,
    pub t: Seq<nat>,
    pub kappa: nat,
}

/// A verifying key by the encodings of its points.
pub struct VerifyingKeyModel {
    pub alpha: Seq<u8>,
    pub beta: Seq<u8>,
    pub gamma: Seq<u8>,
    pub delta: Seq<u8>,
    pub abc: Seq<Seq<u8>>,
}

/// Regular Groth16 proof.
#[derive(Debug, PartialEq, Eq)]
pub struct Proof {
    pub a: G1,
    pub b: G2,
    pub c: G1,
}

impl View for Proof {
    type V = ProofModel;

    open spec fn view(&self) -> ProofModel {
        ProofModel { a: self.a@, b: self.b@, c: self.c@ }
    }
}

/// Groth16 instance: the public inputs **without** the leading constant 1.
#[derive(Debug, PartialEq, Eq)]
pub struct Instance {
    pub public_inputs: Vec<FieldElement>,
}

impl View for Instance {
    type V = Seq<nat>;

    open spec fn view(&self) -> Seq<nat> {
        fe_values(self.public_inputs@)
    }
}

/// Augmented Relaxed Groth16 Instance (⃗a, μ, E, R, ⃗t, κ).
#[derive(Debug, PartialEq, Eq)]
pub struct AugmentedRelaxedInstance {
    /// Public inputs vector ⃗a, including the leading 1 (length = vk.gamma_abc_g1.len())
    pub a_vec: Vec<FieldElement>,
    /// Scalar factor μ
    pub mu: FieldElement,
    /// Error term E ∈ GT (multiplicative identity when unrelaxed)
    pub error: GT,
    /// Accumulated term R ∈ G1
    pub r: G1,
    /// Accumulated vector ⃗t (same length as ⃗a)
    pub t_vec: Vec<FieldElement>,
    /// Accumulated scalar κ
    pub kappa: FieldElement,
}

impl View for AugmentedRelaxedInstance {
    type V = RelaxedInstanceModel;

    open spec fn view(&self) -> RelaxedInstanceModel {
        RelaxedInstanceModel {
            a: fe_values(self.a_vec@),
            mu: self.mu@,
            error: self.error@,
            r: self.r@,
            t: fe_values(self.t_vec@),
            kappa: self.kappa@,
        }
    }
}

/// Augmented Relaxed Groth16 Proof (A, B, C).
#[derive(Debug, PartialEq, Eq)]
pub struct AugmentedRelaxedProof {
    pub a: G1,
    pub b: G2,
    pub c: G1,
}

impl View for AugmentedRelaxedProof {
    type V = ProofModel;

    open spec fn view(&self) -> ProofModel {
        ProofModel { a: self.a@, b: self.b@, c: self.c@ }
    }
}

/// Cross terms (T', R, ⃗t, κ).
#[derive(Debug, PartialEq, Eq)]
pub struct CrossTerms {
    /// T' = e(A₁, B₂) · e(A₂, B₁)
    pub t_prime: GT,
    /// R = −(μ₂·C₁ + μ₁·C₂)
    pub r: G1,
    /// ⃗t = −(μ₂·⃗a₁ + μ₁·⃗a₂)
    pub t_vec: Vec<FieldElement>,
    /// κ = −2·μ₁·μ₂
    pub kappa: FieldElement,
}

impl View for CrossTerms {
    type V = CrossTermsModel;

    open spec fn view(&self) -> CrossTermsModel {
        CrossTermsModel {
            t_prime: self.t_prime@,
            r: self.r@,
            t: fe_values(self.t_vec@),
            kappa: self.kappa@,
        }
    }
}

/// Groth16 verification key.
#[derive(Debug, PartialEq, Eq)]
pub struct GrothVerifyingKey {
    pub alpha_g1: G1,
    pub beta_g2: G2,
    pub gamma_g2: G2,
    pub delta_g2: G2,
    pub gamma_abc_g1: Vec<G1>,
}

impl View for GrothVerifyingKey {
    type V = VerifyingKeyModel;

    open spec fn view(&self) -> VerifyingKeyModel {
        VerifyingKeyModel {
            alpha: self.alpha_g1@,
            beta: self.beta_g2@,
            gamma: self.gamma_g2@,
            delta: self.delta_g2@,
            abc: g1_values(self.gamma_abc_g1@),
        }
    }
}

/// A copy of a vector of scalars.
fn copy_fe_vec(v: &Vec<FieldElement>) -> (res: Vec<FieldElement>)
    ensures
        res@ == v@,
{
    let mut res: Vec<FieldElement> = Vec::new();
    let mut i: usize = 0;
    while i < v.len()
        invariant
            i <= v.len(),
            res@ == v@.subrange(0, i as int),
        decreases v.len() - i,
    {
        res.push(v[i]);
        i = i + 1;
        assert(res@ =~= v@.subrange(0, i as int));
    }
    assert(res@ =~= v@);
    res
}

/// A copy of a vector of G1 points.
fn copy_g1_vec(v: &Vec<G1>) -> (res: Vec<G1>)
    ensures
        res@ == v@,
{
    let mut res: Vec<G1> = Vec::new();
    let mut i: usize = 0;
    while i < v.len()
        invariant
            i <= v.len(),
            res@ == v@.subrange(0, i as int),
        decreases v.len() - i,
    {
        res.push(v[i]);
        i = i + 1;
        assert(res@ =~= v@.subrange(0, i as int));
    }
    assert(res@ =~= v@);
    res
}

impl Clone for Proof {
    fn clone(&self) -> (res: Self)
        ensures
            res@ == self@,
    {
        Proof { a: self.a, b: self.b, c: self.c }
    }
}

impl Clone for Instance {
    fn clone(&self) -> (res: Self)
        ensures
            res@ == self@,
    {
        Instance { public_inputs: copy_fe_vec(&self.public_inputs) }
    }
}

impl Clone for AugmentedRelaxedInstance {
    fn clone(&self) -> (res: Self)
        ensures
            res@ == self@,
    {
        AugmentedRelaxedInstance {
            a_vec: copy_fe_vec(&self.a_vec),
            mu: self.mu,
            error: self.error,
            r: self.r,
            t_vec: copy_fe_vec(&self.t_vec),
            kappa: self.kappa,
        }
    }
}

impl Clone for AugmentedRelaxedProof {
    fn clone(&self) -> (res: Self)
        ensures
            res@ == self@,
    {
        AugmentedRelaxedProof { a: self.a, b: self.b, c: self.c }
    }
}

impl Clone for CrossTerms {
    fn clone(&self) -> (res: Self)
        ensures
            res@ == self@,
    {
        CrossTerms {
            t_prime: self.t_prime,
            r: self.r,
            t_vec: copy_fe_vec(&self.t_vec),
            kappa: self.kappa,
        }
    }
}

impl Clone for GrothVerifyingKey {
    fn clone(&self) -> (res: Self)
        ensures
            res@ == self@,
    {
        GrothVerifyingKey {
            alpha_g1: self.alpha_g1,
            beta_g2: self.beta_g2,
            gamma_g2: self.gamma_g2,
            delta_g2: self.delta_g2,
            gamma_abc_g1: copy_g1_vec(&self.gamma_abc_g1),
        }
    }
}

/// The non-relaxed instance of a fresh Groth16 proof with public inputs `inputs`.
pub open spec fn from_instance_spec(inputs: Seq<nat>) -> RelaxedInstanceModel {
    RelaxedInstanceModel {
        a: seq![1nat] + inputs,
        mu: 1,
        error: gt_one(),
        r: g1_identity(),
        t: zeros(inputs.len() + 1),
        kappa: 0,
    }
}

/// The zero proof (A = B = C = 0).
pub open spec fn zero_proof_spec() -> ProofModel {
    ProofModel { a: g1_identity(), b: g2_identity(), c: g1_identity() }
}

/// The fully relaxed instance with μ = 0 and vectors of length `len`.
pub open spec fn zero_instance_spec(len: nat) -> RelaxedInstanceModel {
    RelaxedInstanceModel {
        a: zeros(len),
        mu: 0,
        error: gt_one(),
        r: g1_identity(),
        t: zeros(len),
        kappa: 0,
    }
}

/// The instance is exactly a plain Groth16 instance.
pub open spec fn is_non_relaxed_spec(u: RelaxedInstanceModel) -> bool {
    &&& u.mu == 1
    &&& u.error == gt_one()
    &&& u.r == g1_identity()
    &&& forall|i: int| 0 <= i < u.t.len() ==> u.t[i] == 0
    &&& u.kappa == 0
}

/// Law: the instance of a fresh Groth16 proof is non-relaxed, its vector ⃗a being the public
/// inputs behind a leading 1.
pub proof fn lemma_fresh_instance_non_relaxed(inputs: Seq<nat>)
    ensures
        is_non_relaxed_spec(from_instance_spec(inputs)),
        from_instance_spec(inputs).a.len() == inputs.len() + 1,
        from_instance_spec(inputs).a[0] == 1,
        from_instance_spec(inputs).a.drop_first() == inputs,
{
    assert(from_instance_spec(inputs).a.drop_first() =~= inputs);
}

/// Law: the accumulator start (μ = 0) is relaxed, whatever its length.
pub proof fn lemma_zero_instance_relaxed(len: nat)
    ensures
        !is_non_relaxed_spec(zero_instance_spec(len)),
{
}

/// The serialization of an augmented relaxed instance.
pub open spec fn instance_bytes(u: RelaxedInstanceModel) -> Seq<u8> {
    fe_vec_bytes(u.a) + fe_bytes(u.mu) + u.error + u.r + fe_vec_bytes(u.t) + fe_bytes(u.kappa)
}

/// The serialization of cross terms.
pub open spec fn cross_terms_bytes(ct: CrossTermsModel) -> Seq<u8> {
    ct.t_prime + ct.r + fe_vec_bytes(ct.t) + fe_bytes(ct.kappa)
}

/// `n` zero scalars.
fn zero_vec(n: usize) -> (res: Vec<FieldElement>)
    ensures
        fe_values(res@) == zeros(n as nat),
{
    let mut v: Vec<FieldElement> = Vec::new();
    let mut i: usize = 0;
    while i < n
        invariant
            i <= n,
            v@.len() == i,
            forall|j: int| 0 <= j < i ==> v@[j]@ == 0,
        decreases n - i,
    {
        let z = FieldElement::zero();
        v.push(z);
        i = i + 1;
    }
    assert(fe_values(v@) =~= zeros(n as nat));
    v
}

impl AugmentedRelaxedInstance {
    /// Non-relaxed instance for a fresh Groth16 proof.
    pub fn from_instance(instance: &Instance) -> (res: Self)
        ensures
            res@ == from_instance_spec(instance@),
    {
        let n = instance.public_inputs.len();
        let mut a_vec: Vec<FieldElement> = Vec::new();
        a_vec.push(FieldElement::one());
        let mut i: usize = 0;
        while i < n
            invariant
                i <= n,
                n == instance.public_inputs.len(),
                a_vec@.len() == i + 1,
                a_vec@[0]@ == 1,
                forall|j: int| 0 <= j < i ==> a_vec@[j + 1]@ == instance.public_inputs@[j]@,
            decreases n - i,
        {
            let x = instance.public_inputs[i];
            a_vec.push(x);
            i = i + 1;
        }
        assert(fe_values(a_vec@) =~= seq![1nat] + instance@);
        let len = a_vec.len();
        AugmentedRelaxedInstance {
            a_vec,
            mu: FieldElement::one(),
            error: GT::one(),
            r: G1::zero(),
            t_vec: zero_vec(len),
            kappa: FieldElement::zero(),
        }
    }

    /// The trivially satisfied, fully relaxed instance (μ = 0). Paired with the zero proof
    /// (A = B = C = 0) it satisfies the relation, so it is the correct accumulator start.
    pub fn zero(len: usize) -> (res: Self)
        ensures
            res@ == zero_instance_spec(len as nat),
    {
        AugmentedRelaxedInstance {
            a_vec: zero_vec(len),
            mu: FieldElement::zero(),
            error: GT::one(),
            r: G1::zero(),
            t_vec: zero_vec(len),
            kappa: FieldElement::zero(),
        }
    }

    pub fn len(&self) -> (res: usize)
        ensures
            res == self@.a.len(),
    {
        self.a_vec.len()
    }

    pub fn is_empty(&self) -> (res: bool)
        ensures
            res == (self@.a.len() == 0),
    {
        self.a_vec.len() == 0
    }

    /// True for an instance that is exactly a plain Groth16 instance.
    pub fn is_non_relaxed(&self) -> (res: bool)
        ensures
            res == is_non_relaxed_spec(self@),
    {
        if !self.mu.is_one() || !self.error.is_one() || !self.r.is_zero() {
            return false;
        }
        let mut i: usize = 0;
        while i < self.t_vec.len()
            invariant
                i <= self.t_vec.len(),
                forall|j: int| 0 <= j < i ==> self.t_vec@[j]@ == 0,
            decreases self.t_vec.len() - i,
        {
            if !self.t_vec[i].is_zero() {
                assert(self@.t[i as int] == self.t_vec@[i as int]@);
                return false;
            }
            i = i + 1;
        }
        assert(forall|j: int| 0 <= j < self@.t.len() ==> self@.t[j] == self.t_vec@[j]@);
        self.kappa.is_zero()
    }

    /// Equality of instances.
    pub fn equals(&self, other: &Self) -> (res: bool)
        ensures
            res == (self@ == other@),
    {
        fe_vec_equals(&self.a_vec, &other.a_vec) && self.mu.equals(&other.mu) && self.error.equals(
            &other.error,
        ) && self.r.equals(&other.r) && fe_vec_equals(&self.t_vec, &other.t_vec)
            && self.kappa.equals(&other.kappa)
    }

    /// Appends the compressed serialization.
    pub fn serialize_compressed(&self, out: &mut Vec<u8>)
        ensures
            final(out)@ == old(out)@ + instance_bytes(self@),
            instance_ok(self@),
    {
        let ghost start = out@;
        push_fe_vec(out, &self.a_vec);
        push_fe(out, &self.mu);
        push_gt(out, &self.error);
        push_g1(out, &self.r);
        push_fe_vec(out, &self.t_vec);
        push_fe(out, &self.kappa);
        assert(out@ =~= start + instance_bytes(self@));
    }

    /// Reads an instance from `pos` on; gives the position after it.
    pub fn read_from(bytes: &[u8], pos: usize) -> (res: Option<(AugmentedRelaxedInstance, usize)>)
        ensures
            res is Some <==> parse_instance_spec(bytes@, pos as nat) is Some,
            res matches Some((x, q)) ==> parse_instance_spec(bytes@, pos as nat) == Some(
                (x@, q as nat),
            ),
    {
        let (a_vec, p1) = read_fe_vec(bytes, pos)?;
        let (mu, p2) = read_fe(bytes, p1)?;
        let (error, p3) = read_gt(bytes, p2)?;
        let (r, p4) = read_g1(bytes, p3)?;
        let (t_vec, p5) = read_fe_vec(bytes, p4)?;
        let (kappa, p6) = read_fe(bytes, p5)?;
        Some((AugmentedRelaxedInstance { a_vec, mu, error, r, t_vec, kappa }, p6))
    }

    /// Deserializes a compressed serialization (bytes after it are ignored).
    pub fn deserialize_compressed(bytes: &[u8]) -> (res: SnarkFoldResult<AugmentedRelaxedInstance>)
        ensures
            res is Ok <==> parse_instance_spec(bytes@, 0) is Some,
            res matches Ok(x) ==> x@ == parse_instance_spec(bytes@, 0)->Some_0.0,
            res matches Err(e) ==> is_decode_error(e),
    {
        match Self::read_from(bytes, 0) {
            Some((x, _)) => Ok(x),
            None => Err(decode_error()),
        }
    }
}

/// Equality of scalar vectors.
fn fe_vec_equals(a: &Vec<FieldElement>, b: &Vec<FieldElement>) -> (res: bool)
    ensures
        res == (fe_values(a@) == fe_values(b@)),
{
    if a.len() != b.len() {
        proof {
            assert(fe_values(a@).len() != fe_values(b@).len());
        }
        return false;
    }
    let mut i: usize = 0;
    while i < a.len()
        invariant
            i <= a.len(),
            a.len() == b.len(),
            forall|j: int| 0 <= j < i ==> fe_values(a@)[j] == fe_values(b@)[j],
        decreases a.len() - i,
    {
        if !a[i].equals(&b[i]) {
            proof {
                assert(fe_values(a@)[i as int] != fe_values(b@)[i as int]);
            }
            return false;
        }
        i = i + 1;
    }
    assert(fe_values(a@) =~= fe_values(b@));
    true
}

impl AugmentedRelaxedProof {
    /// The zero proof, satisfying together with `AugmentedRelaxedInstance::zero`.
    pub fn zero() -> (res: Self)
        ensures
            res@ == zero_proof_spec(),
    {
        AugmentedRelaxedProof { a: G1::zero(), b: G2::zero(), c: G1::zero() }
    }
}

impl From<Proof> for AugmentedRelaxedProof {
    fn from(proof: Proof) -> (res: Self) {
        AugmentedRelaxedProof { a: proof.a, b: proof.b, c: proof.c }
    }
}

impl vstd::std_specs::convert::FromSpecImpl<Proof> for AugmentedRelaxedProof {
    open spec fn obeys_from_spec() -> bool {
        true
    }

    open spec fn from_spec(proof: Proof) -> Self {
        AugmentedRelaxedProof { a: proof.a, b: proof.b, c: proof.c }
    }
}

impl CrossTerms {
    /// Appends the compressed serialization.
    pub fn serialize_compressed(&self, out: &mut Vec<u8>)
        ensures
            final(out)@ == old(out)@ + cross_terms_bytes(self@),
            cross_terms_ok(self@),
    {
        let ghost start = out@;
        push_gt(out, &self.t_prime);
        push_g1(out, &self.r);
        push_fe_vec(out, &self.t_vec);
        push_fe(out, &self.kappa);
        assert(out@ =~= start + cross_terms_bytes(self@));
    }

    /// Reads cross terms from `pos` on; gives the position after them.
    pub fn read_from(bytes: &[u8], pos: usize) -> (res: Option<(CrossTerms, usize)>)
        ensures
            res is Some <==> parse_cross_terms_spec(bytes@, pos as nat) is Some,
            res matches Some((x, q)) ==> parse_cross_terms_spec(bytes@, pos as nat) == Some(
                (x@, q as nat),
            ),
    {
        let (t_prime, p1) = read_gt(bytes, pos)?;
        let (r, p2) = read_g1(bytes, p1)?;
        let (t_vec, p3) = read_fe_vec(bytes, p2)?;
        let (kappa, p4) = read_fe(bytes, p3)?;
        Some((CrossTerms { t_prime, r, t_vec, kappa }, p4))
    }

    /// Deserializes a compressed serialization (bytes after it are ignored).
    pub fn deserialize_compressed(bytes: &[u8]) -> (res: SnarkFoldResult<CrossTerms>)
        ensures
            res is Ok <==> parse_cross_terms_spec(bytes@, 0) is Some,
            res matches Ok(x) ==> x@ == parse_cross_terms_spec(bytes@, 0)->Some_0.0,
            res matches Err(e) ==> is_decode_error(e),
    {
        match Self::read_from(bytes, 0) {
            Some((x, _)) => Ok(x),
            None => Err(decode_error()),
        }
    }
}

impl GrothVerifyingKey {
    /// Length of ⃗a for this key (public inputs + 1).
    pub fn instance_len(&self) -> (res: usize)
        ensures
            res == self@.abc.len(),
    {
        self.gamma_abc_g1.len()
    }

    /// Both vectors of `inst` have the length of this key's ⃗a.
    pub fn check_instance(&self, inst: &AugmentedRelaxedInstance) -> (res: SnarkFoldResult<()>)
        ensures
            res is Ok <==> (inst@.a.len() == self@.abc.len() && inst@.t.len() == self@.abc.len()),
            res matches Err(e) ==> e is InvalidInstance,
    {
        if inst.a_vec.len() != self.instance_len() || inst.t_vec.len() != self.instance_len() {
            return Err(SnarkFoldError::InvalidInstance);
        }
        Ok(())
    }
}

/// The error for bytes that are no serialization.
pub open spec fn is_decode_error(e: SnarkFoldError) -> bool {
    e matches SnarkFoldError::SerializationError(m) && m@ == "invalid encoding"@
}

pub(crate) fn decode_error() -> (e: SnarkFoldError)
    ensures
        is_decode_error(e),
{
    SnarkFoldError::SerializationError(String::from_str("invalid encoding"))
}

/// A G1 encoding that deserializes to itself.
pub open spec fn g1_ok(p: Seq<u8>) -> bool {
    p.len() == 32 && g1_decode(p) == Some(p)
}

/// A G2 encoding that deserializes to itself.
pub open spec fn g2_ok(p: Seq<u8>) -> bool {
    p.len() == 64 && g2_decode(p) == Some(p)
}

/// A vector of scalars as every value of the library holds one.
pub open spec fn fe_vec_ok(xs: Seq<nat>) -> bool {
    fe_all_reduced(xs) && xs.len() <= usize::MAX
}

/// The serialization of a proof.
pub open spec fn proof_bytes(p: ProofModel) -> Seq<u8> {
    p.a + p.b + p.c
}

/// A proof as every value of the library holds one.
pub open spec fn proof_ok(p: ProofModel) -> bool {
    g1_ok(p.a) && g2_ok(p.b) && g1_ok(p.c)
}

/// An augmented relaxed instance as every value of the library holds one.
pub open spec fn instance_ok(u: RelaxedInstanceModel) -> bool {
    &&& fe_vec_ok(u.a)
    &&& u.mu < fr_modulus()
    &&& gt_valid(u.error)
    &&& g1_ok(u.r)
    &&& fe_vec_ok(u.t)
    &&& u.kappa < fr_modulus()
}

/// Cross terms as every value of the library holds them.
pub open spec fn cross_terms_ok(ct: CrossTermsModel) -> bool {
    &&& gt_valid(ct.t_prime)
    &&& g1_ok(ct.r)
    &&& fe_vec_ok(ct.t)
    &&& ct.kappa < fr_modulus()
}

/// Reading a proof.
pub open spec fn parse_proof_spec(s: Seq<u8>, pos: nat) -> Option<(ProofModel, nat)> {
    match parse_g1_spec(s, pos) {
        Some((a, p1)) => match parse_g2_spec(s, p1) {
            Some((b, p2)) => match parse_g1_spec(s, p2) {
                Some((c, p3)) => Some((ProofModel { a, b, c }, p3)),
                None => None,
            },
            None => None,
        },
        None => None,
    }
}

/// Reading an augmented relaxed instance.
pub open spec fn parse_instance_spec(s: Seq<u8>, pos: nat) -> Option<(RelaxedInstanceModel, nat)> {
    match parse_fe_vec_spec(s, pos) {
        Some((a, p1)) => match parse_fe_spec(s, p1) {
            Some((mu, p2)) => match parse_gt_spec(s, p2) {
                Some((error, p3)) => match parse_g1_spec(s, p3) {
                    Some((r, p4)) => match parse_fe_vec_spec(s, p4) {
                        Some((t, p5)) => match parse_fe_spec(s, p5) {
                            Some((kappa, p6)) => Some(
                                (RelaxedInstanceModel { a, mu, error, r, t, kappa }, p6),
                            ),
                            None => None,
                        },
                        None => None,
                    },
                    None => None,
                },
                None => None,
            },
            None => None,
        },
        None => None,
    }
}

/// Reading cross terms.
pub open spec fn parse_cross_terms_spec(s: Seq<u8>, pos: nat) -> Option<(CrossTermsModel, nat)> {
    match parse_gt_spec(s, pos) {
        Some((t_prime, p1)) => match parse_g1_spec(s, p1) {
            Some((r, p2)) => match parse_fe_vec_spec(s, p2) {
                Some((t, p3)) => match parse_fe_spec(s, p3) {
                    Some((kappa, p4)) => Some((CrossTermsModel { t_prime, r, t, kappa }, p4)),
                    None => None,
                },
                None => None,
            },
            None => None,
        },
        None => None,
    }
}

/// Reading a proof back from its serialization.
pub proof fn lemma_parse_proof_at(s: Seq<u8>, pos: nat, p: ProofModel)
    requires
        proof_ok(p),
        pos + proof_bytes(p).len() <= s.len(),
        chunk(s, pos, proof_bytes(p).len()) == proof_bytes(p),
    ensures
        parse_proof_spec(s, pos) == Some((p, pos + proof_bytes(p).len())),
{
    lemma_chunk_split(s, pos, p.a + p.b, p.c);
    lemma_chunk_split(s, pos, p.a, p.b);
    lemma_parse_g1_roundtrip(s, pos, p.a);
    lemma_parse_g2_roundtrip(s, pos + 32, p.b);
    lemma_parse_g1_roundtrip(s, pos + 96, p.c);
}

/// Reading an augmented relaxed instance back from its serialization.
pub proof fn lemma_parse_instance_at(s: Seq<u8>, pos: nat, u: RelaxedInstanceModel)
    requires
        instance_ok(u),
        pos + instance_bytes(u).len() <= s.len(),
        chunk(s, pos, instance_bytes(u).len()) == instance_bytes(u),
    ensures
        parse_instance_spec(s, pos) == Some((u, pos + instance_bytes(u).len())),
{
    let a = fe_vec_bytes(u.a);
    let mu = fe_bytes(u.mu);
    let t = fe_vec_bytes(u.t);
    let k = fe_bytes(u.kappa);
    lemma_fe_bytes(u.mu);
    lemma_fe_bytes(u.kappa);
    lemma_chunk_split(s, pos, a + mu + u.error + u.r + t, k);
    lemma_chunk_split(s, pos, a + mu + u.error + u.r, t);
    lemma_chunk_split(s, pos, a + mu + u.error, u.r);
    lemma_chunk_split(s, pos, a + mu, u.error);
    lemma_chunk_split(s, pos, a, mu);
    lemma_parse_fe_vec_roundtrip(s, pos, u.a);
    lemma_parse_fe_roundtrip(s, pos + a.len(), u.mu);
    lemma_parse_gt_roundtrip(s, pos + a.len() + 32, u.error);
    lemma_parse_g1_roundtrip(s, pos + a.len() + 32 + 384, u.r);
    lemma_parse_fe_vec_roundtrip(s, pos + a.len() + 32 + 384 + 32, u.t);
    lemma_parse_fe_roundtrip(s, pos + a.len() + 32 + 384 + 32 + t.len(), u.kappa);
}

/// Reading cross terms back from their serialization.
pub proof fn lemma_parse_cross_terms_at(s: Seq<u8>, pos: nat, ct: CrossTermsModel)
    requires
        cross_terms_ok(ct),
        pos + cross_terms_bytes(ct).len() <= s.len(),
        chunk(s, pos, cross_terms_bytes(ct).len()) == cross_terms_bytes(ct),
    ensures
        parse_cross_terms_spec(s, pos) == Some((ct, pos + cross_terms_bytes(ct).len())),
{
    let t = fe_vec_bytes(ct.t);
    let k = fe_bytes(ct.kappa);
    lemma_fe_bytes(ct.kappa);
    lemma_chunk_split(s, pos, ct.t_prime + ct.r + t, k);
    lemma_chunk_split(s, pos, ct.t_prime + ct.r, t);
    lemma_chunk_split(s, pos, ct.t_prime, ct.r);
    lemma_parse_gt_roundtrip(s, pos, ct.t_prime);
    lemma_parse_g1_roundtrip(s, pos + 384, ct.r);
    lemma_parse_fe_vec_roundtrip(s, pos + 416, ct.t);
    lemma_parse_fe_roundtrip(s, pos + 416 + t.len(), ct.kappa);
}

/// Law: deserializing the serialization of a proof gives the proof back (whatever follows).
pub proof fn lemma_proof_roundtrip(p: ProofModel, rest: Seq<u8>)
    requires
        proof_ok(p),
    ensures
        parse_proof_spec(proof_bytes(p) + rest, 0) == Some((p, proof_bytes(p).len())),
{
    let s = proof_bytes(p) + rest;
    assert(chunk(s, 0, proof_bytes(p).len()) =~= proof_bytes(p));
    lemma_parse_proof_at(s, 0, p);
}

/// Law: deserializing the serialization of an augmented relaxed instance gives it back.
pub proof fn lemma_instance_roundtrip(u: RelaxedInstanceModel, rest: Seq<u8>)
    requires
        instance_ok(u),
    ensures
        parse_instance_spec(instance_bytes(u) + rest, 0) == Some((u, instance_bytes(u).len())),
{
    let s = instance_bytes(u) + rest;
    assert(chunk(s, 0, instance_bytes(u).len()) =~= instance_bytes(u));
    lemma_parse_instance_at(s, 0, u);
}

/// Law: deserializing the serialization of the public inputs of an instance gives them back.
pub proof fn lemma_inputs_roundtrip(xs: Seq<nat>, rest: Seq<u8>)
    requires
        fe_vec_ok(xs),
    ensures
        parse_fe_vec_spec(fe_vec_bytes(xs) + rest, 0) == Some((xs, fe_vec_bytes(xs).len())),
{
    let s = fe_vec_bytes(xs) + rest;
    assert(chunk(s, 0, fe_vec_bytes(xs).len()) =~= fe_vec_bytes(xs));
    lemma_parse_fe_vec_roundtrip(s, 0, xs);
}

impl Proof {
    /// Appends the compressed serialization.
    pub fn serialize_compressed(&self, out: &mut Vec<u8>)
        ensures
            final(out)@ == old(out)@ + proof_bytes(self@),
            proof_ok(self@),
    {
        let ghost start = out@;
        push_g1(out, &self.a);
        push_g2(out, &self.b);
        push_g1(out, &self.c);
        assert(out@ =~= start + proof_bytes(self@));
    }

    /// Reads a proof from `pos` on; gives the position after it.
    pub fn read_from(bytes: &[u8], pos: usize) -> (res: Option<(Proof, usize)>)
        ensures
            res is Some <==> parse_proof_spec(bytes@, pos as nat) is Some,
            res matches Some((x, q)) ==> parse_proof_spec(bytes@, pos as nat) == Some(
                (x@, q as nat),
            ),
    {
        let (a, p1) = read_g1(bytes, pos)?;
        let (b, p2) = read_g2(bytes, p1)?;
        let (c, p3) = read_g1(bytes, p2)?;
        Some((Proof { a, b, c }, p3))
    }

    /// Deserializes a compressed serialization (bytes after it are ignored).
    pub fn deserialize_compressed(bytes: &[u8]) -> (res: SnarkFoldResult<Proof>)
        ensures
            res is Ok <==> parse_proof_spec(bytes@, 0) is Some,
            res matches Ok(x) ==> x@ == parse_proof_spec(bytes@, 0)->Some_0.0,
            res matches Err(e) ==> is_decode_error(e),
    {
        match Self::read_from(bytes, 0) {
            Some((x, _)) => Ok(x),
            None => Err(decode_error()),
        }
    }
}

impl Instance {
    /// Appends the compressed serialization.
    pub fn serialize_compressed(&self, out: &mut Vec<u8>)
        ensures
            final(out)@ == old(out)@ + fe_vec_bytes(self@),
            fe_vec_ok(self@),
    {
        push_fe_vec(out, &self.public_inputs);
    }

    /// Reads an instance from `pos` on; gives the position after it.
    pub fn read_from(bytes: &[u8], pos: usize) -> (res: Option<(Instance, usize)>)
        ensures
            res is Some <==> parse_fe_vec_spec(bytes@, pos as nat) is Some,
            res matches Some((x, q)) ==> parse_fe_vec_spec(bytes@, pos as nat) == Some(
                (x@, q as nat),
            ),
    {
        let (public_inputs, p) = read_fe_vec(bytes, pos)?;
        Some((Instance { public_inputs }, p))
    }

    /// Deserializes a compressed serialization (bytes after it are ignored).
    pub fn deserialize_compressed(bytes: &[u8]) -> (res: SnarkFoldResult<Instance>)
        ensures
            res is Ok <==> parse_fe_vec_spec(bytes@, 0) is Some,
            res matches Ok(x) ==> x@ == parse_fe_vec_spec(bytes@, 0)->Some_0.0,
            res matches Err(e) ==> is_decode_error(e),
    {
        match Self::read_from(bytes, 0) {
            Some((x, _)) => Ok(x),
            None => Err(decode_error()),
        }
    }
}

impl AugmentedRelaxedProof {
    /// Appends the compressed serialization.
    pub fn serialize_compressed(&self, out: &mut Vec<u8>)
        ensures
            final(out)@ == old(out)@ + proof_bytes(self@),
            proof_ok(self@),
    {
        let ghost start = out@;
        push_g1(out, &self.a);
        push_g2(out, &self.b);
        push_g1(out, &self.c);
        assert(out@ =~= start + proof_bytes(self@));
    }

    /// Reads a proof from `pos` on; gives the position after it.
    pub fn read_from(bytes: &[u8], pos: usize) -> (res: Option<(AugmentedRelaxedProof, usize)>)
        ensures
            res is Some <==> parse_proof_spec(bytes@, pos as nat) is Some,
            res matches Some((x, q)) ==> parse_proof_spec(bytes@, pos as nat) == Some(
                (x@, q as nat),
            ),
    {
        let (a, p1) = read_g1(bytes, pos)?;
        let (b, p2) = read_g2(bytes, p1)?;
        let (c, p3) = read_g1(bytes, p2)?;
        Some((AugmentedRelaxedProof { a, b, c }, p3))
    }

    /// Deserializes a compressed serialization (bytes after it are ignored).
    pub fn deserialize_compressed(bytes: &[u8]) -> (res: SnarkFoldResult<AugmentedRelaxedProof>)
        ensures
            res is Ok <==> parse_proof_spec(bytes@, 0) is Some,
            res matches Ok(x) ==> x@ == parse_proof_spec(bytes@, 0)->Some_0.0,
            res matches Err(e) ==> is_decode_error(e),
    {
        match Self::read_from(bytes, 0) {
            Some((x, _)) => Ok(x),
            None => Err(decode_error()),
        }
    }
}

/// Law: deserializing the serialization of cross terms gives them back.
pub proof fn lemma_cross_terms_roundtrip(ct: CrossTermsModel, rest: Seq<u8>)
    requires
        cross_terms_ok(ct),
    ensures
        parse_cross_terms_spec(cross_terms_bytes(ct) + rest, 0) == Some(
            (ct, cross_terms_bytes(ct).len()),
        ),
{
    let s = cross_terms_bytes(ct) + rest;
    assert(chunk(s, 0, cross_terms_bytes(ct).len()) =~= cross_terms_bytes(ct));
    lemma_parse_cross_terms_at(s, 0, ct);
}

/// The serialization of a verifying key.
pub open spec fn vk_bytes(vk: VerifyingKeyModel) -> Seq<u8> {
    vk.alpha + vk.beta + vk.gamma + vk.delta + u64_le(vk.abc.len()) + g1_seq_bytes(vk.abc)
}

/// A verifying key as every value of the library holds one.
pub open spec fn vk_ok(vk: VerifyingKeyModel) -> bool {
    &&& g1_ok(vk.alpha)
    &&& g2_ok(vk.beta)
    &&& g2_ok(vk.gamma)
    &&& g2_ok(vk.delta)
    &&& g1_all_ok(vk.abc)
    &&& vk.abc.len() <= usize::MAX
}

/// Reading a verifying key.
pub open spec fn parse_vk_spec(s: Seq<u8>, pos: nat) -> Option<(VerifyingKeyModel, nat)> {
    match parse_g1_spec(s, pos) {
        Some((alpha, p1)) => match parse_g2_spec(s, p1) {
            Some((beta, p2)) => match parse_g2_spec(s, p2) {
                Some((gamma, p3)) => match parse_g2_spec(s, p3) {
                    Some((delta, p4)) => match parse_g1_vec_spec(s, p4) {
                        Some((abc, p5)) => Some(
                            (VerifyingKeyModel { alpha, beta, gamma, delta, abc }, p5),
                        ),
                        None => None,
                    },
                    None => None,
                },
                None => None,
            },
            None => None,
        },
        None => None,
    }
}

/// Law: deserializing the serialization of a verifying key gives it back.
pub proof fn lemma_vk_roundtrip(vk: VerifyingKeyModel, rest: Seq<u8>)
    requires
        vk_ok(vk),
    ensures
        parse_vk_spec(vk_bytes(vk) + rest, 0) == Some((vk, vk_bytes(vk).len())),
{
    let s = vk_bytes(vk) + rest;
    let head = vk.alpha + vk.beta + vk.gamma + vk.delta;
    assert(chunk(s, 0, vk_bytes(vk).len()) =~= vk_bytes(vk));
    lemma_chunk_split(s, 0, head + u64_le(vk.abc.len()), g1_seq_bytes(vk.abc));
    lemma_chunk_split(s, 0, head, u64_le(vk.abc.len()));
    lemma_chunk_split(s, 0, vk.alpha + vk.beta + vk.gamma, vk.delta);
    lemma_chunk_split(s, 0, vk.alpha + vk.beta, vk.gamma);
    lemma_chunk_split(s, 0, vk.alpha, vk.beta);
    lemma_parse_g1_roundtrip(s, 0, vk.alpha);
    lemma_parse_g2_roundtrip(s, 32, vk.beta);
    lemma_parse_g2_roundtrip(s, 96, vk.gamma);
    lemma_parse_g2_roundtrip(s, 160, vk.delta);
    lemma_pow256_values();
    lemma_le_nat_le_encode(vk.abc.len(), 8);
    lemma_parse_g1_n_roundtrip(s, 232, vk.abc);
}

impl GrothVerifyingKey {
    /// Appends the compressed serialization.
    pub fn serialize_compressed(&self, out: &mut Vec<u8>)
        ensures
            final(out)@ == old(out)@ + vk_bytes(self@),
            vk_ok(self@),
    {
        let ghost start = out@;
        push_g1(out, &self.alpha_g1);
        push_g2(out, &self.beta_g2);
        push_g2(out, &self.gamma_g2);
        push_g2(out, &self.delta_g2);
        push_g1_vec(out, &self.gamma_abc_g1);
        assert(out@ =~= start + vk_bytes(self@));
    }

    /// Number of bytes of the compressed serialization.
    pub fn serialized_size(&self) -> (res: usize)
        requires
            232 + 32 * self@.abc.len() <= usize::MAX,
        ensures
            res == vk_bytes(self@).len(),
    {
        proof {
            broadcast use crate::curve::lemma_g1_len, crate::curve::lemma_g2_len;

            assert forall|i: int| 0 <= i < self@.abc.len() implies #[trigger] self@.abc[i].len()
                == 32 by {
                assert(self@.abc[i] == self.gamma_abc_g1@[i]@);
            }
            lemma_g1_seq_bytes_len(self@.abc);
            lemma_pow256_values();
            lemma_le_nat_le_encode(self@.abc.len(), 8);
        }
        232 + 32 * self.gamma_abc_g1.len()
    }

    /// Reads a verifying key from `pos` on; gives the position after it.
    pub fn read_from(bytes: &[u8], pos: usize) -> (res: Option<(GrothVerifyingKey, usize)>)
        ensures
            res is Some <==> parse_vk_spec(bytes@, pos as nat) is Some,
            res matches Some((x, q)) ==> parse_vk_spec(bytes@, pos as nat) == Some(
                (x@, q as nat),
            ),
    {
        let (alpha_g1, p1) = read_g1(bytes, pos)?;
        let (beta_g2, p2) = read_g2(bytes, p1)?;
        let (gamma_g2, p3) = read_g2(bytes, p2)?;
        let (delta_g2, p4) = read_g2(bytes, p3)?;
        let (gamma_abc_g1, p5) = read_g1_vec(bytes, p4)?;
        Some((GrothVerifyingKey { alpha_g1, beta_g2, gamma_g2, delta_g2, gamma_abc_g1 }, p5))
    }

    /// Deserializes a compressed serialization (bytes after it are ignored).
    pub fn deserialize_compressed(bytes: &[u8]) -> (res: SnarkFoldResult<GrothVerifyingKey>)
        ensures
            res is Ok <==> parse_vk_spec(bytes@, 0) is Some,
            res matches Ok(x) ==> x@ == parse_vk_spec(bytes@, 0)->Some_0.0,
            res matches Err(e) ==> is_decode_error(e),
    {
        match Self::read_from(bytes, 0) {
            Some((x, _)) => Ok(x),
            None => Err(decode_error()),
        }
    }
}

} // verus!
