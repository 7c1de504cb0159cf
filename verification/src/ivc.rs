//! Incremental aggregation of Groth16 proofs for one verifying key.
//!
//! `Aggregator` folds proofs one by one into a single augmented relaxed pair. The resulting
//! [`AggregatedProof`] carries the per-step transcript (instance + cross terms), so a verifier
//! can re-derive every Fiat–Shamir challenge, re-fold the *instances* (no pairings, only GT
//! exponentiations and G1 scalar multiplications) and then check the final relaxed relation
//! with 3 pairings.
//!
//! The `binding_claim` (hᵢ = Hash(uᵢ, hᵢ₋₁)) commits the transcript to the instance sequence;
//! it provides no succinctness on its own. Everything folded must share one verifying key.
use vstd::prelude::*;
use crate::error::{SnarkFoldError, SnarkFoldResult};
use crate::field::FieldElement;
use crate::folding::{
    challenge_spec, cross_terms_spec, fold_instance_spec, fold_lengths_ok, fold_proof_spec,
    is_length_error, relaxed_relation, verify_relaxed, AugmentedGroth16Folder,
};
use crate::groth16::{
    fe_values, from_instance_spec, zero_instance_spec, zero_proof_spec, AugmentedRelaxedInstance,
    AugmentedRelaxedProof, CrossTerms, CrossTermsModel, GrothVerifyingKey, Instance, Proof,
    ProofModel, RelaxedInstanceModel, VerifyingKeyModel,
};
use crate::hash::{hash_many_spec, hash_two_spec, SnarkFoldHash};
use crate::encoding::{
    chunk, fe_vec_bytes, lemma_chunk_split, lemma_fe_bytes, lemma_le_nat_le_encode,
    lemma_parse_fe_roundtrip, lemma_parse_fe_vec_roundtrip, lemma_pow256_values, parse_fe_spec,
    parse_fe_vec_spec, parse_len_spec, push_fe, push_u64_le, read_fe, read_len, u64_le,
};
use crate::field::{fe_bytes, fr_modulus};
use crate::groth16::{
    cross_terms_bytes, cross_terms_ok, decode_error, fe_vec_ok, instance_bytes, instance_ok,
    is_decode_error, lemma_parse_cross_terms_at, lemma_parse_instance_at, lemma_parse_proof_at,
    parse_cross_terms_spec, parse_instance_spec, parse_proof_spec, proof_bytes, proof_ok,
};

verus! {

/// One folding step by the values of its instance and cross terms.
pub struct FoldStepModel {
    pub instance: Seq<nat>,
    pub cross_terms: CrossTermsModel,
}

/// An aggregated proof by values and encodings.
pub struct AggregatedProofModel {
    pub steps: Seq<FoldStepModel>,
    pub binding: nat,
    pub instance: RelaxedInstanceModel,
    pub proof: ProofModel,
}

/// The state of an aggregator: the key's instance length, the transcript so far, the binding
/// claim and the accumulated pair.
pub struct AggregatorModel {
    pub len: nat,
    pub steps: Seq<FoldStepModel>,
    pub binding: nat,
    pub instance: RelaxedInstanceModel,
    pub proof: ProofModel,
}

/// One folding step as seen by the verifier.
#[derive(Debug, PartialEq, Eq)]
pub struct FoldStep {
    pub instance: Instance,
    pub cross_terms: CrossTerms,
}

impl View for FoldStep {
    type V = FoldStepModel;

    open spec fn view(&self) -> FoldStepModel {
        FoldStepModel { instance: self.instance@, cross_terms: self.cross_terms@ }
    }
}

/// The views of a sequence of steps.
pub open spec fn step_values(s: Seq<FoldStep>) -> Seq<FoldStepModel> {
    s.map_values(|x: FoldStep| x@)
}

/// Aggregated proof for `steps.len()` Groth16 proofs under one verifying key.
#[derive(Debug, PartialEq, Eq)]
pub struct AggregatedProof {
    pub steps: Vec<FoldStep>,
    /// hₙ = Hash(uₙ, Hash(uₙ₋₁, … Hash(u₁, 0)))
    pub binding_claim: FieldElement,
    pub instance: AugmentedRelaxedInstance,
    pub proof: AugmentedRelaxedProof,
}

impl View for AggregatedProof {
    type V = AggregatedProofModel;

    open spec fn view(&self) -> AggregatedProofModel {
        AggregatedProofModel {
            steps: step_values(self.steps@),
            binding: self.binding_claim@,
            instance: self.instance@,
            proof: self.proof@,
        }
    }
}

/// A fresh aggregator for instance length `len`.
pub open spec fn new_spec(len: nat) -> AggregatorModel {
    AggregatorModel {
        len,
        steps: Seq::empty(),
        binding: 0,
        instance: zero_instance_spec(len),
        proof: zero_proof_spec(),
    }
}

/// The binding claim after one more instance.
pub open spec fn next_binding(inputs: Seq<nat>, prev: nat) -> nat {
    hash_two_spec(hash_many_spec(inputs), prev)
}

/// The aggregator after folding one more (instance, proof).
pub open spec fn push_spec(m: AggregatorModel, inputs: Seq<nat>, p: ProofModel) -> AggregatorModel {
    let fresh = from_instance_spec(inputs);
    let ct = cross_terms_spec(p, fresh, m.proof, m.instance);
    let r = challenge_spec(fresh, m.instance, ct);
    AggregatorModel {
        len: m.len,
        steps: m.steps.push(FoldStepModel { instance: inputs, cross_terms: ct }),
        binding: next_binding(inputs, m.binding),
        instance: fold_instance_spec(fresh, m.instance, ct, r),
        proof: fold_proof_spec(p, m.proof, r),
    }
}

/// The shape of every aggregator: the accumulated vectors have the key's length, and each
/// transcript step holds an instance one shorter and cross terms of the key's length.
pub open spec fn aggregator_shape(m: AggregatorModel) -> bool {
    &&& m.instance.a.len() == m.len
    &&& m.instance.t.len() == m.len
    &&& forall|i: int|
        0 <= i < m.steps.len() ==> {
            &&& #[trigger] m.steps[i].instance.len() + 1 == m.len
            &&& m.steps[i].cross_terms.t.len() == m.len
        }
}

/// Law: pushing a pair whose instance fits the key keeps the shape of an aggregator.
pub proof fn lemma_push_keeps_shape(m: AggregatorModel, inputs: Seq<nat>, p: ProofModel)
    requires
        aggregator_shape(m),
        inputs.len() + 1 == m.len,
    ensures
        aggregator_shape(push_spec(m, inputs, p)),
        push_spec(m, inputs, p).steps.len() == m.steps.len() + 1,
{
    let n = push_spec(m, inputs, p);
    assert forall|i: int| 0 <= i < n.steps.len() implies {
        &&& #[trigger] n.steps[i].instance.len() + 1 == n.len
        &&& n.steps[i].cross_terms.t.len() == n.len
    } by {
        if i < m.steps.len() {
            assert(n.steps[i] == m.steps[i]);
        }
    }
}

/// The aggregated proof that an aggregator finishes with.
pub open spec fn finish_spec(m: AggregatorModel) -> AggregatedProofModel {
    AggregatedProofModel {
        steps: m.steps,
        binding: m.binding,
        instance: m.instance,
        proof: m.proof,
    }
}

/// Folding a whole batch for instance length `len`: `None` where some instance has the wrong
/// number of public inputs.
pub open spec fn aggregate_state(len: nat, batch: Seq<(Seq<nat>, ProofModel)>) -> Option<
    AggregatorModel,
>
    decreases batch.len(),
{
    if batch.len() == 0 {
        Some(new_spec(len))
    } else {
        match aggregate_state(len, batch.drop_last()) {
            Some(m) => {
                let x = batch.last();
                if x.0.len() + 1 == len {
                    Some(push_spec(m, x.0, x.1))
                } else {
                    None
                }
            },
            None => None,
        }
    }
}

/// What re-folding a transcript from the zero instance gives.
pub enum ReplayOutcome {
    /// A step's instance has the wrong number of public inputs.
    Rejected,
    /// A step's cross terms have the wrong length.
    LengthError,
    /// The instance and binding claim that the transcript folds to.
    Replayed(RelaxedInstanceModel, nat),
}

/// The verifier's replay of a transcript for instance length `len`.
pub open spec fn replay(len: nat, steps: Seq<FoldStepModel>) -> ReplayOutcome
    decreases steps.len(),
{
    if steps.len() == 0 {
        ReplayOutcome::Replayed(zero_instance_spec(len), 0)
    } else {
        match replay(len, steps.drop_last()) {
            ReplayOutcome::Replayed(inst, binding) => {
                let step = steps.last();
                if step.instance.len() + 1 != len {
                    ReplayOutcome::Rejected
                } else {
                    let fresh = from_instance_spec(step.instance);
                    let ct = step.cross_terms;
                    if !fold_lengths_ok(fresh, inst, ct) {
                        ReplayOutcome::LengthError
                    } else {
                        ReplayOutcome::Replayed(
                            fold_instance_spec(fresh, inst, ct, challenge_spec(fresh, inst, ct)),
                            next_binding(step.instance, binding),
                        )
                    }
                }
            },
            other => other,
        }
    }
}

/// The verdict on an aggregated proof: `None` where the transcript's cross terms have the
/// wrong length (a folding error).
pub open spec fn verify_aggregated_spec(
    vk: VerifyingKeyModel,
    agg: AggregatedProofModel,
) -> Option<bool> {
    if agg.steps.len() == 0 {
        Some(false)
    } else {
        match replay(vk.abc.len(), agg.steps) {
            ReplayOutcome::Rejected => Some(false),
            ReplayOutcome::LengthError => None,
            ReplayOutcome::Replayed(inst, binding) => {
                if inst != agg.instance || binding != agg.binding {
                    Some(false)
                } else {
                    Some(relaxed_relation(agg.proof, agg.instance, vk))
                }
            },
        }
    }
}

impl AggregatedProof {
    pub fn num_proofs(&self) -> (res: usize)
        ensures
            res == self@.steps.len(),
    {
        self.steps.len()
    }

    /// Public inputs of every folded proof, in order (what a contract needs to apply state).
    pub fn instances(&self) -> (res: Vec<&Instance>)
        ensures
            res@.len() == self.steps@.len(),
            forall|i: int| 0 <= i < res@.len() ==> *res@[i] == self.steps@[i].instance,
    {
        let mut res: Vec<&Instance> = Vec::new();
        let mut i: usize = 0;
        while i < self.steps.len()
            invariant
                i <= self.steps.len(),
                res@.len() == i,
                forall|j: int| 0 <= j < i ==> *res@[j] == self.steps@[j].instance,
            decreases self.steps.len() - i,
        {
            res.push(&self.steps[i].instance);
            i = i + 1;
        }
        res
    }
}

impl Clone for FoldStep {
    fn clone(&self) -> (res: Self)
        ensures
            res@ == self@,
    {
        FoldStep { instance: self.instance.clone(), cross_terms: self.cross_terms.clone() }
    }
}

/// A copy of a transcript.
fn copy_steps(v: &Vec<FoldStep>) -> (res: Vec<FoldStep>)
    ensures
        step_values(res@) == step_values(v@),
{
    let mut res: Vec<FoldStep> = Vec::new();
    let mut i: usize = 0;
    while i < v.len()
        invariant
            i <= v.len(),
            step_values(res@) == step_values(v@.subrange(0, i as int)),
        decreases v.len() - i,
    {
        let ghost prev = res@;
        let x = v[i].clone();
        res.push(x);
        assert(step_values(res@) =~= step_values(prev).push(x@));
        assert(v@.subrange(0, i + 1) =~= v@.subrange(0, i as int).push(v@[i as int]));
        i = i + 1;
        assert(step_values(res@) =~= step_values(v@.subrange(0, i as int)));
    }
    assert(v@.subrange(0, v.len() as int) =~= v@);
    res
}

impl Clone for AggregatedProof {
    fn clone(&self) -> (res: Self)
        ensures
            res@ == self@,
    {
        AggregatedProof {
            steps: copy_steps(&self.steps),
            binding_claim: self.binding_claim,
            instance: self.instance.clone(),
            proof: self.proof.clone(),
        }
    }
}

/// Incremental prover state.
#[derive(Debug)]
pub struct Aggregator {
    len: usize,
    steps: Vec<FoldStep>,
    binding_claim: FieldElement,
    instance: AugmentedRelaxedInstance,
    proof: AugmentedRelaxedProof,
}

impl View for Aggregator {
    type V = AggregatorModel;

    closed spec fn view(&self) -> AggregatorModel {
        AggregatorModel {
            len: self.len as nat,
            steps: step_values(self.steps@),
            binding: self.binding_claim@,
            instance: self.instance@,
            proof: self.proof@,
        }
    }
}

impl Aggregator {
    #[verifier::type_invariant]
    spec fn shape_kept(self) -> bool {
        aggregator_shape(self@)
    }

    /// `vk` fixes the instance length; every pushed proof must be for this key.
    pub fn new(vk: &GrothVerifyingKey) -> (res: Self)
        ensures
            res@ == new_spec(vk@.abc.len()),
            aggregator_shape(res@),
    {
        let len = vk.instance_len();
        let res = Aggregator {
            len,
            steps: Vec::new(),
            binding_claim: FieldElement::zero(),
            instance: AugmentedRelaxedInstance::zero(len),
            proof: AugmentedRelaxedProof::zero(),
        };
        assert(res@.steps =~= Seq::<FoldStepModel>::empty());
        res
    }

    pub fn num_proofs(&self) -> (res: usize)
        ensures
            res == self@.steps.len(),
    {
        self.steps.len()
    }

    /// Fold one more (instance, proof). The caller is expected to have verified the Groth16
    /// proof already (an invalid proof makes the whole batch fail verification).
    pub fn push(&mut self, instance: &Instance, proof: &Proof) -> (res: SnarkFoldResult<()>)
        ensures
            res is Ok <==> instance@.len() + 1 == old(self)@.len,
            res matches Err(e) ==> e is InvalidInstance && final(self)@ == old(self)@,
            res is Ok ==> final(self)@ == push_spec(old(self)@, instance@, proof@),
            aggregator_shape(final(self)@),
    {
        proof {
            use_type_invariant(&*self);
        }
        if self.len == 0 || instance.public_inputs.len() != self.len - 1 {
            return Err(SnarkFoldError::InvalidInstance);
        }
        let fresh_inst = AugmentedRelaxedInstance::from_instance(instance);
        let fresh_proof = AugmentedRelaxedProof { a: proof.a, b: proof.b, c: proof.c };

        let cross_terms = AugmentedGroth16Folder::compute_cross_terms(
            &fresh_proof,
            &fresh_inst,
            &self.proof,
            &self.instance,
        )?;
        let r = AugmentedGroth16Folder::generate_challenge(
            &fresh_inst,
            &self.instance,
            &cross_terms,
        )?;
        let (inst, prf) = AugmentedGroth16Folder::fold_prover(
            &fresh_proof,
            &fresh_inst,
            &self.proof,
            &self.instance,
            &cross_terms,
            r,
        )?;

        let instance_hash = SnarkFoldHash::hash_many(instance.public_inputs.as_slice())?;
        let binding = SnarkFoldHash::hash_two(&instance_hash, &self.binding_claim)?;
        let ghost old_m = self@;
        let step = FoldStep { instance: instance.clone(), cross_terms };
        let mut steps: Vec<FoldStep> = Vec::new();
        std::mem::swap(&mut steps, &mut self.steps);
        steps.push(step);
        proof {
            assert(step_values(steps@) =~= old_m.steps.push(step@));
            lemma_push_keeps_shape(old_m, instance@, proof@);
        }
        *self = Aggregator { len: self.len, steps, binding_claim: binding, instance: inst, proof: prf };
        Ok(())
    }

    pub fn finish(self) -> (res: AggregatedProof)
        ensures
            res@ == finish_spec(self@),
            aggregator_shape(self@),
    {
        proof {
            use_type_invariant(&self);
        }
        AggregatedProof {
            steps: self.steps,
            binding_claim: self.binding_claim,
            instance: self.instance,
            proof: self.proof,
        }
    }
}

impl Clone for Aggregator {
    fn clone(&self) -> (res: Self)
        ensures
            res@ == self@,
    {
        proof {
            use_type_invariant(self);
        }
        Aggregator {
            len: self.len,
            steps: copy_steps(&self.steps),
            binding_claim: self.binding_claim,
            instance: self.instance.clone(),
            proof: self.proof.clone(),
        }
    }
}

/// The views of a batch of (instance, proof) pairs.
pub open spec fn batch_values(b: Seq<(Instance, Proof)>) -> Seq<(Seq<nat>, ProofModel)> {
    b.map_values(|x: (Instance, Proof)| (x.0@, x.1@))
}

/// Once a prefix of a batch fails, every longer prefix fails.
proof fn lemma_aggregate_stays_failed(len: nat, batch: Seq<(Seq<nat>, ProofModel)>, k: nat, j: nat)
    requires
        k <= j <= batch.len(),
        aggregate_state(len, batch.subrange(0, k as int)) is None,
    ensures
        aggregate_state(len, batch.subrange(0, j as int)) is None,
    decreases j - k,
{
    if j > k {
        lemma_aggregate_stays_failed(len, batch, k, (j - 1) as nat);
        assert(batch.subrange(0, j as int).drop_last() =~= batch.subrange(0, j - 1));
    }
}

/// Fold a whole batch at once.
pub fn aggregate(vk: &GrothVerifyingKey, batch: &[(Instance, Proof)]) -> (res: SnarkFoldResult<
    AggregatedProof,
>)
    ensures
        res is Ok <==> aggregate_state(vk@.abc.len(), batch_values(batch@)) is Some,
        res matches Err(e) ==> e is InvalidInstance,
        res matches Ok(a) ==> a@ == finish_spec(
            aggregate_state(vk@.abc.len(), batch_values(batch@))->Some_0,
        ),
{
    let ghost len = vk@.abc.len();
    let ghost bv = batch_values(batch@);
    let mut agg = Aggregator::new(vk);
    let mut i: usize = 0;
    assert(bv.subrange(0, 0) =~= Seq::<(Seq<nat>, ProofModel)>::empty());
    while i < batch.len()
        invariant
            i <= batch.len(),
            len == vk@.abc.len(),
            bv == batch_values(batch@),
            aggregate_state(len, bv.subrange(0, i as int)) == Some(agg@),
            agg@.len == len,
        decreases batch.len() - i,
    {
        let ghost before = agg@;
        assert(bv.subrange(0, i + 1).drop_last() =~= bv.subrange(0, i as int));
        let r = agg.push(&batch[i].0, &batch[i].1);
        if r.is_err() {
            proof {
                lemma_aggregate_stays_failed(len, bv, (i + 1) as nat, batch.len() as nat);
                assert(bv.subrange(0, batch.len() as int) =~= bv);
            }
            return Err(SnarkFoldError::InvalidInstance);
        }
        i = i + 1;
    }
    assert(bv.subrange(0, batch.len() as int) =~= bv);
    Ok(agg.finish())
}

/// Once the replay of a prefix of a transcript stops, the replay of every longer prefix stops
/// the same way.
proof fn lemma_replay_stays_stopped(len: nat, steps: Seq<FoldStepModel>, k: nat, j: nat)
    requires
        k <= j <= steps.len(),
        !(replay(len, steps.subrange(0, k as int)) is Replayed),
    ensures
        replay(len, steps.subrange(0, j as int)) == replay(len, steps.subrange(0, k as int)),
    decreases j - k,
{
    if j > k {
        lemma_replay_stays_stopped(len, steps, k, (j - 1) as nat);
        assert(steps.subrange(0, j as int).drop_last() =~= steps.subrange(0, j - 1));
    }
}

/// A replayed instance has vectors of the key's length.
proof fn lemma_replay_lengths(len: nat, steps: Seq<FoldStepModel>)
    ensures
        replay(len, steps) matches ReplayOutcome::Replayed(u, b) ==> u.a.len() == len && u.t.len()
            == len,
    decreases steps.len(),
{
    if steps.len() > 0 {
        lemma_replay_lengths(len, steps.drop_last());
    }
}

/// Verify an aggregated proof: replay the instance folding from the transcript, check it
/// reproduces the claimed final instance and binding claim, then check the relaxed relation.
pub fn verify_aggregated(vk: &GrothVerifyingKey, agg: &AggregatedProof) -> (res: SnarkFoldResult<
    bool,
>)
    ensures
        verify_aggregated_spec(vk@, agg@) matches Some(b) ==> (res matches Ok(x) && x == b),
        verify_aggregated_spec(vk@, agg@) is None ==> (res matches Err(e) && is_length_error(e)),
{
    let len = vk.instance_len();
    if agg.steps.len() == 0 {
        return Ok(false);
    }
    let ghost steps = agg@.steps;
    let mut inst = AugmentedRelaxedInstance::zero(len);
    let mut binding = FieldElement::zero();
    let mut i: usize = 0;
    assert(steps.subrange(0, 0) =~= Seq::<FoldStepModel>::empty());
    while i < agg.steps.len()
        invariant
            i <= agg.steps.len(),
            len == vk@.abc.len(),
            steps == agg@.steps,
            replay(len as nat, steps.subrange(0, i as int)) == ReplayOutcome::Replayed(
                inst@,
                binding@,
            ),
        decreases agg.steps.len() - i,
    {
        let step = &agg.steps[i];
        assert(steps.subrange(0, i + 1).drop_last() =~= steps.subrange(0, i as int));
        assert(steps.subrange(0, i + 1).last() == step@);
        proof {
            lemma_replay_lengths(len as nat, steps.subrange(0, i as int));
        }
        if len == 0 || step.instance.public_inputs.len() != len - 1 {
            proof {
                lemma_replay_stays_stopped(len as nat, steps, (i + 1) as nat, steps.len());
                assert(steps.subrange(0, steps.len() as int) =~= steps);
            }
            return Ok(false);
        }
        let fresh = AugmentedRelaxedInstance::from_instance(&step.instance);
        let r = AugmentedGroth16Folder::generate_challenge(&fresh, &inst, &step.cross_terms)?;
        let folded = AugmentedGroth16Folder::fold_verifier(&fresh, &inst, &step.cross_terms, r);
        match folded {
            Ok(u) => {
                inst = u;
            },
            Err(e) => {
                proof {
                    lemma_replay_stays_stopped(len as nat, steps, (i + 1) as nat, steps.len());
                    assert(steps.subrange(0, steps.len() as int) =~= steps);
                }
                return Err(e);
            },
        }
        let h = SnarkFoldHash::hash_many(step.instance.public_inputs.as_slice())?;
        binding = SnarkFoldHash::hash_two(&h, &binding)?;
        i = i + 1;
    }
    assert(steps.subrange(0, agg.steps.len() as int) =~= steps);
    proof {
        lemma_replay_lengths(len as nat, steps);
    }
    if !inst.equals(&agg.instance) || !binding.equals(&agg.binding_claim) {
        return Ok(false);
    }
    verify_relaxed(&agg.proof, &agg.instance, vk)
}

/// Every state reached by folding a batch keeps the key's instance length, one transcript step
/// per folded proof.
pub proof fn lemma_aggregate_state_shape(len: nat, batch: Seq<(Seq<nat>, ProofModel)>)
    ensures
        aggregate_state(len, batch) matches Some(m) ==> {
            &&& m.len == len
            &&& aggregator_shape(m)
            &&& m.steps.len() == batch.len()
        },
    decreases batch.len(),
{
    if batch.len() > 0 {
        lemma_aggregate_state_shape(len, batch.drop_last());
        if let Some(m) = aggregate_state(len, batch.drop_last()) {
            let x = batch.last();
            if x.0.len() + 1 == len {
                lemma_push_keeps_shape(m, x.0, x.1);
            }
        }
    }
}

/// Law: replaying the transcript of an honestly built aggregate reproduces its final instance
/// and binding claim.
pub proof fn lemma_honest_replay(len: nat, batch: Seq<(Seq<nat>, ProofModel)>)
    ensures
        aggregate_state(len, batch) matches Some(m) ==> replay(len, m.steps)
            == ReplayOutcome::Replayed(m.instance, m.binding),
    decreases batch.len(),
{
    if batch.len() > 0 {
        let prev = batch.drop_last();
        lemma_honest_replay(len, prev);
        lemma_aggregate_state_shape(len, prev);
        if let Some(m) = aggregate_state(len, batch) {
            let mp = aggregate_state(len, prev)->Some_0;
            assert(m.steps.drop_last() =~= mp.steps);
        }
    }
}

/// Law: an aggregate of a non-empty batch, built for a key, is accepted by the verifier for that
/// key exactly when the final accumulated pair satisfies the relaxed relation.
pub proof fn lemma_honest_aggregate_verifies(
    vk: VerifyingKeyModel,
    batch: Seq<(Seq<nat>, ProofModel)>,
)
    requires
        batch.len() > 0,
        aggregate_state(vk.abc.len(), batch) is Some,
    ensures
        ({
            let m = aggregate_state(vk.abc.len(), batch)->Some_0;
            verify_aggregated_spec(vk, finish_spec(m)) == Some(
                relaxed_relation(m.proof, m.instance, vk),
            )
        }),
{
    lemma_honest_replay(vk.abc.len(), batch);
    lemma_aggregate_state_shape(vk.abc.len(), batch);
}

/// Law: an honest transcript presented with another final instance or binding claim is
/// rejected.
pub proof fn lemma_tampered_claim_rejected(
    vk: VerifyingKeyModel,
    batch: Seq<(Seq<nat>, ProofModel)>,
    agg: AggregatedProofModel,
)
    requires
        batch.len() > 0,
        aggregate_state(vk.abc.len(), batch) is Some,
        agg.steps == aggregate_state(vk.abc.len(), batch)->Some_0.steps,
        agg.instance != aggregate_state(vk.abc.len(), batch)->Some_0.instance
            || agg.binding != aggregate_state(vk.abc.len(), batch)->Some_0.binding,
    ensures
        verify_aggregated_spec(vk, agg) == Some(false),
{
    lemma_honest_replay(vk.abc.len(), batch);
    lemma_aggregate_state_shape(vk.abc.len(), batch);
}

/// Law: aggregating a batch and then pushing one more pair gives the aggregate of the longer
/// batch (incremental and batch aggregation agree).
pub proof fn lemma_incremental_matches_batch(
    len: nat,
    batch: Seq<(Seq<nat>, ProofModel)>,
    inputs: Seq<nat>,
    p: ProofModel,
)
    requires
        aggregate_state(len, batch) is Some,
        inputs.len() + 1 == len,
    ensures
        aggregate_state(len, batch.push((inputs, p))) == Some(
            push_spec(aggregate_state(len, batch)->Some_0, inputs, p),
        ),
{
    assert(batch.push((inputs, p)).drop_last() =~= batch);
}

/// The serialization of a folding step.
pub open spec fn step_bytes(st: FoldStepModel) -> Seq<u8> {
    fe_vec_bytes(st.instance) + cross_terms_bytes(st.cross_terms)
}

/// A folding step as every value of the library holds one.
pub open spec fn step_ok(st: FoldStepModel) -> bool {
    fe_vec_ok(st.instance) && cross_terms_ok(st.cross_terms)
}

/// The serializations of folding steps, one after the other.
pub open spec fn steps_seq_bytes(ss: Seq<FoldStepModel>) -> Seq<u8>
    decreases ss.len(),
{
    if ss.len() == 0 {
        Seq::empty()
    } else {
        steps_seq_bytes(ss.drop_last()) + step_bytes(ss.last())
    }
}

/// The serialization of an aggregated proof.
pub open spec fn agg_bytes(a: AggregatedProofModel) -> Seq<u8> {
    u64_le(a.steps.len()) + steps_seq_bytes(a.steps) + fe_bytes(a.binding) + instance_bytes(
        a.instance,
    ) + proof_bytes(a.proof)
}

/// An aggregated proof as every value of the library holds one.
pub open spec fn agg_ok(a: AggregatedProofModel) -> bool {
    &&& a.steps.len() <= usize::MAX
    &&& forall|i: int| 0 <= i < a.steps.len() ==> step_ok(#[trigger] a.steps[i])
    &&& a.binding < fr_modulus()
    &&& instance_ok(a.instance)
    &&& proof_ok(a.proof)
}

/// Reading a folding step.
pub open spec fn parse_step_spec(s: Seq<u8>, pos: nat) -> Option<(FoldStepModel, nat)> {
    match parse_fe_vec_spec(s, pos) {
        Some((instance, p1)) => match parse_cross_terms_spec(s, p1) {
            Some((cross_terms, p2)) => Some((FoldStepModel { instance, cross_terms }, p2)),
            None => None,
        },
        None => None,
    }
}

/// `n` folding steps, one after the other.
pub open spec fn parse_steps_n(s: Seq<u8>, pos: nat, n: nat) -> Option<(Seq<FoldStepModel>, nat)>
    decreases n,
{
    if n == 0 {
        Some((Seq::empty(), pos))
    } else {
        match parse_steps_n(s, pos, (n - 1) as nat) {
            Some((ss, p)) => match parse_step_spec(s, p) {
                Some((x, q)) => Some((ss.push(x), q)),
                None => None,
            },
            None => None,
        }
    }
}

/// Reading an aggregated proof.
pub open spec fn parse_agg_spec(s: Seq<u8>, pos: nat) -> Option<(AggregatedProofModel, nat)> {
    match parse_len_spec(s, pos) {
        Some((n, p1)) => match parse_steps_n(s, p1, n) {
            Some((steps, p2)) => match parse_fe_spec(s, p2) {
                Some((binding, p3)) => match parse_instance_spec(s, p3) {
                    Some((instance, p4)) => match parse_proof_spec(s, p4) {
                        Some((proof, p5)) => Some(
                            (AggregatedProofModel { steps, binding, instance, proof }, p5),
                        ),
                        None => None,
                    },
                    None => None,
                },
                None => None,
            },
            None => None,
        },
        None => None,
    }
}

/// Reading a folding step back from its serialization.
pub proof fn lemma_parse_step_at(s: Seq<u8>, pos: nat, st: FoldStepModel)
    requires
        step_ok(st),
        pos + step_bytes(st).len() <= s.len(),
        chunk(s, pos, step_bytes(st).len()) == step_bytes(st),
    ensures
        parse_step_spec(s, pos) == Some((st, pos + step_bytes(st).len())),
{
    let a = fe_vec_bytes(st.instance);
    lemma_chunk_split(s, pos, a, cross_terms_bytes(st.cross_terms));
    lemma_parse_fe_vec_roundtrip(s, pos, st.instance);
    lemma_parse_cross_terms_at(s, pos + a.len(), st.cross_terms);
}

/// Reading folding steps back from their serialization.
pub proof fn lemma_parse_steps_n_at(s: Seq<u8>, pos: nat, ss: Seq<FoldStepModel>)
    requires
        forall|i: int| 0 <= i < ss.len() ==> step_ok(#[trigger] ss[i]),
        pos + steps_seq_bytes(ss).len() <= s.len(),
        chunk(s, pos, steps_seq_bytes(ss).len()) == steps_seq_bytes(ss),
    ensures
        parse_steps_n(s, pos, ss.len()) == Some((ss, pos + steps_seq_bytes(ss).len())),
    decreases ss.len(),
{
    if ss.len() > 0 {
        let init = ss.drop_last();
        assert(ss.last() == ss[ss.len() - 1]);
        lemma_chunk_split(s, pos, steps_seq_bytes(init), step_bytes(ss.last()));
        assert forall|i: int| 0 <= i < init.len() implies step_ok(#[trigger] init[i]) by {
            assert(init[i] == ss[i]);
        }
        lemma_parse_steps_n_at(s, pos, init);
        lemma_parse_step_at(s, pos + steps_seq_bytes(init).len(), ss.last());
        assert(init.push(ss.last()) =~= ss);
    }
}

/// Law: deserializing the serialization of an aggregated proof gives it back (whatever
/// follows).
pub proof fn lemma_aggregated_proof_roundtrip(a: AggregatedProofModel, rest: Seq<u8>)
    requires
        agg_ok(a),
    ensures
        parse_agg_spec(agg_bytes(a) + rest, 0) == Some((a, agg_bytes(a).len())),
{
    let s = agg_bytes(a) + rest;
    let len = u64_le(a.steps.len());
    let st = steps_seq_bytes(a.steps);
    let b = fe_bytes(a.binding);
    let ib = instance_bytes(a.instance);
    let pb = proof_bytes(a.proof);
    assert(chunk(s, 0, agg_bytes(a).len()) =~= agg_bytes(a));
    lemma_fe_bytes(a.binding);
    lemma_pow256_values();
    lemma_le_nat_le_encode(a.steps.len(), 8);
    lemma_chunk_split(s, 0, len + st + b + ib, pb);
    lemma_chunk_split(s, 0, len + st + b, ib);
    lemma_chunk_split(s, 0, len + st, b);
    lemma_chunk_split(s, 0, len, st);
    lemma_parse_steps_n_at(s, 8, a.steps);
    lemma_parse_fe_roundtrip(s, 8 + st.len(), a.binding);
    lemma_parse_instance_at(s, 8 + st.len() + 32, a.instance);
    lemma_parse_proof_at(s, 8 + st.len() + 32 + ib.len(), a.proof);
}

/// Once reading the first `k` steps fails, reading more fails too.
proof fn lemma_parse_steps_n_stays_failed(s: Seq<u8>, pos: nat, k: nat, n: nat)
    requires
        k <= n,
        parse_steps_n(s, pos, k) is None,
    ensures
        parse_steps_n(s, pos, n) is None,
    decreases n - k,
{
    if k < n {
        lemma_parse_steps_n_stays_failed(s, pos, k, (n - 1) as nat);
    }
}

impl FoldStep {
    /// Appends the compressed serialization.
    pub fn serialize_compressed(&self, out: &mut Vec<u8>)
        ensures
            final(out)@ == old(out)@ + step_bytes(self@),
            step_ok(self@),
    {
        let ghost start = out@;
        self.instance.serialize_compressed(out);
        self.cross_terms.serialize_compressed(out);
        assert(out@ =~= start + step_bytes(self@));
    }

    /// Reads a folding step from `pos` on; gives the position after it.
    pub fn read_from(bytes: &[u8], pos: usize) -> (res: Option<(FoldStep, usize)>)
        ensures
            res is Some <==> parse_step_spec(bytes@, pos as nat) is Some,
            res matches Some((x, q)) ==> parse_step_spec(bytes@, pos as nat) == Some(
                (x@, q as nat),
            ),
    {
        let (instance, p1) = Instance::read_from(bytes, pos)?;
        let (cross_terms, p2) = CrossTerms::read_from(bytes, p1)?;
        Some((FoldStep { instance, cross_terms }, p2))
    }

    /// Deserializes a compressed serialization (bytes after it are ignored).
    pub fn deserialize_compressed(bytes: &[u8]) -> (res: SnarkFoldResult<FoldStep>)
        ensures
            res is Ok <==> parse_step_spec(bytes@, 0) is Some,
            res matches Ok(x) ==> x@ == parse_step_spec(bytes@, 0)->Some_0.0,
            res matches Err(e) ==> is_decode_error(e),
    {
        match Self::read_from(bytes, 0) {
            Some((x, _)) => Ok(x),
            None => Err(decode_error()),
        }
    }
}

impl AggregatedProof {
    /// Appends the compressed serialization.
    pub fn serialize_compressed(&self, out: &mut Vec<u8>)
        ensures
            final(out)@ == old(out)@ + agg_bytes(self@),
            agg_ok(self@),
    {
        let ghost start = out@;
        let ghost ss = step_values(self.steps@);
        push_u64_le(out, self.steps.len() as u64);
        let ghost mid = out@;
        let mut i: usize = 0;
        while i < self.steps.len()
            invariant
                i <= self.steps.len(),
                ss == step_values(self.steps@),
                mid == start + u64_le(self.steps@.len()),
                out@ == mid + steps_seq_bytes(ss.subrange(0, i as int)),
                forall|j: int| 0 <= j < i ==> step_ok(#[trigger] ss[j]),
            decreases self.steps.len() - i,
        {
            self.steps[i].serialize_compressed(out);
            assert(ss.subrange(0, i + 1).drop_last() =~= ss.subrange(0, i as int));
            assert(mid + steps_seq_bytes(ss.subrange(0, i + 1)) =~= mid + steps_seq_bytes(
                ss.subrange(0, i as int),
            ) + step_bytes(self.steps@[i as int]@));
            i = i + 1;
        }
        assert(ss.subrange(0, self.steps.len() as int) =~= ss);
        push_fe(out, &self.binding_claim);
        self.instance.serialize_compressed(out);
        self.proof.serialize_compressed(out);
        assert(out@ =~= start + agg_bytes(self@));
    }

    /// Reads an aggregated proof from `pos` on; gives the position after it.
    pub fn read_from(bytes: &[u8], pos: usize) -> (res: Option<(AggregatedProof, usize)>)
        ensures
            res is Some <==> parse_agg_spec(bytes@, pos as nat) is Some,
            res matches Some((x, q)) ==> parse_agg_spec(bytes@, pos as nat) == Some(
                (x@, q as nat),
            ),
    {
        let (n, start) = read_len(bytes, pos)?;
        let ghost s = bytes@;
        let mut steps: Vec<FoldStep> = Vec::new();
        let mut p = start;
        let mut k: usize = 0;
        assert(step_values(steps@) =~= Seq::<FoldStepModel>::empty());
        while k < n
            invariant
                k <= n,
                s == bytes@,
                parse_len_spec(s, pos as nat) == Some((n as nat, start as nat)),
                parse_steps_n(s, start as nat, k as nat) == Some((step_values(steps@), p as nat)),
            decreases n - k,
        {
            let ghost prev = step_values(steps@);
            match FoldStep::read_from(bytes, p) {
                Some((x, q)) => {
                    steps.push(x);
                    p = q;
                    assert(step_values(steps@) =~= prev.push(x@));
                },
                None => {
                    proof {
                        lemma_parse_steps_n_stays_failed(s, start as nat, (k + 1) as nat, n as nat);
                    }
                    return None;
                },
            }
            k = k + 1;
        }
        let (binding_claim, p3) = read_fe(bytes, p)?;
        let (instance, p4) = AugmentedRelaxedInstance::read_from(bytes, p3)?;
        let (proof, p5) = AugmentedRelaxedProof::read_from(bytes, p4)?;
        Some((AggregatedProof { steps, binding_claim, instance, proof }, p5))
    }

    /// Deserializes a compressed serialization (bytes after it are ignored).
    pub fn deserialize_compressed(bytes: &[u8]) -> (res: SnarkFoldResult<AggregatedProof>)
        ensures
            res is Ok <==> parse_agg_spec(bytes@, 0) is Some,
            res matches Ok(x) ==> x@ == parse_agg_spec(bytes@, 0)->Some_0.0,
            res matches Err(e) ==> is_decode_error(e),
    {
        match Self::read_from(bytes, 0) {
            Some((x, _)) => Ok(x),
            None => Err(decode_error()),
        }
    }
}

} // verus!
