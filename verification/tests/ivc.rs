//! Real Groth16 proofs for a tiny circuit  c = a · b  (public: c).
use ark_bn254::{Bn254, Fr};
use ark_crypto_primitives::snark::SNARK;
use ark_groth16::Groth16;
use ark_r1cs_std::{alloc::AllocVar, eq::EqGadget, fields::fp::FpVar};
use ark_relations::r1cs::{ConstraintSynthesizer, ConstraintSystemRef, SynthesisError};
use ark_serialize::CanonicalSerialize;
use ark_std::{rand::SeedableRng, UniformRand};
use rand_chacha::ChaCha20Rng;
use snarkfold::{
    aggregate, verify_aggregated, verify_relaxed, AggregatedProof, Aggregator,
    AugmentedRelaxedInstance, AugmentedRelaxedProof, FieldElement, GrothVerifyingKey, Instance,
    Proof, G1, G2,
};

#[derive(Clone)]
struct Mul {
    a: Fr,
    b: Fr,
}

impl ConstraintSynthesizer<Fr> for Mul {
    fn generate_constraints(
        self,
        cs: ConstraintSystemRef<Fr>,
    ) -> core::result::Result<(), SynthesisError> {
        let c = FpVar::new_input(cs.clone(), || Ok(self.a * self.b))?;
        let a = FpVar::new_witness(cs.clone(), || Ok(self.a))?;
        let b = FpVar::new_witness(cs.clone(), || Ok(self.b))?;
        (a * b).enforce_equal(&c)
    }
}

fn fe(x: Fr) -> FieldElement {
    let mut b = [0u8; 32];
    x.serialize_compressed(&mut b[..]).unwrap();
    FieldElement::from_bytes(b).unwrap()
}

fn g1<P: CanonicalSerialize>(p: P) -> G1 {
    let mut b = [0u8; 32];
    p.serialize_compressed(&mut b[..]).unwrap();
    G1::from_bytes(b).unwrap()
}

fn g2<P: CanonicalSerialize>(p: P) -> G2 {
    let mut b = [0u8; 64];
    p.serialize_compressed(&mut b[..]).unwrap();
    G2::from_bytes(b).unwrap()
}

fn proof_of(p: &ark_groth16::Proof<Bn254>) -> Proof {
    Proof { a: g1(p.a), b: g2(p.b), c: g1(p.c) }
}

fn vk_of(vk: &ark_groth16::VerifyingKey<Bn254>) -> GrothVerifyingKey {
    GrothVerifyingKey {
        alpha_g1: g1(vk.alpha_g1),
        beta_g2: g2(vk.beta_g2),
        gamma_g2: g2(vk.gamma_g2),
        delta_g2: g2(vk.delta_g2),
        gamma_abc_g1: vk.gamma_abc_g1.iter().map(|p| g1(*p)).collect(),
    }
}

fn setup_and_prove(seed: u8, n: usize) -> (GrothVerifyingKey, Vec<(Instance, Proof)>) {
    let mut rng = ChaCha20Rng::from_seed([seed; 32]);
    let (pk, vk) = Groth16::<Bn254>::circuit_specific_setup(
        Mul { a: Fr::from(1u64), b: Fr::from(1u64) },
        &mut rng,
    )
    .unwrap();
    let batch = (0..n)
        .map(|_| {
            let a = Fr::rand(&mut rng);
            let b = Fr::rand(&mut rng);
            let proof = Groth16::<Bn254>::prove(&pk, Mul { a, b }, &mut rng).unwrap();
            assert!(Groth16::<Bn254>::verify(&vk, &[a * b], &proof).unwrap());
            (Instance { public_inputs: vec![fe(a * b)] }, proof_of(&proof))
        })
        .collect();
    (vk_of(&vk), batch)
}

#[test]
fn test_plain_and_zero_pairs_satisfy_relaxed_relation() {
    let (vk, batch) = setup_and_prove(7, 1);
    let inst = AugmentedRelaxedInstance::from_instance(&batch[0].0);
    assert!(verify_relaxed(&batch[0].1.clone().into(), &inst, &vk).unwrap());
    assert!(verify_relaxed(
        &AugmentedRelaxedProof::zero(),
        &AugmentedRelaxedInstance::zero(vk.instance_len()),
        &vk
    )
    .unwrap());
}

#[test]
fn test_aggregate_real_proofs() {
    let (vk, batch) = setup_and_prove(7, 8);
    let agg = aggregate(&vk, &batch).unwrap();
    assert_eq!(agg.num_proofs(), 8);
    assert!(verify_aggregated(&vk, &agg).unwrap());
    assert_eq!(agg.instances().len(), 8);

    let mut bytes = vec![];
    agg.serialize_compressed(&mut bytes);
    let back = AggregatedProof::deserialize_compressed(&bytes[..]).unwrap();
    assert!(verify_aggregated(&vk, &back).unwrap());
    println!("aggregated proof for 8: {} bytes ({} per proof)", bytes.len(), bytes.len() / 8);
}

#[test]
fn test_incremental_matches_batch() {
    let (vk, batch) = setup_and_prove(7, 3);
    let mut agg = Aggregator::new(&vk);
    for (u, p) in &batch {
        agg.push(u, p).unwrap();
    }
    assert_eq!(agg.finish(), aggregate(&vk, &batch).unwrap());
}

#[test]
fn test_tampered_transcript_rejected() {
    let (vk, batch) = setup_and_prove(7, 4);
    let agg = aggregate(&vk, &batch).unwrap();
    let one = FieldElement::from_u64(1);

    let mut t = agg.clone();
    t.steps[1].instance.public_inputs[0] = t.steps[1].instance.public_inputs[0].add(&one);
    assert!(!verify_aggregated(&vk, &t).unwrap());

    let mut t = agg.clone();
    t.instance.mu = t.instance.mu.add(&one);
    assert!(!verify_aggregated(&vk, &t).unwrap());

    let mut t = agg;
    t.binding_claim = t.binding_claim.add(&one);
    assert!(!verify_aggregated(&vk, &t).unwrap());
}

#[test]
fn test_forged_statement_rejected() {
    let (vk, mut batch) = setup_and_prove(7, 4);
    let mut rng = ChaCha20Rng::from_seed([9u8; 32]);
    // a valid proof presented for a different public input
    batch[2].0.public_inputs[0] = fe(Fr::rand(&mut rng));
    let agg = aggregate(&vk, &batch).unwrap();
    assert!(!verify_aggregated(&vk, &agg).unwrap());
}

#[test]
fn test_wrong_key_rejected() {
    let (vk, batch) = setup_and_prove(7, 2);
    let (other_vk, _) = setup_and_prove(8, 0);
    assert_ne!(vk, other_vk);
    let agg = aggregate(&vk, &batch).unwrap();
    assert!(!verify_aggregated(&other_vk, &agg).unwrap());
}

#[test]
fn test_empty_rejected_and_length_checked() {
    let (vk, _) = setup_and_prove(7, 0);
    assert!(!verify_aggregated(&vk, &Aggregator::new(&vk).finish()).unwrap());
    let mut a = Aggregator::new(&vk);
    assert!(a
        .push(
            &Instance { public_inputs: vec![FieldElement::from_u64(1), FieldElement::from_u64(2)] },
            &proof_of(&ark_groth16::Proof::<Bn254>::default())
        )
        .is_err());
}
