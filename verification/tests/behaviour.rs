use ark_bn254::{Fr, G1Projective, G2Projective};
use ark_ff::PrimeField;
use ark_serialize::CanonicalSerialize;
use ark_std::rand::SeedableRng;
use ark_std::UniformRand;
use rand_chacha::ChaCha20Rng;
use sha3::{Digest, Keccak256};
use snarkfold::ivc::FoldStep;
use snarkfold::{
    aggregate, verify_aggregated, verify_relaxed, AggregatedProof, Aggregator,
    AugmentedGroth16Folder, AugmentedRelaxedInstance, AugmentedRelaxedProof, CrossTerms,
    FieldElement, GrothVerifyingKey, Instance, Proof, SnarkFoldError, SnarkFoldHash, G1, G2,
};

fn fe(x: Fr) -> FieldElement {
    let mut b = [0u8; 32];
    x.serialize_compressed(&mut b[..]).unwrap();
    FieldElement::from_bytes(b).unwrap()
}

fn g1(p: G1Projective) -> G1 {
    let mut b = [0u8; 32];
    p.serialize_compressed(&mut b[..]).unwrap();
    G1::from_bytes(b).unwrap()
}

fn g2(p: G2Projective) -> G2 {
    let mut b = [0u8; 64];
    p.serialize_compressed(&mut b[..]).unwrap();
    G2::from_bytes(b).unwrap()
}

/// A key of random points with `n` public inputs (no circuit behind it).
fn random_vk(rng: &mut ChaCha20Rng, n: usize) -> GrothVerifyingKey {
    GrothVerifyingKey {
        alpha_g1: g1(G1Projective::rand(rng)),
        beta_g2: g2(G2Projective::rand(rng)),
        gamma_g2: g2(G2Projective::rand(rng)),
        delta_g2: g2(G2Projective::rand(rng)),
        gamma_abc_g1: (0..n + 1).map(|_| g1(G1Projective::rand(rng))).collect(),
    }
}

fn random_proof(rng: &mut ChaCha20Rng) -> Proof {
    Proof {
        a: g1(G1Projective::rand(rng)),
        b: g2(G2Projective::rand(rng)),
        c: g1(G1Projective::rand(rng)),
    }
}

fn keccak_to_field(bytes: &[u8]) -> FieldElement {
    fe(Fr::from_le_bytes_mod_order(&Keccak256::digest(bytes)))
}

#[test]
fn hashes_are_keccak_of_the_serialization() {
    let a = FieldElement::from_u64(11);
    let b = FieldElement::from_u64(12);
    let ab: Vec<u8> = [a.to_bytes(), b.to_bytes()].concat();
    assert_eq!(SnarkFoldHash::hash_one(&a).unwrap(), keccak_to_field(&a.to_bytes()));
    assert_eq!(SnarkFoldHash::hash_two(&a, &b).unwrap(), keccak_to_field(&ab));
    assert_eq!(SnarkFoldHash::hash_many(&[a, b]).unwrap(), SnarkFoldHash::hash_two(&a, &b).unwrap());
    assert_eq!(SnarkFoldHash::hash_many(&[]).unwrap(), keccak_to_field(&[]));
    assert_eq!(SnarkFoldHash::hash_arbitrary(&a.to_bytes()).unwrap(), SnarkFoldHash::hash_one(&a).unwrap());
    assert_ne!(SnarkFoldHash::hash_two(&a, &b).unwrap(), SnarkFoldHash::hash_two(&b, &a).unwrap());
}

#[test]
fn error_messages() {
    assert_eq!(SnarkFoldError::InvalidProof.message(), "Invalid proof");
    assert_eq!(SnarkFoldError::InvalidInstance.message(), "Invalid instance");
    assert_eq!(SnarkFoldError::FoldingError("x".to_string()).message(), "Folding error: x");
    assert_eq!(SnarkFoldError::HashError("y".to_string()).message(), "Hash error: y");
    assert_eq!(
        SnarkFoldError::SerializationError("z".to_string()).message(),
        "Serialization error: z"
    );
    assert_eq!(
        SnarkFoldError::VerificationError("w".to_string()).message(),
        "Verification error: w"
    );
}

#[test]
fn zero_pair_satisfies_the_relation_for_any_key() {
    let mut rng = ChaCha20Rng::from_seed([10u8; 32]);
    for n in 0..3 {
        let vk = random_vk(&mut rng, n);
        let ok = verify_relaxed(
            &AugmentedRelaxedProof::zero(),
            &AugmentedRelaxedInstance::zero(vk.instance_len()),
            &vk,
        );
        assert!(ok.unwrap());
    }
    // a random proof does not satisfy it
    let vk = random_vk(&mut rng, 1);
    let p: AugmentedRelaxedProof = random_proof(&mut rng).into();
    let u = AugmentedRelaxedInstance::from_instance(&Instance { public_inputs: vec![FieldElement::one()] });
    assert!(!verify_relaxed(&p, &u, &vk).unwrap());
}

#[test]
fn wrong_instance_length_is_invalid_instance() {
    let mut rng = ChaCha20Rng::from_seed([11u8; 32]);
    let vk = random_vk(&mut rng, 2);
    assert_eq!(vk.instance_len(), 3);
    let u = AugmentedRelaxedInstance::zero(2);
    assert!(matches!(vk.check_instance(&u), Err(SnarkFoldError::InvalidInstance)));
    assert!(vk.check_instance(&AugmentedRelaxedInstance::zero(3)).is_ok());
    assert_eq!(AugmentedRelaxedInstance::zero(3).len(), 3);
    assert!(!AugmentedRelaxedInstance::zero(3).is_empty());
    assert!(AugmentedRelaxedInstance::zero(0).is_empty());
    let r = verify_relaxed(&AugmentedRelaxedProof::zero(), &u, &vk);
    assert!(matches!(r, Err(SnarkFoldError::InvalidInstance)));
    let mut short_t = AugmentedRelaxedInstance::zero(3);
    short_t.t_vec.pop();
    assert!(matches!(vk.check_instance(&short_t), Err(SnarkFoldError::InvalidInstance)));
}

#[test]
fn folding_length_errors_carry_the_message() {
    let u1 = AugmentedRelaxedInstance::zero(2);
    let u2 = AugmentedRelaxedInstance::zero(3);
    let p = AugmentedRelaxedProof::zero();
    let ct = AugmentedGroth16Folder::compute_cross_terms(&p, &u1, &p, &u1).unwrap();
    match AugmentedGroth16Folder::fold_instances(&u1, &u2, &ct, FieldElement::one()) {
        Err(e) => assert_eq!(e.message(), "Folding error: Instance vectors must have same length"),
        Ok(_) => panic!("lengths differ"),
    }
    let mut short = ct.clone();
    short.t_vec.pop();
    assert!(AugmentedGroth16Folder::fold_verifier(&u1, &u1, &short, FieldElement::one()).is_err());
    assert!(AugmentedGroth16Folder::fold_prover(&p, &u1, &p, &u1, &short, FieldElement::one()).is_err());
}

#[test]
fn cross_terms_and_fold_follow_the_formulas() {
    let mut rng = ChaCha20Rng::from_seed([12u8; 32]);
    let p1: AugmentedRelaxedProof = random_proof(&mut rng).into();
    let p2: AugmentedRelaxedProof = random_proof(&mut rng).into();
    let x = fe(Fr::rand(&mut rng));
    let y = fe(Fr::rand(&mut rng));
    let u1 = AugmentedRelaxedInstance::from_instance(&Instance { public_inputs: vec![x] });
    let u2 = AugmentedRelaxedInstance::zero(2);
    let ct = AugmentedGroth16Folder::compute_cross_terms(&p1, &u1, &p2, &u2).unwrap();
    // μ₁ = 1, μ₂ = 0: κ = 0, ⃗t = −⃗a₂ = 0, R = −C₂
    assert!(ct.kappa.is_zero());
    assert!(ct.t_vec.iter().all(|t| t.is_zero()));
    assert_eq!(ct.r, p2.c.neg());
    let r = AugmentedGroth16Folder::generate_challenge(&u1, &u2, &ct).unwrap();
    let folded = AugmentedGroth16Folder::fold_instances(&u1, &u2, &ct, r).unwrap();
    assert_eq!(folded.a_vec, u1.a_vec);
    assert_eq!(folded.mu, FieldElement::one());
    assert_eq!(folded.kappa, FieldElement::zero());
    let fp = AugmentedGroth16Folder::fold_proofs(&p1, &p2, r);
    assert_eq!(fp.b, p1.b.add(&p2.b.mul(&r)));
    assert_eq!(fp.c, p1.c.add(&p2.c.mul(&r)));
    // the challenge depends on every input
    let u3 = AugmentedRelaxedInstance::from_instance(&Instance { public_inputs: vec![y] });
    assert_ne!(r, AugmentedGroth16Folder::generate_challenge(&u3, &u2, &ct).unwrap());
    assert_ne!(r, AugmentedGroth16Folder::generate_challenge(&u2, &u1, &ct).unwrap());
}

#[test]
fn serializations_read_back() {
    let mut rng = ChaCha20Rng::from_seed([13u8; 32]);
    let vk = random_vk(&mut rng, 2);
    let mut bytes = vec![];
    vk.serialize_compressed(&mut bytes);
    assert_eq!(bytes.len(), vk.serialized_size());
    assert_eq!(bytes.len(), 32 + 3 * 64 + 8 + 3 * 32);
    assert_eq!(GrothVerifyingKey::deserialize_compressed(&bytes).unwrap(), vk);
    assert!(matches!(
        GrothVerifyingKey::deserialize_compressed(&bytes[..bytes.len() - 1]),
        Err(SnarkFoldError::SerializationError(_))
    ));

    let inst = Instance { public_inputs: vec![FieldElement::from_u64(4), FieldElement::from_u64(5)] };
    let mut bytes = vec![];
    inst.serialize_compressed(&mut bytes);
    assert_eq!(bytes.len(), 8 + 64);
    assert_eq!(&bytes[..8], &2u64.to_le_bytes());
    assert_eq!(Instance::deserialize_compressed(&bytes).unwrap(), inst);

    let p = AugmentedRelaxedProof::from(random_proof(&mut rng));
    let mut bytes = vec![];
    p.serialize_compressed(&mut bytes);
    bytes.extend_from_slice(&[1, 2, 3]);
    assert_eq!(AugmentedRelaxedProof::deserialize_compressed(&bytes).unwrap(), p);

    let u = AugmentedRelaxedInstance::zero(2);
    let ct = AugmentedGroth16Folder::compute_cross_terms(&p, &u, &p, &u).unwrap();
    let mut bytes = vec![];
    ct.serialize_compressed(&mut bytes);
    assert_eq!(CrossTerms::deserialize_compressed(&bytes).unwrap(), ct);

    let step = FoldStep { instance: inst.clone(), cross_terms: ct.clone() };
    let mut bytes = vec![];
    step.serialize_compressed(&mut bytes);
    assert_eq!(FoldStep::deserialize_compressed(&bytes).unwrap(), step);

    // a scalar that is not reduced is no encoding
    let mut bad = vec![];
    inst.serialize_compressed(&mut bad);
    for b in &mut bad[8..40] {
        *b = 0xff;
    }
    assert!(Instance::deserialize_compressed(&bad).is_err());
}

#[test]
fn aggregator_rejects_and_keeps_state() {
    let mut rng = ChaCha20Rng::from_seed([14u8; 32]);
    let vk = random_vk(&mut rng, 1);
    let mut agg = Aggregator::new(&vk);
    assert_eq!(agg.num_proofs(), 0);
    let good = Instance { public_inputs: vec![FieldElement::from_u64(3)] };
    let bad = Instance { public_inputs: vec![] };
    agg.push(&good, &random_proof(&mut rng)).unwrap();
    let before = agg.clone();
    assert!(matches!(agg.push(&bad, &random_proof(&mut rng)), Err(SnarkFoldError::InvalidInstance)));
    assert_eq!(agg.num_proofs(), 1);
    assert_eq!(agg.clone().finish(), before.finish());

    // a batch with one wrong instance fails as a whole
    let batch = vec![(good.clone(), random_proof(&mut rng)), (bad, random_proof(&mut rng))];
    assert!(matches!(aggregate(&vk, &batch), Err(SnarkFoldError::InvalidInstance)));

    // an empty batch gives the accumulator start, which the verifier rejects
    let empty = aggregate(&vk, &[]).unwrap();
    assert_eq!(empty.num_proofs(), 0);
    assert_eq!(empty.instance, AugmentedRelaxedInstance::zero(2));
    assert!(empty.binding_claim.is_zero());
    assert!(!verify_aggregated(&vk, &empty).unwrap());
}

#[test]
fn aggregate_transcript_and_replay() {
    let mut rng = ChaCha20Rng::from_seed([15u8; 32]);
    let vk = random_vk(&mut rng, 1);
    let batch: Vec<(Instance, Proof)> = (0..3u64)
        .map(|i| (Instance { public_inputs: vec![FieldElement::from_u64(i + 1)] }, random_proof(&mut rng)))
        .collect();
    let agg = aggregate(&vk, &batch).unwrap();
    assert_eq!(agg.num_proofs(), 3);
    let insts = agg.instances();
    for (i, inst) in insts.iter().enumerate() {
        assert_eq!(**inst, batch[i].0);
    }
    // binding claim: hᵢ = Hash(Hash(uᵢ), hᵢ₋₁) from h₀ = 0
    let mut h = FieldElement::zero();
    for (u, _) in &batch {
        let hu = SnarkFoldHash::hash_many(&u.public_inputs).unwrap();
        h = SnarkFoldHash::hash_two(&hu, &h).unwrap();
    }
    assert_eq!(agg.binding_claim, h);
    // random proofs do not satisfy the relation, so the replay succeeds but the check fails
    assert!(!verify_aggregated(&vk, &agg).unwrap());

    // an instance of the wrong length in the transcript is rejected
    let mut t = agg.clone();
    t.steps[0].instance.public_inputs.push(FieldElement::one());
    assert!(!verify_aggregated(&vk, &t).unwrap());

    // cross terms of the wrong length are a folding error
    let mut t = agg.clone();
    t.steps[1].cross_terms.t_vec.pop();
    assert!(matches!(verify_aggregated(&vk, &t), Err(SnarkFoldError::FoldingError(_))));

    // serialization round trip
    let mut bytes = vec![];
    agg.serialize_compressed(&mut bytes);
    assert_eq!(AggregatedProof::deserialize_compressed(&bytes).unwrap(), agg);
    assert!(AggregatedProof::deserialize_compressed(&bytes[..bytes.len() - 1]).is_err());
}

#[test]
fn folding_with_zero_challenge_keeps_the_first_instance() {
    let mut rng = ChaCha20Rng::from_seed([16u8; 32]);
    let p1: AugmentedRelaxedProof = random_proof(&mut rng).into();
    let p2: AugmentedRelaxedProof = random_proof(&mut rng).into();
    let u1 = AugmentedRelaxedInstance::from_instance(&Instance { public_inputs: vec![fe(Fr::rand(&mut rng))] });
    let u2 = AugmentedRelaxedInstance::from_instance(&Instance { public_inputs: vec![fe(Fr::rand(&mut rng))] });
    let ct = AugmentedGroth16Folder::compute_cross_terms(&p1, &u1, &p2, &u2).unwrap();
    let folded = AugmentedGroth16Folder::fold_instances(&u1, &u2, &ct, FieldElement::zero()).unwrap();
    assert_eq!(folded, u1);
}

#[test]
fn cross_terms_are_symmetric_and_zero_against_the_start() {
    let mut rng = ChaCha20Rng::from_seed([17u8; 32]);
    let p1: AugmentedRelaxedProof = random_proof(&mut rng).into();
    let p2: AugmentedRelaxedProof = random_proof(&mut rng).into();
    let u1 = AugmentedRelaxedInstance::from_instance(&Instance { public_inputs: vec![fe(Fr::rand(&mut rng))] });
    let u2 = AugmentedRelaxedInstance::from_instance(&Instance { public_inputs: vec![fe(Fr::rand(&mut rng))] });
    let a = AugmentedGroth16Folder::compute_cross_terms(&p1, &u1, &p2, &u2).unwrap();
    let b = AugmentedGroth16Folder::compute_cross_terms(&p2, &u2, &p1, &u1).unwrap();
    assert_eq!(a, b);
    let z = AugmentedGroth16Folder::compute_cross_terms(
        &p1,
        &u1,
        &AugmentedRelaxedProof::zero(),
        &AugmentedRelaxedInstance::zero(2),
    )
    .unwrap();
    assert!(z.t_prime.is_one());
    assert!(z.r.is_zero());
    assert!(z.t_vec.iter().all(|t| t.is_zero()));
    assert_eq!(z.t_vec.len(), 2);
    assert!(z.kappa.is_zero());
}

#[test]
fn every_reachable_aggregator_keeps_its_shape() {
    let mut rng = ChaCha20Rng::from_seed([18u8; 32]);
    let vk = random_vk(&mut rng, 2);
    let mut agg = Aggregator::new(&vk);
    let mut ok = 0;
    for k in 0..4usize {
        let n = if k == 2 { 1 } else { 2 };
        let u = Instance { public_inputs: (0..n).map(|i| FieldElement::from_u64(i as u64 + 1)).collect() };
        if agg.push(&u, &random_proof(&mut rng)).is_ok() {
            ok += 1;
        }
    }
    assert_eq!(ok, 3);
    assert_eq!(agg.num_proofs(), 3);
    let f = agg.finish();
    assert_eq!(f.steps.len(), 3);
    assert_eq!(f.instance.a_vec.len(), vk.instance_len());
    assert_eq!(f.instance.t_vec.len(), vk.instance_len());
    for s in &f.steps {
        assert_eq!(s.instance.public_inputs.len() + 1, vk.instance_len());
        assert_eq!(s.cross_terms.t_vec.len(), vk.instance_len());
    }
}
