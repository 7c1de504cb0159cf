use ark_bn254::{Fr, G1Projective, G2Projective};
use ark_serialize::CanonicalSerialize;
use ark_std::rand::SeedableRng;
use ark_std::UniformRand;
use rand_chacha::ChaCha20Rng;
use snarkfold::AugmentedGroth16Folder;
use snarkfold::{AugmentedRelaxedInstance, AugmentedRelaxedProof, Instance};
use snarkfold::{FieldElement, G1, G2};

fn fe(x: Fr) -> FieldElement {
    let mut b = [0u8; 32];
    x.serialize_compressed(&mut b[..]).unwrap();
    FieldElement::from_bytes(b).unwrap()
}

fn g1(p: G1Projective) -> G1 {
    let mut b = [0u8; 32];
    p.serialize_compressed(&mut b[..]).unwrap();
    G1::from_bytes(b).unwrap()
}

fn g2(p: G2Projective) -> G2 {
    let mut b = [0u8; 64];
    p.serialize_compressed(&mut b[..]).unwrap();
    G2::from_bytes(b).unwrap()
}

fn mk(rng: &mut ChaCha20Rng) -> (AugmentedRelaxedProof, AugmentedRelaxedInstance) {
    (
        AugmentedRelaxedProof {
            a: g1(G1Projective::rand(rng)),
            b: g2(G2Projective::rand(rng)),
            c: g1(G1Projective::rand(rng)),
        },
        AugmentedRelaxedInstance::from_instance(&Instance { public_inputs: vec![fe(Fr::rand(rng))] }),
    )
}

#[test]
fn test_cross_terms_and_fold_shapes() {
    let mut rng = ChaCha20Rng::from_seed([0u8; 32]);
    let (p1, u1) = mk(&mut rng);
    let (p2, u2) = mk(&mut rng);
    let ct = AugmentedGroth16Folder::compute_cross_terms(&p1, &u1, &p2, &u2).unwrap();
    assert_eq!(ct.t_vec.len(), 2);
    assert_eq!(ct.kappa, FieldElement::from_u64(2).neg());
    let r = AugmentedGroth16Folder::generate_challenge(&u1, &u2, &ct).unwrap();
    let (fu, fp) = AugmentedGroth16Folder::fold_prover(&p1, &u1, &p2, &u2, &ct, r).unwrap();
    assert_eq!(fu.mu, FieldElement::one().add(&r));
    assert_eq!(fp.a, p1.a.add(&p2.a.mul(&r)));
    assert_eq!(AugmentedGroth16Folder::fold_verifier(&u1, &u2, &ct, r).unwrap(), fu);
}

#[test]
fn test_length_mismatch_rejected() {
    let mut rng = ChaCha20Rng::from_seed([1u8; 32]);
    let p = AugmentedRelaxedProof::zero();
    let u1 = AugmentedRelaxedInstance::from_instance(&Instance {
        public_inputs: vec![fe(Fr::rand(&mut rng))],
    });
    let u2 = AugmentedRelaxedInstance::zero(5);
    assert!(AugmentedGroth16Folder::compute_cross_terms(&p, &u1, &p, &u2).is_err());
}
