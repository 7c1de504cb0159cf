use ark_bn254::{Fr, G1Projective, G2Projective};
use ark_serialize::CanonicalSerialize;
use ark_std::rand::SeedableRng;
use ark_std::UniformRand;
use rand_chacha::ChaCha20Rng;
use snarkfold::{AugmentedRelaxedInstance, AugmentedRelaxedProof, Instance, Proof};
use snarkfold::{FieldElement, G1, G2};

fn fe(x: Fr) -> FieldElement {
    let mut b = [0u8; 32];
    x.serialize_compressed(&mut b[..]).unwrap();
    FieldElement::from_bytes(b).unwrap()
}

fn g1(p: G1Projective) -> G1 {
    let mut b = [0u8; 32];
    p.serialize_compressed(&mut b[..]).unwrap();
    G1::from_bytes(b).unwrap()
}

fn g2(p: G2Projective) -> G2 {
    let mut b = [0u8; 64];
    p.serialize_compressed(&mut b[..]).unwrap();
    G2::from_bytes(b).unwrap()
}

#[test]
fn test_instance_creation() {
    let instance = Instance {
        public_inputs: vec![FieldElement::from_u64(1), FieldElement::from_u64(2)],
    };

    let relaxed = AugmentedRelaxedInstance::from_instance(&instance);
    assert!(relaxed.is_non_relaxed());
    assert_eq!(relaxed.a_vec.len(), 3);
    assert!(relaxed.a_vec[0].is_one());
    assert!(!AugmentedRelaxedInstance::zero(3).is_non_relaxed());
}

#[test]
fn test_proof_conversion_and_serialization() {
    let mut rng = ChaCha20Rng::from_seed([0u8; 32]);
    let proof = Proof {
        a: g1(G1Projective::rand(&mut rng)),
        b: g2(G2Projective::rand(&mut rng)),
        c: g1(G1Projective::rand(&mut rng)),
    };
    let relaxed: AugmentedRelaxedProof = proof.clone().into();
    assert!(!relaxed.a.is_zero());

    let mut bytes = vec![];
    proof.serialize_compressed(&mut bytes);
    assert_eq!(Proof::deserialize_compressed(&bytes[..]).unwrap(), proof);

    let inst = AugmentedRelaxedInstance::from_instance(&Instance {
        public_inputs: vec![fe(Fr::rand(&mut rng))],
    });
    let mut bytes = vec![];
    inst.serialize_compressed(&mut bytes);
    assert_eq!(AugmentedRelaxedInstance::deserialize_compressed(&bytes[..]).unwrap(), inst);
}
