use ark_bn254::Fr;
use ark_serialize::CanonicalSerialize;
use ark_std::rand::SeedableRng;
use ark_std::UniformRand;
use rand_chacha::ChaCha20Rng;
use snarkfold::{FieldElement, SnarkFoldHash};

fn fe(x: Fr) -> FieldElement {
    let mut b = [0u8; 32];
    x.serialize_compressed(&mut b[..]).unwrap();
    FieldElement::from_bytes(b).unwrap()
}

#[test]
fn test_hash_one() {
    let mut rng = ChaCha20Rng::from_seed([0u8; 32]);
    let elem = fe(Fr::rand(&mut rng));
    let hash = SnarkFoldHash::hash_one(&elem).unwrap();
    assert_ne!(hash, FieldElement::from_u64(0));
}

#[test]
fn test_hash_two() {
    let mut rng = ChaCha20Rng::from_seed([0u8; 32]);
    let a = fe(Fr::rand(&mut rng));
    let b = fe(Fr::rand(&mut rng));
    let hash = SnarkFoldHash::hash_two(&a, &b).unwrap();
    assert_ne!(hash, FieldElement::from_u64(0));
}
