use ark_bn254::{Bn254, Fr, G1Projective, G2Projective};
use ark_ec::pairing::Pairing;
use ark_ff::{BigInteger, Field, One, PrimeField, Zero};
use ark_serialize::CanonicalSerialize;
use ark_std::rand::SeedableRng;
use ark_std::UniformRand;
use rand_chacha::ChaCha20Rng;
use snarkfold::curve::{multi_pairing3, pairing};
use snarkfold::{FieldElement, G1, G2, GT};

fn fe(x: Fr) -> FieldElement {
    let mut b = [0u8; 32];
    x.serialize_compressed(&mut b[..]).unwrap();
    FieldElement::from_bytes(b).unwrap()
}

fn g1(p: G1Projective) -> G1 {
    let mut b = [0u8; 32];
    p.serialize_compressed(&mut b[..]).unwrap();
    G1::from_bytes(b).unwrap()
}

fn g2(p: G2Projective) -> G2 {
    let mut b = [0u8; 64];
    p.serialize_compressed(&mut b[..]).unwrap();
    G2::from_bytes(b).unwrap()
}

fn gt(x: <Bn254 as Pairing>::TargetField) -> GT {
    let mut b = [0u8; 384];
    x.serialize_compressed(&mut b[..]).unwrap();
    GT::from_bytes(b).unwrap()
}

fn modulus_le_bytes() -> [u8; 32] {
    let mut b = [0u8; 32];
    b.copy_from_slice(&Fr::MODULUS.to_bytes_le());
    b
}

#[test]
fn field_operations_give_the_field_results() {
    let mut rng = ChaCha20Rng::from_seed([3u8; 32]);
    let a = Fr::rand(&mut rng);
    let b = Fr::rand(&mut rng);
    assert_eq!(fe(a).add(&fe(b)), fe(a + b));
    assert_eq!(fe(a).sub(&fe(b)), fe(a - b));
    assert_eq!(fe(a).mul(&fe(b)), fe(a * b));
    assert_eq!(fe(a).neg(), fe(-a));
    assert_eq!(FieldElement::from_u64(5).mul(&FieldElement::from_u64(7)), FieldElement::from_u64(35));
    assert_eq!(FieldElement::from_u64(3).sub(&FieldElement::from_u64(5)), FieldElement::from_u64(2).neg());
    assert!(FieldElement::zero().is_zero());
    assert!(FieldElement::one().is_one());
    assert!(!FieldElement::from_u64(2).is_one());
    assert!(FieldElement::from_u64(9).equals(&FieldElement::from_u64(9)));
    assert!(!FieldElement::from_u64(9).equals(&FieldElement::from_u64(8)));
}

#[test]
fn field_encoding_is_canonical() {
    // the modulus itself is no encoding; one less is the largest element
    let m = modulus_le_bytes();
    assert!(FieldElement::from_bytes(m).is_none());
    let mut below = m;
    below[0] -= 1;
    let x = FieldElement::from_bytes(below).unwrap();
    assert_eq!(x.to_bytes(), below);
    assert_eq!(x, FieldElement::one().neg());
    let mut seven = [0u8; 32];
    seven[0] = 7;
    assert_eq!(FieldElement::from_u64(7).to_bytes(), seven);
}

#[test]
fn field_reduction_of_long_byte_strings() {
    // modulus + 5, as 33 little-endian bytes, reduces to 5
    let mut bytes = modulus_le_bytes().to_vec();
    bytes[0] += 5;
    bytes.push(0);
    assert_eq!(FieldElement::from_le_bytes_mod_order(&bytes), FieldElement::from_u64(5));
    // 2^256 reduces to what arkworks computes
    let mut big = vec![0u8; 33];
    big[32] = 1;
    assert_eq!(FieldElement::from_le_bytes_mod_order(&big), fe(Fr::from_le_bytes_mod_order(&big)));
}

#[test]
fn g1_operations_give_the_group_results() {
    let mut rng = ChaCha20Rng::from_seed([4u8; 32]);
    let p = G1Projective::rand(&mut rng);
    let q = G1Projective::rand(&mut rng);
    let s = Fr::rand(&mut rng);
    assert_eq!(g1(p).add(&g1(q)), g1(p + q));
    assert_eq!(g1(p).sub(&g1(q)), g1(p - q));
    assert_eq!(g1(p).neg(), g1(-p));
    assert_eq!(g1(p).mul(&fe(s)), g1(p * s));
    // identity laws
    assert_eq!(g1(p).add(&G1::zero()), g1(p));
    assert_eq!(g1(p).sub(&G1::zero()), g1(p));
    assert!(g1(p).mul(&FieldElement::zero()).is_zero());
    assert!(G1::zero().mul(&fe(s)).is_zero());
    assert!(g1(p).sub(&g1(p)).is_zero());
    assert!(!g1(p).is_zero());
    // the identity's encoding: x = 0 with the infinity flag
    let mut id = [0u8; 32];
    id[31] = 0x40;
    assert_eq!(G1::zero().to_bytes(), id);
}

#[test]
fn g2_operations_give_the_group_results() {
    let mut rng = ChaCha20Rng::from_seed([5u8; 32]);
    let p = G2Projective::rand(&mut rng);
    let q = G2Projective::rand(&mut rng);
    let s = Fr::rand(&mut rng);
    assert_eq!(g2(p).add(&g2(q)), g2(p + q));
    assert_eq!(g2(p).mul(&fe(s)), g2(p * s));
    assert!(G2::zero().is_zero());
    assert!(!g2(p).is_zero());
    let mut id = [0u8; 64];
    id[63] = 0x40;
    assert_eq!(G2::zero().to_bytes(), id);
}

#[test]
fn point_decoding_rejects_garbage() {
    assert!(G1::from_bytes([0xff; 32]).is_none());
    assert!(G2::from_bytes([0xff; 64]).is_none());
    assert!(GT::from_bytes([0xff; 384]).is_none());
    let mut one = [0u8; 384];
    one[0] = 1;
    assert!(GT::from_bytes(one).unwrap().is_one());
}

#[test]
fn pairings_give_the_pairing_results() {
    let mut rng = ChaCha20Rng::from_seed([6u8; 32]);
    let p = G1Projective::rand(&mut rng);
    let q = G2Projective::rand(&mut rng);
    let s = Fr::rand(&mut rng);
    let e = pairing(&g1(p), &g2(q));
    assert_eq!(e, gt(Bn254::pairing(p, q).0));
    assert!(!e.is_one());
    // bilinearity, through the library's own operations
    assert_eq!(pairing(&g1(p).mul(&fe(s)), &g2(q)), e.pow(&fe(s)));
    assert!(pairing(&G1::zero(), &g2(q)).is_one());
    assert!(e.pow(&FieldElement::zero()).is_one());
    assert_eq!(GT::one().mul(&e), e);
    assert_eq!(e.mul(&e), gt(Bn254::pairing(p, q).0.square()));
    let p2 = G1Projective::rand(&mut rng);
    let q2 = G2Projective::rand(&mut rng);
    let m = multi_pairing3(&g1(p), &g1(p2), &G1::zero(), &g2(q), &g2(q2), &g2(q));
    assert_eq!(m, e.mul(&pairing(&g1(p2), &g2(q2))));
    assert!(multi_pairing3(&G1::zero(), &G1::zero(), &G1::zero(), &g2(q), &g2(q2), &g2(q)).is_one());
}

#[test]
fn constants_are_the_arkworks_constants() {
    assert_eq!(FieldElement::zero(), fe(Fr::zero()));
    assert_eq!(FieldElement::one(), fe(Fr::one()));
    assert_eq!(FieldElement::from_u64(u64::MAX), fe(Fr::from(u64::MAX)));
    assert_eq!(FieldElement::from_u64(258), fe(Fr::from(258u64)));
    assert_eq!(GT::one(), gt(<Bn254 as Pairing>::TargetField::one()));
    assert_eq!(G1::zero(), g1(G1Projective::zero()));
    assert_eq!(G2::zero(), g2(G2Projective::zero()));
}
