//! The BN254 groups G1, G2 and the pairing target group GT, each element held as its canonical
//! compressed serialization. Every group operation is a call into `ark_bn254`/`ark_ec`; what a
//! call returns is named here, since the curve arithmetic behind it takes pages to state.
use vstd::prelude::*;
use ark_bn254::{Bn254, Fq12, Fr, G1Projective, G2Projective};
use ark_ec::pairing::Pairing;
use ark_ff::{Field, PrimeField, Zero};
use ark_serialize::{CanonicalDeserialize, CanonicalSerialize};
use crate::field::{fr_modulus, le_nat, lemma_le_nat_zero_tail, FieldElement};

verus! {

/// The order of the BN254 base field.
pub open spec fn fq_modulus() -> nat {
    21888242871839275222246405745257275088696311157297823662689037894645226208583nat
}

/// What `deserialize_compressed` (with validation) followed by `serialize_compressed` makes of
/// 32 bytes as a G1 point: `None` where deserialization fails.
pub uninterp spec fn g1_decode(bytes: Seq<u8>) -> Option<Seq<u8>>;

/// Encoding of the sum of two G1 points.
pub uninterp spec fn g1_add_spec(a: Seq<u8>, b: Seq<u8>) -> Seq<u8>;

/// Encoding of the difference of two G1 points.
pub uninterp spec fn g1_sub_spec(a: Seq<u8>, b: Seq<u8>) -> Seq<u8>;

/// Encoding of the negation of a G1 point.
pub uninterp spec fn g1_neg_spec(a: Seq<u8>) -> Seq<u8>;

/// Encoding of a G1 point multiplied by a scalar.
pub uninterp spec fn g1_mul_spec(p: Seq<u8>, s: nat) -> Seq<u8>;

/// What `deserialize_compressed` (with validation) followed by `serialize_compressed` makes of
/// 64 bytes as a G2 point: `None` where deserialization fails.
pub uninterp spec fn g2_decode(bytes: Seq<u8>) -> Option<Seq<u8>>;

/// Encoding of the sum of two G2 points.
pub uninterp spec fn g2_add_spec(a: Seq<u8>, b: Seq<u8>) -> Seq<u8>;

/// Encoding of a G2 point multiplied by a scalar.
pub uninterp spec fn g2_mul_spec(p: Seq<u8>, s: nat) -> Seq<u8>;

/// Encoding of the product of two GT elements.
pub uninterp spec fn gt_mul_spec(a: Seq<u8>, b: Seq<u8>) -> Seq<u8>;

/// Encoding of a GT element raised to the power `e`.
pub uninterp spec fn gt_pow_spec(a: Seq<u8>, e: nat) -> Seq<u8>;

/// Encoding of the optimal ate pairing of a G1 and a G2 point.
pub uninterp spec fn pairing_spec(p: Seq<u8>, q: Seq<u8>) -> Seq<u8>;

/// Encoding of the product of the pairings of `ps[i]` with `qs[i]`.
pub uninterp spec fn multi_pairing_spec(ps: Seq<Seq<u8>>, qs: Seq<Seq<u8>>) -> Seq<u8>;

/// Compressed encoding of the G1 identity: x = 0 with the infinity flag (bit 6 of the last byte).
pub open spec fn g1_identity() -> Seq<u8> {
    Seq::new(32, |i: int| if i == 31 { 0x40u8 } else { 0u8 })
}

/// Compressed encoding of the G2 identity: x = 0 with the infinity flag on its last byte.
pub open spec fn g2_identity() -> Seq<u8> {
    Seq::new(64, |i: int| if i == 63 { 0x40u8 } else { 0u8 })
}

/// Encoding of the GT identity: the twelve base-field coordinates (1, 0, ..., 0).
pub open spec fn gt_one() -> Seq<u8> {
    Seq::new(384, |i: int| if i == 0 { 1u8 } else { 0u8 })
}

/// The `i`-th base-field coordinate of a GT encoding.
pub open spec fn gt_coord(s: Seq<u8>, i: int) -> nat {
    le_nat(s.subrange(32 * i, 32 * i + 32))
}

/// A GT encoding: twelve canonical base-field coordinates.
pub open spec fn gt_valid(s: Seq<u8>) -> bool {
    &&& s.len() == 384
    &&& forall|i: int| 0 <= i < 12 ==> #[trigger] gt_coord(s, i) < fq_modulus()
}

/// The identity laws of G1 on valid encodings, as arkworks' group operations obey them (each
/// trusted wrapper of this module states the instance of a law at its own call): the identity
/// encodes validly, adding it on either side or subtracting it changes nothing, scalar multiples are valid points,
/// the multiple of the identity and the multiple by 0 are the identity.
pub open spec fn g1_identity_laws() -> bool {
    &&& g1_decode(g1_identity()) == Some(g1_identity())
    &&& forall|p: Seq<u8>|
        g1_decode(p) == Some(p) ==> #[trigger] g1_add_spec(p, g1_identity()) == p
    &&& forall|p: Seq<u8>|
        g1_decode(p) == Some(p) ==> #[trigger] g1_add_spec(g1_identity(), p) == p
    &&& forall|p: Seq<u8>|
        g1_decode(p) == Some(p) ==> #[trigger] g1_sub_spec(p, g1_identity()) == p
    &&& forall|p: Seq<u8>, s: nat|
        g1_decode(p) == Some(p) ==> g1_decode(#[trigger] g1_mul_spec(p, s)) == Some(g1_mul_spec(p, s))
    &&& forall|p: Seq<u8>| g1_decode(p) == Some(p) ==> #[trigger] g1_mul_spec(p, 0) == g1_identity()
    &&& forall|s: nat| #[trigger] g1_mul_spec(g1_identity(), s) == g1_identity()
}

/// The identity laws of G2 on valid encodings, as arkworks' group operations obey them: adding
/// the identity on the right changes nothing, and the multiple of the identity is the identity.
pub open spec fn g2_identity_laws() -> bool {
    &&& forall|p: Seq<u8>|
        g2_decode(p) == Some(p) ==> #[trigger] g2_add_spec(p, g2_identity()) == p
    &&& forall|s: nat| #[trigger] g2_mul_spec(g2_identity(), s) == g2_identity()
}

/// Three G1 identities.
pub open spec fn g1_identity_triple() -> Seq<Seq<u8>> {
    seq![g1_identity(), g1_identity(), g1_identity()]
}

/// The pairing laws for the identity, as arkworks' Miller loop obeys them (it skips pairs with
/// an identity point): the product of pairings of identity G1 points is one, and every valid GT
/// value to the power 0 is one.
pub open spec fn pairing_identity_laws() -> bool {
    &&& forall|qs: Seq<Seq<u8>>|
        #[trigger] multi_pairing_spec(g1_identity_triple(), qs) == gt_one()
    &&& forall|x: Seq<u8>| #[trigger] gt_pow_spec(x, 0) == gt_one()
}

/// The identity laws of GT on valid encodings, as arkworks' `Fq12` obeys them: one times a value,
/// or a value times one, is the value; every power of one is one.
pub open spec fn gt_identity_laws() -> bool {
    &&& forall|x: Seq<u8>| gt_valid(x) ==> #[trigger] gt_mul_spec(x, gt_one()) == x
    &&& forall|x: Seq<u8>| gt_valid(x) ==> #[trigger] gt_mul_spec(gt_one(), x) == x
    &&& forall|e: nat| #[trigger] gt_pow_spec(gt_one(), e) == gt_one()
}

/// The encoding of one is a valid GT encoding.
pub proof fn lemma_gt_one_valid()
    ensures
        gt_valid(gt_one()),
{
    let b = gt_one();
    assert forall|i: int| 0 <= i < 12 implies #[trigger] gt_coord(b, i) < fq_modulus() by {
        let c = b.subrange(32 * i, 32 * i + 32);
        assert forall|k: int| 1 <= k < c.len() implies c[k] == 0 by {
            assert(c[k] == b[32 * i + k]);
        }
        lemma_le_nat_zero_tail(c);
    }
}

/// A point of G1.
#[derive(Clone, Copy, Debug, PartialEq, Eq)]
pub struct G1 {
    bytes: [u8; 32],
}

/// A point of G2.
#[derive(Clone, Copy, Debug, PartialEq, Eq)]
pub struct G2 {
    bytes: [u8; 64],
}

/// An element of the pairing target group.
#[derive(Clone, Copy, Debug, PartialEq, Eq)]
pub struct GT {
    bytes: [u8; 384],
}

impl View for G1 {
    type V = Seq<u8>;

    closed spec fn view(&self) -> Seq<u8> {
        self.bytes@
    }
}

impl View for G2 {
    type V = Seq<u8>;

    closed spec fn view(&self) -> Seq<u8> {
        self.bytes@
    }
}

impl View for GT {
    type V = Seq<u8>;

    closed spec fn view(&self) -> Seq<u8> {
        self.bytes@
    }
}

/// A G1 encoding has 32 bytes.
pub broadcast proof fn lemma_g1_len(p: G1)
    ensures
        #[trigger] p@.len() == 32,
{
}

/// A G2 encoding has 64 bytes.
pub broadcast proof fn lemma_g2_len(p: G2)
    ensures
        #[trigger] p@.len() == 64,
{
}

impl G1 {
    #[verifier::type_invariant]
    spec fn canonical(self) -> bool {
        g1_decode(self.bytes@) == Some(self.bytes@)
    }

    /// The identity.
    pub fn zero() -> (res: G1)
        ensures
            res@ == g1_identity(),
    {
        g1_zero()
    }

    /// The point that `bytes` encodes, if any (in the form it is serialized again).
    pub fn from_bytes(bytes: [u8; 32]) -> (res: Option<G1>)
        ensures
            res is Some <==> g1_decode(bytes@) is Some,
            res matches Some(p) ==> Some(p@) == g1_decode(bytes@),
    {
        g1_decode_bytes(bytes)
    }

    /// The compressed serialization.
    pub fn to_bytes(&self) -> (res: [u8; 32])
        ensures
            res@ == self@,
            self@.len() == 32,
            g1_decode(self@) == Some(self@),
    {
        proof {
            use_type_invariant(self);
        }
        self.bytes
    }

    pub fn add(&self, other: &G1) -> (res: G1)
        ensures
            res@ == g1_add_spec(self@, other@),
            res@ == g1_add_spec(other@, self@),
            other@ == g1_identity() ==> res@ == self@,
            self@ == g1_identity() ==> res@ == other@,
    {
        proof {
            use_type_invariant(self);
            use_type_invariant(other);
        }
        g1_add(self, other)
    }

    pub fn sub(&self, other: &G1) -> (res: G1)
        ensures
            res@ == g1_sub_spec(self@, other@),
            other@ == g1_identity() ==> res@ == self@,
    {
        proof {
            use_type_invariant(self);
            use_type_invariant(other);
        }
        g1_sub(self, other)
    }

    pub fn neg(&self) -> (res: G1)
        ensures
            res@ == g1_neg_spec(self@),
            self@ == g1_identity() ==> res@ == g1_identity(),
    {
        proof {
            use_type_invariant(self);
        }
        g1_neg(self)
    }

    /// Scalar multiplication.
    pub fn mul(&self, s: &FieldElement) -> (res: G1)
        ensures
            res@ == g1_mul_spec(self@, s@),
            s@ == 0 || self@ == g1_identity() ==> res@ == g1_identity(),
    {
        proof {
            use_type_invariant(self);
        }
        let b = s.to_le_bytes();
        g1_mul(self, b)
    }

    pub fn equals(&self, other: &G1) -> (res: bool)
        ensures
            res == (self@ == other@),
    {
        let mut i: usize = 0;
        while i < 32
            invariant
                i <= 32,
                forall|j: int| 0 <= j < i ==> self.bytes@[j] == other.bytes@[j],
            decreases 32 - i,
        {
            if self.bytes[i] != other.bytes[i] {
                return false;
            }
            i = i + 1;
        }
        assert(self.bytes@ =~= other.bytes@);
        true
    }

    pub fn is_zero(&self) -> (res: bool)
        ensures
            res == (self@ == g1_identity()),
    {
        self.equals(&G1::zero())
    }
}

impl G2 {
    #[verifier::type_invariant]
    spec fn canonical(self) -> bool {
        g2_decode(self.bytes@) == Some(self.bytes@)
    }

    /// The identity.
    pub fn zero() -> (res: G2)
        ensures
            res@ == g2_identity(),
    {
        g2_zero()
    }

    /// The point that `bytes` encodes, if any (in the form it is serialized again).
    pub fn from_bytes(bytes: [u8; 64]) -> (res: Option<G2>)
        ensures
            res is Some <==> g2_decode(bytes@) is Some,
            res matches Some(p) ==> Some(p@) == g2_decode(bytes@),
    {
        g2_decode_bytes(bytes)
    }

    /// The compressed serialization.
    pub fn to_bytes(&self) -> (res: [u8; 64])
        ensures
            res@ == self@,
            self@.len() == 64,
            g2_decode(self@) == Some(self@),
    {
        proof {
            use_type_invariant(self);
        }
        self.bytes
    }

    pub fn add(&self, other: &G2) -> (res: G2)
        ensures
            res@ == g2_add_spec(self@, other@),
            other@ == g2_identity() ==> res@ == self@,
            self@ == g2_identity() ==> res@ == other@,
    {
        proof {
            use_type_invariant(self);
            use_type_invariant(other);
        }
        g2_add(self, other)
    }

    /// Scalar multiplication.
    pub fn mul(&self, s: &FieldElement) -> (res: G2)
        ensures
            res@ == g2_mul_spec(self@, s@),
    {
        proof {
            use_type_invariant(self);
        }
        let b = s.to_le_bytes();
        g2_mul(self, b)
    }

    pub fn equals(&self, other: &G2) -> (res: bool)
        ensures
            res == (self@ == other@),
    {
        let mut i: usize = 0;
        while i < 64
            invariant
                i <= 64,
                forall|j: int| 0 <= j < i ==> self.bytes@[j] == other.bytes@[j],
            decreases 64 - i,
        {
            if self.bytes[i] != other.bytes[i] {
                return false;
            }
            i = i + 1;
        }
        assert(self.bytes@ =~= other.bytes@);
        true
    }

    pub fn is_zero(&self) -> (res: bool)
        ensures
            res == (self@ == g2_identity()),
    {
        self.equals(&G2::zero())
    }
}

impl GT {
    #[verifier::type_invariant]
    spec fn canonical(self) -> bool {
        gt_valid(self.bytes@)
    }

    /// The identity.
    pub fn one() -> (res: GT)
        ensures
            res@ == gt_one(),
    {
        let mut bytes = [0u8; 384];
        bytes[0] = 1;
        proof {
            assert(bytes@ =~= gt_one());
            lemma_gt_one_valid();
        }
        GT { bytes }
    }

    /// The element that `bytes` encodes, if any.
    pub fn from_bytes(bytes: [u8; 384]) -> (res: Option<GT>)
        ensures
            res is Some <==> gt_valid(bytes@),
            res matches Some(g) ==> g@ == bytes@,
    {
        gt_decode(bytes)
    }

    /// The compressed serialization.
    pub fn to_bytes(&self) -> (res: [u8; 384])
        ensures
            res@ == self@,
            self@.len() == 384,
            gt_valid(self@),
    {
        proof {
            use_type_invariant(self);
        }
        self.bytes
    }

    pub fn mul(&self, other: &GT) -> (res: GT)
        ensures
            res@ == gt_mul_spec(self@, other@),
            res@ == gt_mul_spec(other@, self@),
            self@ == gt_one() ==> res@ == other@,
            other@ == gt_one() ==> res@ == self@,
    {
        proof {
            use_type_invariant(self);
            use_type_invariant(other);
        }
        gt_mul(self, other)
    }

    /// Exponentiation by the canonical integer of a scalar.
    pub fn pow(&self, e: &FieldElement) -> (res: GT)
        ensures
            res@ == gt_pow_spec(self@, e@),
            e@ == 0 ==> res@ == gt_one(),
            self@ == gt_one() ==> res@ == gt_one(),
    {
        proof {
            use_type_invariant(self);
        }
        let b = e.to_le_bytes();
        gt_pow(self, b)
    }

    pub fn equals(&self, other: &GT) -> (res: bool)
        ensures
            res == (self@ == other@),
    {
        let mut i: usize = 0;
        while i < 384
            invariant
                i <= 384,
                forall|j: int| 0 <= j < i ==> self.bytes@[j] == other.bytes@[j],
            decreases 384 - i,
        {
            if self.bytes[i] != other.bytes[i] {
                return false;
            }
            i = i + 1;
        }
        assert(self.bytes@ =~= other.bytes@);
        true
    }

    pub fn is_one(&self) -> (res: bool)
        ensures
            res == (self@ == gt_one()),
    {
        self.equals(&GT::one())
    }
}

/// The pairing `e(p, q)`.
pub fn pairing(p: &G1, q: &G2) -> (res: GT)
    ensures
        res@ == pairing_spec(p@, q@),
        p@ == g1_identity() || q@ == g2_identity() ==> res@ == gt_one(),
{
    proof {
        use_type_invariant(p);
        use_type_invariant(q);
    }
    bn254_pairing(p, q)
}

/// The product of the pairings `e(p0, q0) · e(p1, q1) · e(p2, q2)`.
pub fn multi_pairing3(p0: &G1, p1: &G1, p2: &G1, q0: &G2, q1: &G2, q2: &G2) -> (res: GT)
    ensures
        res@ == multi_pairing_spec(seq![p0@, p1@, p2@], seq![q0@, q1@, q2@]),
        p0@ == g1_identity() && p1@ == g1_identity() && p2@ == g1_identity() ==> res@ == gt_one(),
{
    proof {
        use_type_invariant(p0);
        use_type_invariant(p1);
        use_type_invariant(p2);
        use_type_invariant(q0);
        use_type_invariant(q1);
        use_type_invariant(q2);
    }
    bn254_multi_pairing3(p0, p1, p2, q0, q1, q2)
}

/// `G1Projective::zero()`, serialized: the identity's encoding, which decodes to itself.
#[verifier::external_body]
fn g1_zero() -> (res: G1)
    ensures
        res@ == g1_identity(),
        g1_decode(res@) == Some(res@),
{
    let mut bytes = [0u8; 32];
    G1Projective::zero().serialize_compressed(&mut bytes[..]).unwrap();
    G1 { bytes }
}

/// `G1Projective::deserialize_compressed`, then `serialize_compressed` of the point read.
#[verifier::external_body]
fn g1_decode_bytes(bytes: [u8; 32]) -> (res: Option<G1>)
    ensures
        res is Some <==> g1_decode(bytes@) is Some,
        res matches Some(p) ==> Some(p@) == g1_decode(bytes@) && g1_decode(p@) == Some(p@),
{
    let p = G1Projective::deserialize_compressed(&bytes[..]).ok()?;
    let mut out = [0u8; 32];
    p.serialize_compressed(&mut out[..]).unwrap();
    Some(G1 { bytes: out })
}

/// `+` on `G1Projective`. Adding the identity on either side (which `add_assign` returns early
/// on) leaves a point, and so its canonical encoding, unchanged; the group (of prime order) is
/// commutative, and the encoding of the affine sum does not depend on the order of the operands.
#[verifier::external_body]
fn g1_add(a: &G1, b: &G1) -> (res: G1)
    requires
        g1_decode(a@) == Some(a@),
        g1_decode(b@) == Some(b@),
    ensures
        res@ == g1_add_spec(a@, b@),
        res@ == g1_add_spec(b@, a@),
        b@ == g1_identity() ==> res@ == a@,
        a@ == g1_identity() ==> res@ == b@,
        g1_decode(res@) == Some(res@),
{
    let x = G1Projective::deserialize_compressed_unchecked(&a.bytes[..]).unwrap();
    let y = G1Projective::deserialize_compressed_unchecked(&b.bytes[..]).unwrap();
    let mut bytes = [0u8; 32];
    (x + y).serialize_compressed(&mut bytes[..]).unwrap();
    G1 { bytes }
}

/// `-` (binary) on `G1Projective`; subtracting the identity leaves a point unchanged.
#[verifier::external_body]
fn g1_sub(a: &G1, b: &G1) -> (res: G1)
    requires
        g1_decode(a@) == Some(a@),
        g1_decode(b@) == Some(b@),
    ensures
        res@ == g1_sub_spec(a@, b@),
        b@ == g1_identity() ==> res@ == a@,
        g1_decode(res@) == Some(res@),
{
    let x = G1Projective::deserialize_compressed_unchecked(&a.bytes[..]).unwrap();
    let y = G1Projective::deserialize_compressed_unchecked(&b.bytes[..]).unwrap();
    let mut bytes = [0u8; 32];
    (x - y).serialize_compressed(&mut bytes[..]).unwrap();
    G1 { bytes }
}

/// Unary `-` on `G1Projective`; the negation of the identity is the identity.
#[verifier::external_body]
fn g1_neg(a: &G1) -> (res: G1)
    requires
        g1_decode(a@) == Some(a@),
    ensures
        res@ == g1_neg_spec(a@),
        a@ == g1_identity() ==> res@ == g1_identity(),
        g1_decode(res@) == Some(res@),
{
    let x = G1Projective::deserialize_compressed_unchecked(&a.bytes[..]).unwrap();
    let mut bytes = [0u8; 32];
    (-x).serialize_compressed(&mut bytes[..]).unwrap();
    G1 { bytes }
}

/// `G1Projective * Fr`, the scalar given by its canonical little-endian bytes; the product with
/// the scalar 0, and any multiple of the identity, is the identity.
#[verifier::external_body]
fn g1_mul(a: &G1, s: [u8; 32]) -> (res: G1)
    requires
        g1_decode(a@) == Some(a@),
        le_nat(s@) < fr_modulus(),
    ensures
        res@ == g1_mul_spec(a@, le_nat(s@)),
        le_nat(s@) == 0 || a@ == g1_identity() ==> res@ == g1_identity(),
        g1_decode(res@) == Some(res@),
{
    let x = G1Projective::deserialize_compressed_unchecked(&a.bytes[..]).unwrap();
    let k = Fr::deserialize_compressed(&s[..]).unwrap();
    let mut bytes = [0u8; 32];
    (x * k).serialize_compressed(&mut bytes[..]).unwrap();
    G1 { bytes }
}

/// `G2Projective::zero()`, serialized: the identity's encoding, which decodes to itself.
#[verifier::external_body]
fn g2_zero() -> (res: G2)
    ensures
        res@ == g2_identity(),
        g2_decode(res@) == Some(res@),
{
    let mut bytes = [0u8; 64];
    G2Projective::zero().serialize_compressed(&mut bytes[..]).unwrap();
    G2 { bytes }
}

/// `G2Projective::deserialize_compressed`, then `serialize_compressed` of the point read.
#[verifier::external_body]
fn g2_decode_bytes(bytes: [u8; 64]) -> (res: Option<G2>)
    ensures
        res is Some <==> g2_decode(bytes@) is Some,
        res matches Some(p) ==> Some(p@) == g2_decode(bytes@) && g2_decode(p@) == Some(p@),
{
    let p = G2Projective::deserialize_compressed(&bytes[..]).ok()?;
    let mut out = [0u8; 64];
    p.serialize_compressed(&mut out[..]).unwrap();
    Some(G2 { bytes: out })
}

/// `+` on `G2Projective`; adding the identity on either side leaves a point unchanged.
#[verifier::external_body]
fn g2_add(a: &G2, b: &G2) -> (res: G2)
    requires
        g2_decode(a@) == Some(a@),
        g2_decode(b@) == Some(b@),
    ensures
        res@ == g2_add_spec(a@, b@),
        b@ == g2_identity() ==> res@ == a@,
        a@ == g2_identity() ==> res@ == b@,
        g2_decode(res@) == Some(res@),
{
    let x = G2Projective::deserialize_compressed_unchecked(&a.bytes[..]).unwrap();
    let y = G2Projective::deserialize_compressed_unchecked(&b.bytes[..]).unwrap();
    let mut bytes = [0u8; 64];
    (x + y).serialize_compressed(&mut bytes[..]).unwrap();
    G2 { bytes }
}

/// `G2Projective * Fr`, the scalar given by its canonical little-endian bytes.
#[verifier::external_body]
fn g2_mul(a: &G2, s: [u8; 32]) -> (res: G2)
    requires
        g2_decode(a@) == Some(a@),
        le_nat(s@) < fr_modulus(),
    ensures
        res@ == g2_mul_spec(a@, le_nat(s@)),
        g2_decode(res@) == Some(res@),
{
    let x = G2Projective::deserialize_compressed_unchecked(&a.bytes[..]).unwrap();
    let k = Fr::deserialize_compressed(&s[..]).unwrap();
    let mut bytes = [0u8; 64];
    (x * k).serialize_compressed(&mut bytes[..]).unwrap();
    G2 { bytes }
}

/// `Fq12::deserialize_compressed`: accepts exactly twelve canonical base-field coordinates,
/// which `serialize_compressed` writes back unchanged.
#[verifier::external_body]
fn gt_decode(bytes: [u8; 384]) -> (res: Option<GT>)
    ensures
        res is Some <==> gt_valid(bytes@),
        res matches Some(g) ==> g@ == bytes@,
{
    let g = Fq12::deserialize_compressed(&bytes[..]).ok()?;
    let mut out = [0u8; 384];
    g.serialize_compressed(&mut out[..]).unwrap();
    Some(GT { bytes: out })
}

/// `*` on `Fq12`, a field and so commutative; one times `b` is `b` (and `a` times one is `a`),
/// whose canonical coordinates are written back unchanged.
#[verifier::external_body]
fn gt_mul(a: &GT, b: &GT) -> (res: GT)
    requires
        gt_valid(a@),
        gt_valid(b@),
    ensures
        res@ == gt_mul_spec(a@, b@),
        res@ == gt_mul_spec(b@, a@),
        a@ == gt_one() ==> res@ == b@,
        b@ == gt_one() ==> res@ == a@,
        gt_valid(res@),
{
    let x = Fq12::deserialize_compressed(&a.bytes[..]).unwrap();
    let y = Fq12::deserialize_compressed(&b.bytes[..]).unwrap();
    let mut bytes = [0u8; 384];
    (x * y).serialize_compressed(&mut bytes[..]).unwrap();
    GT { bytes }
}

/// `Fq12::pow` with the limbs of `Fr::into_bigint`, the scalar given by its canonical bytes;
/// `pow` starts from one and, for the exponent 0, returns it; every power of one is one.
#[verifier::external_body]
fn gt_pow(a: &GT, e: [u8; 32]) -> (res: GT)
    requires
        gt_valid(a@),
        le_nat(e@) < fr_modulus(),
    ensures
        res@ == gt_pow_spec(a@, le_nat(e@)),
        le_nat(e@) == 0 ==> res@ == gt_one(),
        a@ == gt_one() ==> res@ == gt_one(),
        gt_valid(res@),
{
    let x = Fq12::deserialize_compressed(&a.bytes[..]).unwrap();
    let k = Fr::deserialize_compressed(&e[..]).unwrap();
    let mut bytes = [0u8; 384];
    x.pow(k.into_bigint()).serialize_compressed(&mut bytes[..]).unwrap();
    GT { bytes }
}

/// `Bn254::pairing`, the output's `Fq12` serialized. The Miller loop skips a pair in which
/// either point is the identity, so then it starts and ends at one, which the final
/// exponentiation maps to one.
#[verifier::external_body]
fn bn254_pairing(p: &G1, q: &G2) -> (res: GT)
    requires
        g1_decode(p@) == Some(p@),
        g2_decode(q@) == Some(q@),
    ensures
        res@ == pairing_spec(p@, q@),
        gt_valid(res@),
        p@ == g1_identity() || q@ == g2_identity() ==> res@ == gt_one(),
{
    let a = G1Projective::deserialize_compressed_unchecked(&p.bytes[..]).unwrap();
    let b = G2Projective::deserialize_compressed_unchecked(&q.bytes[..]).unwrap();
    let mut bytes = [0u8; 384];
    Bn254::pairing(a, b).0.serialize_compressed(&mut bytes[..]).unwrap();
    GT { bytes }
}

/// `Bn254::multi_pairing` on three pairs, the output's `Fq12` serialized. The Miller loop skips
/// every pair whose G1 point is the identity, so with no pair left it starts and ends at one,
/// and the final exponentiation maps one to one.
#[verifier::external_body]
fn bn254_multi_pairing3(p0: &G1, p1: &G1, p2: &G1, q0: &G2, q1: &G2, q2: &G2) -> (res: GT)
    requires
        g1_decode(p0@) == Some(p0@),
        g1_decode(p1@) == Some(p1@),
        g1_decode(p2@) == Some(p2@),
        g2_decode(q0@) == Some(q0@),
        g2_decode(q1@) == Some(q1@),
        g2_decode(q2@) == Some(q2@),
    ensures
        res@ == multi_pairing_spec(seq![p0@, p1@, p2@], seq![q0@, q1@, q2@]),
        gt_valid(res@),
        p0@ == g1_identity() && p1@ == g1_identity() && p2@ == g1_identity() ==> res@ == gt_one(),
{
    let a0 = G1Projective::deserialize_compressed_unchecked(&p0.bytes[..]).unwrap();
    let a1 = G1Projective::deserialize_compressed_unchecked(&p1.bytes[..]).unwrap();
    let a2 = G1Projective::deserialize_compressed_unchecked(&p2.bytes[..]).unwrap();
    let b0 = G2Projective::deserialize_compressed_unchecked(&q0.bytes[..]).unwrap();
    let b1 = G2Projective::deserialize_compressed_unchecked(&q1.bytes[..]).unwrap();
    let b2 = G2Projective::deserialize_compressed_unchecked(&q2.bytes[..]).unwrap();
    let mut bytes = [0u8; 384];
    Bn254::multi_pairing([a0, a1, a2], [b0, b1, b2]).0.serialize_compressed(&mut bytes[..]).unwrap();
    GT { bytes }
}

} // verus!
