//! Elements of the BN254 scalar field, held as their canonical 32-byte little-endian encoding
//! (the compressed serialization of `ark_bn254::Fr`).
use vstd::prelude::*;
use vstd::arithmetic::div_mod::{lemma_fundamental_div_mod_converse, lemma_small_mod};
use ark_bn254::Fr;
use ark_ff::PrimeField;
use ark_serialize::{CanonicalDeserialize, CanonicalSerialize};

use crate::encoding::{lemma_le_nat_le_encode, lemma_pow256_values, push_u64_le};

verus! {

/// The order of the BN254 scalar field.
pub open spec fn fr_modulus() -> nat {
    21888242871839275222246405745257275088548364400416034343698204186575808495617nat
}

/// Little-endian value of a byte string.
pub open spec fn le_nat(s: Seq<u8>) -> nat
    decreases s.len(),
{
    if s.len() == 0 {
        0
    } else {
        s[0] as nat + 256 * le_nat(s.drop_first())
    }
}

/// The `n` low little-endian bytes of `v`.
pub open spec fn le_encode(v: nat, n: nat) -> Seq<u8>
    decreases n,
{
    if n == 0 {
        Seq::empty()
    } else {
        seq![(v % 256) as u8] + le_encode(v / 256, (n - 1) as nat)
    }
}

/// The 32-byte serialization of a scalar.
pub open spec fn fe_bytes(v: nat) -> Seq<u8> {
    le_encode(v, 32)
}

pub open spec fn fadd(a: nat, b: nat) -> nat {
    (a + b) % fr_modulus()
}

pub open spec fn fsub(a: nat, b: nat) -> nat {
    ((a - b) % (fr_modulus() as int)) as nat
}

pub open spec fn fmul(a: nat, b: nat) -> nat {
    (a * b) % fr_modulus()
}

pub open spec fn fneg(a: nat) -> nat {
    ((0 - a) % (fr_modulus() as int)) as nat
}

/// A byte string is the little-endian encoding of its own value.
pub proof fn lemma_le_encode_le_nat(s: Seq<u8>)
    ensures
        le_encode(le_nat(s), s.len()) == s,
    decreases s.len(),
{
    if s.len() > 0 {
        let rest = s.drop_first();
        lemma_le_encode_le_nat(rest);
        lemma_fundamental_div_mod_converse(le_nat(s) as int, 256, le_nat(rest) as int, s[0] as int);
        assert(le_encode(le_nat(s), s.len()) =~= s);
    }
}

/// A byte string that is zero past its first byte has the value of its first byte.
pub proof fn lemma_le_nat_zero_tail(s: Seq<u8>)
    requires
        s.len() > 0,
        forall|i: int| 1 <= i < s.len() ==> s[i] == 0,
    ensures
        le_nat(s) == s[0],
    decreases s.len(),
{
    let rest = s.drop_first();
    if rest.len() > 0 {
        lemma_le_nat_zero_tail(rest);
        assert(rest[0] == s[1]);
    }
    assert(le_nat(rest) == 0);
    assert(le_nat(s) == s[0] as nat + 256 * le_nat(rest));
}

/// A scalar field element.
#[derive(Clone, Copy, Debug, PartialEq, Eq)]
pub struct FieldElement {
    bytes: [u8; 32],
}

impl View for FieldElement {
    type V = nat;

    closed spec fn view(&self) -> nat {
        le_nat(self.bytes@)
    }
}

impl FieldElement {
    #[verifier::type_invariant]
    spec fn canonical(self) -> bool {
        le_nat(self.bytes@) < fr_modulus()
    }

    /// The additive identity.
    pub fn zero() -> (res: FieldElement)
        ensures
            res@ == 0,
    {
        let bytes = [0u8; 32];
        proof {
            lemma_le_nat_zero_tail(bytes@);
        }
        FieldElement { bytes }
    }

    /// The multiplicative identity.
    pub fn one() -> (res: FieldElement)
        ensures
            res@ == 1,
    {
        let mut bytes = [0u8; 32];
        bytes[0] = 1;
        proof {
            lemma_le_nat_zero_tail(bytes@);
        }
        FieldElement { bytes }
    }

    /// The field element `v`.
    pub fn from_u64(v: u64) -> (res: FieldElement)
        ensures
            res@ == v,
    {
        let mut le: Vec<u8> = Vec::new();
        push_u64_le(&mut le, v);
        proof {
            assert(le@ =~= le_encode(v as nat, 8));
            lemma_pow256_values();
            lemma_le_nat_le_encode(v as nat, 8);
            lemma_small_mod(v as nat, fr_modulus());
        }
        fr_from_le_bytes_mod_order(le.as_slice())
    }

    /// The little-endian value of `bytes`, reduced modulo the field order.
    pub fn from_le_bytes_mod_order(bytes: &[u8]) -> (res: FieldElement)
        ensures
            res@ == le_nat(bytes@) % fr_modulus(),
    {
        fr_from_le_bytes_mod_order(bytes)
    }

    /// The element whose canonical encoding is `bytes`, if `bytes` is one.
    pub fn from_bytes(bytes: [u8; 32]) -> (res: Option<FieldElement>)
        ensures
            res is Some <==> le_nat(bytes@) < fr_modulus(),
            res matches Some(x) ==> x@ == le_nat(bytes@) && x.to_bytes_spec() == bytes@,
    {
        let r = fr_decode(bytes);
        proof {
            if let Some(x) = r {
                lemma_le_encode_le_nat(x.bytes@);
                lemma_le_encode_le_nat(bytes@);
            }
        }
        r
    }

    /// The canonical encoding of this element.
    pub open spec fn to_bytes_spec(&self) -> Seq<u8> {
        fe_bytes(self@)
    }

    /// The canonical encoding of this element.
    pub fn to_bytes(&self) -> (res: [u8; 32])
        ensures
            res@ == fe_bytes(self@),
            self@ < fr_modulus(),
    {
        proof {
            use_type_invariant(self);
            lemma_le_encode_le_nat(self.bytes@);
        }
        self.bytes
    }

    /// The canonical encoding, together with the fact that it encodes a reduced value.
    pub fn to_le_bytes(&self) -> (res: [u8; 32])
        ensures
            le_nat(res@) == self@,
            self@ < fr_modulus(),
    {
        proof {
            use_type_invariant(self);
        }
        self.bytes
    }

    pub fn add(&self, other: &FieldElement) -> (res: FieldElement)
        ensures
            res@ == fadd(self@, other@),
            other@ == 0 ==> res@ == self@,
            self@ == 0 ==> res@ == other@,
    {
        proof {
            use_type_invariant(self);
            use_type_invariant(other);
            lemma_small_mod(self@, fr_modulus());
            lemma_small_mod(other@, fr_modulus());
        }
        fr_add(self, other)
    }

    pub fn sub(&self, other: &FieldElement) -> (res: FieldElement)
        ensures
            res@ == fsub(self@, other@),
    {
        proof {
            use_type_invariant(self);
            use_type_invariant(other);
        }
        fr_sub(self, other)
    }

    pub fn mul(&self, other: &FieldElement) -> (res: FieldElement)
        ensures
            res@ == fmul(self@, other@),
            self@ == 0 || other@ == 0 ==> res@ == 0,
    {
        proof {
            use_type_invariant(self);
            use_type_invariant(other);
            lemma_small_mod(0, fr_modulus());
            if self@ == 0 {
                assert(self@ * other@ == 0);
            }
            if other@ == 0 {
                assert(self@ * other@ == 0);
            }
        }
        fr_mul(self, other)
    }

    pub fn neg(&self) -> (res: FieldElement)
        ensures
            res@ == fneg(self@),
            self@ == 0 ==> res@ == 0,
    {
        proof {
            use_type_invariant(self);
            lemma_small_mod(0, fr_modulus());
        }
        fr_neg(self)
    }

    /// Equality of field elements.
    pub fn equals(&self, other: &FieldElement) -> (res: bool)
        ensures
            res == (self@ == other@),
    {
        let mut i: usize = 0;
        while i < 32
            invariant
                i <= 32,
                forall|j: int| 0 <= j < i ==> self.bytes@[j] == other.bytes@[j],
            decreases 32 - i,
        {
            if self.bytes[i] != other.bytes[i] {
                proof {
                    lemma_le_encode_le_nat(self.bytes@);
                    lemma_le_encode_le_nat(other.bytes@);
                }
                return false;
            }
            i = i + 1;
        }
        assert(self.bytes@ =~= other.bytes@);
        true
    }

    pub fn is_zero(&self) -> (res: bool)
        ensures
            res == (self@ == 0),
    {
        self.equals(&FieldElement::zero())
    }

    pub fn is_one(&self) -> (res: bool)
        ensures
            res == (self@ == 1),
    {
        self.equals(&FieldElement::one())
    }
}

/// `Fr::deserialize_compressed`: accepts exactly the 32-byte strings whose little-endian value
/// is below the field order, and `serialize_compressed` writes that value back.
#[verifier::external_body]
fn fr_decode(bytes: [u8; 32]) -> (res: Option<FieldElement>)
    ensures
        res is Some <==> le_nat(bytes@) < fr_modulus(),
        res matches Some(x) ==> x@ == le_nat(bytes@),
{
    let x = Fr::deserialize_compressed(&bytes[..]).ok()?;
    let mut out = [0u8; 32];
    x.serialize_compressed(&mut out[..]).unwrap();
    Some(FieldElement { bytes: out })
}

/// `Fr::from_le_bytes_mod_order`: the little-endian value of `bytes` modulo the field order.
#[verifier::external_body]
fn fr_from_le_bytes_mod_order(bytes: &[u8]) -> (res: FieldElement)
    ensures
        res@ == le_nat(bytes@) % fr_modulus(),
{
    let mut out = [0u8; 32];
    Fr::from_le_bytes_mod_order(bytes).serialize_compressed(&mut out[..]).unwrap();
    FieldElement { bytes: out }
}

/// `+` on `Fr`: the field sum.
#[verifier::external_body]
fn fr_add(a: &FieldElement, b: &FieldElement) -> (res: FieldElement)
    requires
        a@ < fr_modulus(),
        b@ < fr_modulus(),
    ensures
        res@ == fadd(a@, b@),
{
    let x = Fr::deserialize_compressed(&a.bytes[..]).unwrap();
    let y = Fr::deserialize_compressed(&b.bytes[..]).unwrap();
    let mut bytes = [0u8; 32];
    (x + y).serialize_compressed(&mut bytes[..]).unwrap();
    FieldElement { bytes }
}

/// `-` (binary) on `Fr`: the field difference.
#[verifier::external_body]
fn fr_sub(a: &FieldElement, b: &FieldElement) -> (res: FieldElement)
    requires
        a@ < fr_modulus(),
        b@ < fr_modulus(),
    ensures
        res@ == fsub(a@, b@),
{
    let x = Fr::deserialize_compressed(&a.bytes[..]).unwrap();
    let y = Fr::deserialize_compressed(&b.bytes[..]).unwrap();
    let mut bytes = [0u8; 32];
    (x - y).serialize_compressed(&mut bytes[..]).unwrap();
    FieldElement { bytes }
}

/// `*` on `Fr`: the field product.
#[verifier::external_body]
fn fr_mul(a: &FieldElement, b: &FieldElement) -> (res: FieldElement)
    requires
        a@ < fr_modulus(),
        b@ < fr_modulus(),
    ensures
        res@ == fmul(a@, b@),
{
    let x = Fr::deserialize_compressed(&a.bytes[..]).unwrap();
    let y = Fr::deserialize_compressed(&b.bytes[..]).unwrap();
    let mut bytes = [0u8; 32];
    (x * y).serialize_compressed(&mut bytes[..]).unwrap();
    FieldElement { bytes }
}

/// Unary `-` on `Fr`: the additive inverse.
#[verifier::external_body]
fn fr_neg(a: &FieldElement) -> (res: FieldElement)
    requires
        a@ < fr_modulus(),
    ensures
        res@ == fneg(a@),
{
    let x = Fr::deserialize_compressed(&a.bytes[..]).unwrap();
    let mut bytes = [0u8; 32];
    (-x).serialize_compressed(&mut bytes[..]).unwrap();
    FieldElement { bytes }
}

} // verus!
