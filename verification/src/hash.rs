//! Keccak-based hashing of scalars into the scalar field (the binding claim of an aggregate).
use vstd::prelude::*;
use sha3::{Digest, Keccak256};
use crate::error::SnarkFoldResult;
use crate::encoding::{
    fe_all_reduced, fe_seq_bytes, lemma_fe_bytes, lemma_fe_seq_bytes_chunk, lemma_fe_seq_bytes_len,
    push_fe, push_fe_seq,
};
use vstd::arithmetic::div_mod::lemma_fundamental_div_mod;
use crate::field::{fe_bytes, fr_modulus, le_nat, FieldElement};

verus! {

/// The Keccak-256 digest of a byte string.
pub uninterp spec fn keccak256_spec(data: Seq<u8>) -> Seq<u8>;

/// The digest of `data`, read as a little-endian integer and reduced into the scalar field.
pub open spec fn hash_to_field(data: Seq<u8>) -> nat {
    le_nat(keccak256_spec(data)) % fr_modulus()
}

pub open spec fn hash_one_spec(x: nat) -> nat {
    hash_to_field(fe_bytes(x))
}

pub open spec fn hash_two_spec(a: nat, b: nat) -> nat {
    hash_to_field(fe_bytes(a) + fe_bytes(b))
}

pub open spec fn hash_many_spec(xs: Seq<nat>) -> nat {
    hash_to_field(fe_seq_bytes(xs))
}

/// Law: hashing scalars hashes the serialization of every one of them, in order: for any byte
/// string made of the 32-byte serializations of `xs[0]`, …, `xs[n−1]`, the hash of `xs` is the
/// hash of that string. In particular one scalar hashes as `hash_one`, two as `hash_two`.
pub proof fn lemma_hash_many_covers_every_input(xs: Seq<nat>, b: Seq<u8>)
    requires
        fe_all_reduced(xs),
        b.len() == 32 * xs.len(),
        forall|i: int| 0 <= i < xs.len() ==> #[trigger] b.subrange(32 * i, 32 * i + 32) == fe_bytes(xs[i]),
    ensures
        hash_many_spec(xs) == hash_to_field(b),
        xs.len() == 1 ==> hash_many_spec(xs) == hash_one_spec(xs[0]),
        xs.len() == 2 ==> hash_many_spec(xs) == hash_two_spec(xs[0], xs[1]),
{
    let f = fe_seq_bytes(xs);
    lemma_fe_seq_bytes_len(xs);
    assert forall|j: int| 0 <= j < b.len() implies b[j] == f[j] by {
        lemma_fundamental_div_mod(j, 32);
        let i = j / 32;
        let k = j % 32;
        assert(0 <= i < xs.len()) by (nonlinear_arith)
            requires j == 32 * i + k, 0 <= k < 32, 0 <= j < 32 * xs.len();
        lemma_fe_seq_bytes_chunk(xs, i);
        assert(b.subrange(32 * i, 32 * i + 32)[k] == b[j]);
        assert(f.subrange(32 * i, 32 * i + 32)[k] == f[j]);
    }
    assert(b =~= f);
    if xs.len() == 1 {
        lemma_fe_bytes(xs[0]);
        assert(b.subrange(32 * 0int, 32 * 0int + 32) == fe_bytes(xs[0]));
        assert(b =~= fe_bytes(xs[0]));
    }
    if xs.len() == 2 {
        lemma_fe_bytes(xs[0]);
        lemma_fe_bytes(xs[1]);
        assert(b.subrange(32 * 0int, 32 * 0int + 32) == fe_bytes(xs[0]));
        assert(b.subrange(32 * 1int, 32 * 1int + 32) == fe_bytes(xs[1]));
        assert(b =~= fe_bytes(xs[0]) + fe_bytes(xs[1]));
    }
}

/// `Keccak256::digest`: the 32-byte Keccak-256 digest of `data`.
#[verifier::external_body]
pub(crate) fn keccak256(data: &[u8]) -> (res: [u8; 32])
    ensures
        res@ == keccak256_spec(data@),
{
    Keccak256::digest(data).into()
}

/// The digest of `data`, reduced into the scalar field.
pub(crate) fn digest_to_field(data: &[u8]) -> (res: FieldElement)
    ensures
        res@ == hash_to_field(data@),
{
    let d = keccak256(data);
    FieldElement::from_le_bytes_mod_order(&d)
}

/// Hash function of the library (collision-resistant).
pub struct SnarkFoldHash;

impl SnarkFoldHash {
    /// Hash a single field element.
    pub fn hash_one(input: &FieldElement) -> (res: SnarkFoldResult<FieldElement>)
        ensures
            res matches Ok(h) && h@ == hash_one_spec(input@),
    {
        let mut bytes: Vec<u8> = Vec::new();
        push_fe(&mut bytes, input);
        assert(bytes@ =~= fe_bytes(input@));
        Ok(digest_to_field(bytes.as_slice()))
    }

    /// Hash two elements together.
    pub fn hash_two(a: &FieldElement, b: &FieldElement) -> (res: SnarkFoldResult<FieldElement>)
        ensures
            res matches Ok(h) && h@ == hash_two_spec(a@, b@),
    {
        let mut bytes: Vec<u8> = Vec::new();
        push_fe(&mut bytes, a);
        push_fe(&mut bytes, b);
        assert(bytes@ =~= fe_bytes(a@) + fe_bytes(b@));
        Ok(digest_to_field(bytes.as_slice()))
    }

    /// Hash multiple field elements.
    pub fn hash_many(inputs: &[FieldElement]) -> (res: SnarkFoldResult<FieldElement>)
        ensures
            res matches Ok(h) && h@ == hash_many_spec(inputs@.map_values(|x: FieldElement| x@)),
    {
        let mut bytes: Vec<u8> = Vec::new();
        push_fe_seq(&mut bytes, inputs);
        assert(bytes@ =~= fe_seq_bytes(inputs@.map_values(|x: FieldElement| x@)));
        Ok(digest_to_field(bytes.as_slice()))
    }

    /// Hash data given by its serialization.
    pub fn hash_arbitrary(data: &[u8]) -> (res: SnarkFoldResult<FieldElement>)
        ensures
            res matches Ok(h) && h@ == hash_to_field(data@),
    {
        Ok(digest_to_field(data))
    }
}

} // verus!
