//! Folding scheme for augmented relaxed Groth16.
//!
//! Given two satisfying pairs (u₁, π₁), (u₂, π₂) for the same verifying key, the prover
//! publishes cross terms T = (T', R, ⃗t, κ), both sides derive r = Hash(u₁, u₂, T), and the
//! folded pair
//!
//! ```text
//! ⃗a* = ⃗a₁ + r·⃗a₂        μ* = μ₁ + r·μ₂
//! E*  = E₁ · T'^r · E₂^(r²)    R* = R₁ + r·R + r²·R₂
//! ⃗t* = ⃗t₁ + r·⃗t + r²·⃗t₂    κ* = κ₁ + r·κ + r²·κ₂
//! A*  = A₁ + r·A₂    B* = B₁ + r·B₂    C* = C₁ + r·C₂
//! ```
//!
//! satisfies the relation again. The signs of the cross terms follow from expanding the
//! relation with (⃗a*, μ*): R = −(μ₂C₁ + μ₁C₂), ⃗t = −(μ₂⃗a₁ + μ₁⃗a₂), κ = −2μ₁μ₂.
use vstd::prelude::*;
use crate::curve::{
    g1_add_spec, g1_identity, g1_mul_spec, g1_neg_spec, g1_sub_spec, g2_add_spec, g2_mul_spec,
    g1_decode, g1_identity_laws, g1_identity_triple, g2_decode, lemma_gt_one_valid, g2_identity, g2_identity_laws, gt_identity_laws, pairing_identity_laws, gt_mul_spec, gt_one, gt_pow_spec, multi_pairing3, multi_pairing_spec, pairing, pairing_spec, G1,
};
use crate::encoding::{chunk, lemma_chunk_split, push_bytes};
use crate::error::{SnarkFoldError, SnarkFoldResult};
use crate::field::{fadd, fmul, fneg, fr_modulus, fsub, FieldElement};
use vstd::arithmetic::div_mod::{
    lemma_add_mod_noop, lemma_add_mod_noop_right, lemma_mod_bound, lemma_mul_mod_noop_left,
    lemma_small_mod,
};
use crate::groth16::{
    cross_terms_bytes, cross_terms_ok, instance_bytes, instance_ok, lemma_parse_cross_terms_at,
    lemma_parse_instance_at, AugmentedRelaxedInstance, AugmentedRelaxedProof,
    CrossTerms, CrossTermsModel, GrothVerifyingKey, ProofModel, RelaxedInstanceModel,
    VerifyingKeyModel, zero_instance_spec, zero_proof_spec, zeros,
};
use crate::hash::{digest_to_field, hash_to_field};

verus! {

/// Text of the error for vectors of different lengths.
pub open spec fn length_error_text() -> Seq<char> {
    "Instance vectors must have same length"@
}

/// The error for vectors of different lengths.
pub open spec fn is_length_error(e: SnarkFoldError) -> bool {
    e matches SnarkFoldError::FoldingError(m) && m@ == length_error_text()
}

/// The lengths under which cross terms can be formed.
pub open spec fn cross_lengths_ok(u1: RelaxedInstanceModel, u2: RelaxedInstanceModel) -> bool {
    &&& u2.a.len() == u1.a.len()
    &&& u1.t.len() == u1.a.len()
    &&& u2.t.len() == u1.a.len()
}

/// Cross terms (Equation 3).
pub open spec fn cross_terms_spec(
    p1: ProofModel,
    u1: RelaxedInstanceModel,
    p2: ProofModel,
    u2: RelaxedInstanceModel,
) -> CrossTermsModel {
    CrossTermsModel {
        t_prime: gt_mul_spec(pairing_spec(p1.a, p2.b), pairing_spec(p2.a, p1.b)),
        r: g1_neg_spec(g1_add_spec(g1_mul_spec(p1.c, u2.mu), g1_mul_spec(p2.c, u1.mu))),
        t: Seq::new(
            u1.a.len(),
            |i: int| fneg(fadd(fmul(u2.mu, u1.a[i]), fmul(u1.mu, u2.a[i]))),
        ),
        kappa: fneg(fmul(fmul(2, u1.mu), u2.mu)),
    }
}

/// The cross terms against the zero pair: T' = 1, R = 0, ⃗t = 0, κ = 0.
pub open spec fn zero_cross_terms_spec(len: nat) -> CrossTermsModel {
    CrossTermsModel { t_prime: gt_one(), r: g1_identity(), t: zeros(len), kappa: 0 }
}

/// −2·μ₁·μ₂ does not depend on the order of the factors.
proof fn lemma_kappa_symmetric(m1: nat, m2: nat)
    ensures
        fneg(fmul(fmul(2, m1), m2)) == fneg(fmul(fmul(2, m2), m1)),
{
    let m = fr_modulus() as int;
    lemma_mul_mod_noop_left(2 * m1 as int, m2 as int, m);
    lemma_mul_mod_noop_left(2 * m2 as int, m1 as int, m);
    assert((2 * m1) * m2 == (2 * m2) * m1) by (nonlinear_arith);
}

/// The lengths under which two instances fold.
pub open spec fn fold_lengths_ok(
    u1: RelaxedInstanceModel,
    u2: RelaxedInstanceModel,
    ct: CrossTermsModel,
) -> bool {
    &&& u2.a.len() == u1.a.len()
    &&& ct.t.len() == u1.a.len()
}

/// The folded instance.
pub open spec fn fold_instance_spec(
    u1: RelaxedInstanceModel,
    u2: RelaxedInstanceModel,
    ct: CrossTermsModel,
    r: nat,
) -> RelaxedInstanceModel {
    let r2 = fmul(r, r);
    RelaxedInstanceModel {
        a: Seq::new(u1.a.len(), |i: int| fadd(u1.a[i], fmul(r, u2.a[i]))),
        mu: fadd(u1.mu, fmul(r, u2.mu)),
        error: gt_mul_spec(gt_mul_spec(u1.error, gt_pow_spec(ct.t_prime, r)), gt_pow_spec(u2.error, r2)),
        r: g1_add_spec(g1_add_spec(u1.r, g1_mul_spec(ct.r, r)), g1_mul_spec(u2.r, r2)),
        t: Seq::new(u1.a.len(), |i: int| fadd(fadd(u1.t[i], fmul(r, ct.t[i])), fmul(r2, u2.t[i]))),
        kappa: fadd(fadd(u1.kappa, fmul(r, ct.kappa)), fmul(r2, u2.kappa)),
    }
}

/// The folded proof.
pub open spec fn fold_proof_spec(p1: ProofModel, p2: ProofModel, r: nat) -> ProofModel {
    ProofModel {
        a: g1_add_spec(p1.a, g1_mul_spec(p2.a, r)),
        b: g2_add_spec(p1.b, g2_mul_spec(p2.b, r)),
        c: g1_add_spec(p1.c, g1_mul_spec(p2.c, r)),
    }
}

/// Domain separation tag of the Fiat–Shamir transcript: the bytes of "snarkfold-groth16-fold-v1".
pub open spec fn fold_domain_tag() -> Seq<u8> {
    seq![
        0x73u8, 0x6e, 0x61, 0x72, 0x6b, 0x66, 0x6f, 0x6c, 0x64, 0x2d, 0x67, 0x72, 0x6f, 0x74, 0x68,
        0x31, 0x36, 0x2d, 0x66, 0x6f, 0x6c, 0x64, 0x2d, 0x76, 0x31,
    ]
}

/// The transcript that the challenge hashes.
pub open spec fn challenge_bytes(
    u1: RelaxedInstanceModel,
    u2: RelaxedInstanceModel,
    ct: CrossTermsModel,
) -> Seq<u8> {
    fold_domain_tag() + instance_bytes(u1) + instance_bytes(u2) + cross_terms_bytes(ct)
}

/// Fiat–Shamir challenge r = Hash(u₁, u₂, T).
pub open spec fn challenge_spec(
    u1: RelaxedInstanceModel,
    u2: RelaxedInstanceModel,
    ct: CrossTermsModel,
) -> nat {
    hash_to_field(challenge_bytes(u1, u2, ct))
}

/// The negation of the residue of `x` is the residue that adds to `x` to give 0.
proof fn lemma_neg_residue(x: int)
    ensures
        fneg((x % (fr_modulus() as int)) as nat) < fr_modulus(),
        (fneg((x % (fr_modulus() as int)) as nat) + x) % (fr_modulus() as int) == 0,
{
    let m = fr_modulus() as int;
    lemma_mod_bound(x, m);
    let w = x % m;
    lemma_mod_bound(-w, m);
    let a = (-w) % m;
    lemma_add_mod_noop_right(a, x, m);
    lemma_add_mod_noop(-w, w, m);
    lemma_small_mod(w as nat, m as nat);
    lemma_small_mod(0, m as nat);
}

/// The sum of two products, each reduced, is the reduced sum of the products.
proof fn lemma_fadd_fmul(a: nat, b: nat, c: nat, d: nat)
    ensures
        fadd(fmul(a, b), fmul(c, d)) == (a * b + c * d) % fr_modulus(),
{
    lemma_add_mod_noop((a * b) as int, (c * d) as int, fr_modulus() as int);
}

/// Law: the scalar cross terms are the negated mixed products of the two pairs, whatever their
/// κ, ⃗t or points: κ is the residue with κ + 2·μ₁·μ₂ ≡ 0, and each tᵢ the residue with
/// tᵢ + μ₂·a₁ᵢ + μ₁·a₂ᵢ ≡ 0 (mod the field order).
pub proof fn lemma_cross_terms_scalars(
    p1: ProofModel,
    u1: RelaxedInstanceModel,
    p2: ProofModel,
    u2: RelaxedInstanceModel,
)
    ensures
        ({
            let ct = cross_terms_spec(p1, u1, p2, u2);
            &&& ct.kappa < fr_modulus()
            &&& (ct.kappa + 2 * u1.mu * u2.mu) % fr_modulus() == 0
            &&& ct.t.len() == u1.a.len()
            &&& forall|i: int|
                0 <= i < u1.a.len() ==> #[trigger] ct.t[i] < fr_modulus() && (ct.t[i] + u2.mu * u1.a[i]
                    + u1.mu * u2.a[i]) % fr_modulus() == 0
        }),
{
    let ct = cross_terms_spec(p1, u1, p2, u2);
    let m = fr_modulus() as int;
    let k = (2 * u1.mu * u2.mu) as int;
    lemma_mul_mod_noop_left((2 * u1.mu) as int, u2.mu as int, m);
    lemma_mod_bound(k, m);
    assert(fmul(fmul(2, u1.mu), u2.mu) as int == k % m);
    lemma_neg_residue(k);
    assert forall|i: int| 0 <= i < u1.a.len() implies #[trigger] ct.t[i] < fr_modulus() && (ct.t[i]
        + u2.mu * u1.a[i] + u1.mu * u2.a[i]) % fr_modulus() == 0 by {
        let x = (u2.mu * u1.a[i] + u1.mu * u2.a[i]) as int;
        lemma_fadd_fmul(u2.mu, u1.a[i], u1.mu, u2.a[i]);
        lemma_mod_bound(x, m);
        lemma_neg_residue(x);
    }
}

/// `x + r·y`, reduced.
proof fn lemma_fold2(x: nat, y: nat, r: nat)
    ensures
        fadd(x, fmul(r, y)) == (x + r * y) % fr_modulus(),
{
    lemma_add_mod_noop_right(x as int, (r * y) as int, fr_modulus() as int);
}

/// `x + r·c + r²·y`, reduced.
proof fn lemma_fold3(x: nat, c: nat, y: nat, r: nat)
    ensures
        fadd(fadd(x, fmul(r, c)), fmul(fmul(r, r), y)) == (x + r * c + r * r * y) % fr_modulus(),
{
    let m = fr_modulus() as int;
    lemma_fold2(x, c, r);
    lemma_mul_mod_noop_left((r * r) as int, y as int, m);
    lemma_add_mod_noop((x + r * c) as int, (r * r * y) as int, m);
}

/// Law: folding combines the scalars of the two instances linearly, with coefficient 1 on the
/// first: μ* = μ₁ + r·μ₂, aᵢ* = a₁ᵢ + r·a₂ᵢ, tᵢ* = t₁ᵢ + r·tᵢ + r²·t₂ᵢ and κ* = κ₁ + r·κ + r²·κ₂,
/// each reduced modulo the field order.
pub proof fn lemma_fold_scalars(
    u1: RelaxedInstanceModel,
    u2: RelaxedInstanceModel,
    ct: CrossTermsModel,
    r: nat,
)
    ensures
        ({
            let u = fold_instance_spec(u1, u2, ct, r);
            let m = fr_modulus();
            &&& u.mu == (u1.mu + r * u2.mu) % m
            &&& u.kappa == (u1.kappa + r * ct.kappa + r * r * u2.kappa) % m
            &&& u.a.len() == u1.a.len()
            &&& u.t.len() == u1.a.len()
            &&& forall|i: int| 0 <= i < u1.a.len() ==> #[trigger] u.a[i] == (u1.a[i] + r * u2.a[i]) % m
            &&& forall|i: int|
                0 <= i < u1.a.len() ==> #[trigger] u.t[i] == (u1.t[i] + r * ct.t[i] + r * r * u2.t[i])
                    % m
        }),
{
    let u = fold_instance_spec(u1, u2, ct, r);
    lemma_fold2(u1.mu, u2.mu, r);
    lemma_fold3(u1.kappa, ct.kappa, u2.kappa, r);
    assert forall|i: int| 0 <= i < u1.a.len() implies #[trigger] u.a[i] == (u1.a[i] + r * u2.a[i])
        % fr_modulus() by {
        lemma_fold2(u1.a[i], u2.a[i], r);
    }
    assert forall|i: int| 0 <= i < u1.a.len() implies #[trigger] u.t[i] == (u1.t[i] + r * ct.t[i] + r
        * r * u2.t[i]) % fr_modulus() by {
        lemma_fold3(u1.t[i], ct.t[i], u2.t[i], r);
    }
}

/// Law: the challenge transcript determines both instances and the cross terms: two transcripts
/// that are equal come from equal (u₁, u₂, T). So the challenge is a hash of all three, and of
/// the cross terms in particular.
pub proof fn lemma_challenge_transcript_binds_inputs(
    u1: RelaxedInstanceModel,
    u2: RelaxedInstanceModel,
    ct: CrossTermsModel,
    v1: RelaxedInstanceModel,
    v2: RelaxedInstanceModel,
    dt: CrossTermsModel,
)
    requires
        instance_ok(u1),
        instance_ok(u2),
        cross_terms_ok(ct),
        instance_ok(v1),
        instance_ok(v2),
        cross_terms_ok(dt),
        challenge_bytes(u1, u2, ct) == challenge_bytes(v1, v2, dt),
    ensures
        u1 == v1,
        u2 == v2,
        ct == dt,
{
    let s = challenge_bytes(u1, u2, ct);
    let tag = fold_domain_tag();
    let (a1, a2, c) = (instance_bytes(u1), instance_bytes(u2), cross_terms_bytes(ct));
    let (b1, b2, d) = (instance_bytes(v1), instance_bytes(v2), cross_terms_bytes(dt));
    assert(chunk(s, 0, (tag + a1 + a2 + c).len()) =~= tag + a1 + a2 + c);
    lemma_chunk_split(s, 0, tag + a1 + a2, c);
    lemma_chunk_split(s, 0, tag + a1, a2);
    lemma_chunk_split(s, 0, tag, a1);
    assert(chunk(s, 0, (tag + b1 + b2 + d).len()) =~= tag + b1 + b2 + d);
    lemma_chunk_split(s, 0, tag + b1 + b2, d);
    lemma_chunk_split(s, 0, tag + b1, b2);
    lemma_chunk_split(s, 0, tag, b1);
    lemma_parse_instance_at(s, tag.len(), u1);
    lemma_parse_instance_at(s, tag.len(), v1);
    lemma_parse_instance_at(s, tag.len() + a1.len(), u2);
    lemma_parse_instance_at(s, tag.len() + b1.len(), v2);
    lemma_parse_cross_terms_at(s, tag.len() + a1.len() + a2.len(), ct);
    lemma_parse_cross_terms_at(s, tag.len() + b1.len() + b2.len(), dt);
}

/// Σ scalars[i]·bases[i] over the first `n` indices, accumulated from the identity.
pub open spec fn msm(bases: Seq<Seq<u8>>, scalars: Seq<nat>, n: nat) -> Seq<u8>
    decreases n,
{
    if n == 0 {
        g1_identity()
    } else {
        g1_add_spec(
            msm(bases, scalars, (n - 1) as nat),
            g1_mul_spec(bases[n - 1], scalars[n - 1]),
        )
    }
}

/// The augmented relaxed relation for given sums H = Σ aᵢ·Sᵢ and S = Σ tᵢ·Sᵢ, with everything
/// except E moved to the left:
/// e(A,B) · e(−μC − R, δ) · e(−μH − S, γ) · e(α,β)^(−μ² − κ) = E.
pub open spec fn relation_with_sums(
    p: ProofModel,
    u: RelaxedInstanceModel,
    vk: VerifyingKeyModel,
    h: Seq<u8>,
    s: Seq<u8>,
) -> bool {
    let neg_mu = fneg(u.mu);
    let lhs = multi_pairing_spec(
        seq![p.a, g1_sub_spec(g1_mul_spec(p.c, neg_mu), u.r), g1_sub_spec(g1_mul_spec(h, neg_mu), s)],
        seq![p.b, vk.delta, vk.gamma],
    );
    let d = pairing_spec(vk.alpha, vk.beta);
    let exp = fsub(fneg(fmul(u.mu, u.mu)), u.kappa);
    gt_mul_spec(lhs, gt_pow_spec(d, exp)) == u.error
}

/// The augmented relaxed relation, the sums taken over the key's bases Sᵢ.
pub open spec fn relaxed_relation(
    p: ProofModel,
    u: RelaxedInstanceModel,
    vk: VerifyingKeyModel,
) -> bool {
    let n = vk.abc.len();
    relation_with_sums(p, u, vk, msm(vk.abc, u.a, n), msm(vk.abc, u.t, n))
}

/// `len` scalars, `v` at index `k` and 0 elsewhere.
pub open spec fn unit_scalars(len: nat, k: int, v: nat) -> Seq<nat> {
    Seq::new(len, |i: int| if i == k { v } else { 0nat })
}

/// Σ scalars[i]·bases[i] over the first `n` indices, where only index `k` may be nonzero, is
/// v·bases[k] once `k` is among them and the identity before.
proof fn lemma_msm_unit(bases: Seq<Seq<u8>>, len: nat, k: int, v: nat, n: nat)
    requires
        g1_identity_laws(),
        n <= bases.len(),
        n <= len,
        forall|i: int| 0 <= i < bases.len() ==> g1_decode(#[trigger] bases[i]) == Some(bases[i]),
    ensures
        msm(bases, unit_scalars(len, k, v), n) == if 0 <= k < n {
            g1_mul_spec(bases[k], v)
        } else {
            g1_identity()
        },
    decreases n,
{
    if n > 0 {
        let j = (n - 1) as int;
        lemma_msm_unit(bases, len, k, v, (n - 1) as nat);
        let prev = msm(bases, unit_scalars(len, k, v), (n - 1) as nat);
        assert(g1_decode(bases[j]) == Some(bases[j]));
        if j == k {
            assert(g1_decode(g1_mul_spec(bases[j], v)) == Some(g1_mul_spec(bases[j], v)));
            assert(g1_add_spec(g1_identity(), g1_mul_spec(bases[j], v)) == g1_mul_spec(bases[j], v));
        } else {
            assert(unit_scalars(len, k, v)[j] == 0);
            assert(g1_mul_spec(bases[j], 0) == g1_identity());
            if 0 <= k < j {
                assert(g1_decode(g1_mul_spec(bases[k], v)) == Some(g1_mul_spec(bases[k], v)));
            }
            assert(g1_decode(prev) == Some(prev));
            assert(g1_add_spec(prev, g1_identity()) == prev);
        }
    }
}

/// Law: the relation sums over every base of the key: for an instance whose ⃗a is `v` at any
/// index `k` below the key's length and 0 elsewhere (and ⃗t = 0), H is v·S_k and S is the
/// identity, given the identity laws of G1.
pub proof fn lemma_relation_sums_every_base(
    p: ProofModel,
    u: RelaxedInstanceModel,
    vk: VerifyingKeyModel,
    k: int,
    v: nat,
)
    requires
        g1_identity_laws(),
        forall|i: int| 0 <= i < vk.abc.len() ==> g1_decode(#[trigger] vk.abc[i]) == Some(vk.abc[i]),
        0 <= k < vk.abc.len(),
        u.a == unit_scalars(vk.abc.len(), k, v),
        u.t == zeros(vk.abc.len()),
    ensures
        relaxed_relation(p, u, vk) == relation_with_sums(
            p,
            u,
            vk,
            g1_mul_spec(vk.abc[k], v),
            g1_identity(),
        ),
{
    let n = vk.abc.len();
    lemma_msm_unit(vk.abc, n, k, v, n);
    lemma_msm_unit(vk.abc, n, n as int, 0, n);
    assert(unit_scalars(n, n as int, 0) =~= zeros(n));
}

/// Law: folding a proof with the zero proof gives the proof back, whatever the challenge: the
/// first proof enters with coefficient 1, given the identity laws of G1 and G2.
pub proof fn lemma_fold_proof_against_zero(p1: ProofModel, r: nat)
    requires
        g1_identity_laws(),
        g2_identity_laws(),
        g1_decode(p1.a) == Some(p1.a),
        g2_decode(p1.b) == Some(p1.b),
        g1_decode(p1.c) == Some(p1.c),
    ensures
        fold_proof_spec(p1, zero_proof_spec(), r) == p1,
{
    assert(g1_add_spec(p1.a, g1_identity()) == p1.a);
    assert(g2_add_spec(p1.b, g2_identity()) == p1.b);
    assert(g1_add_spec(p1.c, g1_identity()) == p1.c);
}

/// Law: the zero pair (the accumulator start) satisfies the relation for every key, given the
/// identity laws of G1, GT and the pairing.
pub proof fn lemma_zero_pair_satisfies(vk: VerifyingKeyModel)
    requires
        g1_identity_laws(),
        gt_identity_laws(),
        pairing_identity_laws(),
        forall|i: int| 0 <= i < vk.abc.len() ==> g1_decode(#[trigger] vk.abc[i]) == Some(vk.abc[i]),
    ensures
        relaxed_relation(zero_proof_spec(), zero_instance_spec(vk.abc.len()), vk),
{
    let n = vk.abc.len();
    lemma_msm_unit(vk.abc, n, n as int, 0, n);
    assert(unit_scalars(n, n as int, 0) =~= zeros(n));
    lemma_small_mod(0, fr_modulus());
    assert(0nat * 0nat == 0nat);
    assert(fmul(0, 0) == 0);
    assert(fneg(0) == 0);
    assert(fsub(0, 0) == 0);
    assert(g1_mul_spec(g1_identity(), 0) == g1_identity());
    assert(g1_sub_spec(g1_identity(), g1_identity()) == g1_identity());
    assert(seq![g1_identity(), g1_identity(), g1_identity()] =~= g1_identity_triple());
    lemma_gt_one_valid();
    let lhs = multi_pairing_spec(
        seq![g1_identity(), g1_sub_spec(g1_mul_spec(g1_identity(), fneg(0)), g1_identity()),
            g1_sub_spec(g1_mul_spec(g1_identity(), fneg(0)), g1_identity())],
        seq![g2_identity(), vk.delta, vk.gamma],
    );
    assert(lhs == gt_one());
    let d = pairing_spec(vk.alpha, vk.beta);
    assert(gt_pow_spec(d, 0) == gt_one());
    assert(gt_mul_spec(gt_one(), gt_one()) == gt_one());
}

/// Law: folding an instance against the zero instance with the zero cross terms gives the
/// instance back, whatever the challenge: the first instance enters with coefficient 1 in every
/// part (E, R, ⃗a, ⃗t, μ, κ), given the identity laws of G1 and GT.
pub proof fn lemma_fold_against_zero(u1: RelaxedInstanceModel, r: nat)
    requires
        g1_identity_laws(),
        gt_identity_laws(),
        instance_ok(u1),
        u1.t.len() == u1.a.len(),
    ensures
        fold_instance_spec(
            u1,
            zero_instance_spec(u1.a.len()),
            zero_cross_terms_spec(u1.a.len()),
            r,
        ) == u1,
{
    let n = u1.a.len();
    let u = fold_instance_spec(u1, zero_instance_spec(n), zero_cross_terms_spec(n), r);
    lemma_fold_scalars(u1, zero_instance_spec(n), zero_cross_terms_spec(n), r);
    lemma_small_mod(u1.mu, fr_modulus());
    lemma_small_mod(u1.kappa, fr_modulus());
    assert forall|i: int| 0 <= i < n implies u.a[i] == u1.a[i] by {
        assert(u1.a[i] < fr_modulus());
        lemma_small_mod(u1.a[i], fr_modulus());
    }
    assert forall|i: int| 0 <= i < n implies u.t[i] == u1.t[i] by {
        assert(u1.t[i] < fr_modulus());
        lemma_small_mod(u1.t[i], fr_modulus());
    }
    assert(u.a =~= u1.a);
    assert(u.t =~= u1.t);
    assert(g1_add_spec(u1.r, g1_identity()) == u1.r);
    assert(gt_mul_spec(u1.error, gt_one()) == u1.error);
}

fn length_error() -> (e: SnarkFoldError)
    ensures
        is_length_error(e),
{
    SnarkFoldError::FoldingError(String::from_str("Instance vectors must have same length"))
}

pub struct AugmentedGroth16Folder;

impl AugmentedGroth16Folder {
    /// Cross terms (Equation 3). They do not depend on the order of the two pairs, and against
    /// the zero pair (the accumulator start) they are the zero cross terms.
    pub fn compute_cross_terms(
        proof1: &AugmentedRelaxedProof,
        inst1: &AugmentedRelaxedInstance,
        proof2: &AugmentedRelaxedProof,
        inst2: &AugmentedRelaxedInstance,
    ) -> (res: SnarkFoldResult<CrossTerms>)
        ensures
            res is Ok <==> cross_lengths_ok(inst1@, inst2@),
            res matches Err(e) ==> is_length_error(e),
            res matches Ok(ct) ==> ct@ == cross_terms_spec(proof1@, inst1@, proof2@, inst2@),
            res matches Ok(ct) ==> ct@ == cross_terms_spec(proof2@, inst2@, proof1@, inst1@),
            proof2@ == zero_proof_spec() && inst2@ == zero_instance_spec(inst1@.a.len())
                && inst1@.t.len() == inst1@.a.len() ==> (res matches Ok(ct) && ct@
                == zero_cross_terms_spec(inst1@.a.len())),
    {
        let len = inst1.a_vec.len();
        let ghost u1 = inst1@;
        let ghost u2 = inst2@;
        assert(u1.a.len() == inst1.a_vec@.len() && u1.t.len() == inst1.t_vec@.len());
        assert(u2.a.len() == inst2.a_vec@.len() && u2.t.len() == inst2.t_vec@.len());
        if len != inst2.a_vec.len() || inst1.t_vec.len() != len || inst2.t_vec.len() != len {
            return Err(length_error());
        }
        let ghost zero_pair = proof2@ == zero_proof_spec() && u2 == zero_instance_spec(u1.a.len());

        // T' = e(A1, B2) · e(A2, B1)
        let e12 = pairing(&proof1.a, &proof2.b);
        let e21 = pairing(&proof2.a, &proof1.b);
        let t_prime = e12.mul(&e21);

        // R = −(μ2·C1 + μ1·C2)
        let c1 = proof1.c.mul(&inst2.mu);
        let c2 = proof2.c.mul(&inst1.mu);
        let r = c1.add(&c2).neg();

        // ⃗t = −(μ2·⃗a1 + μ1·⃗a2)
        let mut t_vec: Vec<FieldElement> = Vec::new();
        let mut i: usize = 0;
        while i < len
            invariant
                i <= len,
                len == inst1.a_vec.len(),
                len == inst2.a_vec.len(),
                u1 == inst1@,
                u2 == inst2@,
                zero_pair == (proof2@ == zero_proof_spec() && u2 == zero_instance_spec(u1.a.len())),
                t_vec@.len() == i,
                forall|j: int|
                    0 <= j < i ==> t_vec@[j]@ == fneg(
                        fadd(fmul(u2.mu, u1.a[j]), fmul(u1.mu, u2.a[j])),
                    ),
                zero_pair ==> forall|j: int| 0 <= j < i ==> t_vec@[j]@ == 0,
            decreases len - i,
        {
            proof {
                if zero_pair {
                    assert(u2.a[i as int] == 0);
                }
            }
            let x = inst2.mu.mul(&inst1.a_vec[i]).add(&inst1.mu.mul(&inst2.a_vec[i])).neg();
            t_vec.push(x);
            i = i + 1;
        }

        // κ = −2·μ1·μ2
        let kappa = FieldElement::from_u64(2).mul(&inst1.mu).mul(&inst2.mu).neg();

        let ct = CrossTerms { t_prime, r, t_vec, kappa };
        assert(ct@.t =~= cross_terms_spec(proof1@, u1, proof2@, u2).t);
        proof {
            assert(ct@.t =~= cross_terms_spec(proof2@, u2, proof1@, u1).t);
            lemma_kappa_symmetric(u1.mu, u2.mu);
            if zero_pair {
                assert(ct@.t =~= zeros(len as nat));
            }
        }
        Ok(ct)
    }

    /// Fold the two instances (what both prover and verifier compute).
    pub fn fold_instances(
        inst1: &AugmentedRelaxedInstance,
        inst2: &AugmentedRelaxedInstance,
        cross_terms: &CrossTerms,
        r: FieldElement,
    ) -> (res: SnarkFoldResult<AugmentedRelaxedInstance>)
        requires
            fold_lengths_ok(inst1@, inst2@, cross_terms@) ==> inst1@.t.len() >= inst1@.a.len()
                && inst2@.t.len() >= inst1@.a.len(),
        ensures
            res is Ok <==> fold_lengths_ok(inst1@, inst2@, cross_terms@),
            res matches Err(e) ==> is_length_error(e),
            res matches Ok(u) ==> u@ == fold_instance_spec(inst1@, inst2@, cross_terms@, r@),
            r@ == 0 && inst1@.t.len() == inst1@.a.len() ==> (res matches Ok(u) ==> u@ == inst1@),
            inst2@ == zero_instance_spec(inst1@.a.len()) && cross_terms@ == zero_cross_terms_spec(
                inst1@.a.len(),
            ) && inst1@.t.len() == inst1@.a.len() ==> (res matches Ok(u) && u@ == inst1@),
    {
        let len = inst1.a_vec.len();
        if len != inst2.a_vec.len() || cross_terms.t_vec.len() != len {
            return Err(length_error());
        }
        let ghost u1 = inst1@;
        let ghost u2 = inst2@;
        let ghost ct = cross_terms@;
        let r2 = r.mul(&r);

        let mut a_vec: Vec<FieldElement> = Vec::new();
        let mut i: usize = 0;
        while i < len
            invariant
                i <= len,
                len == inst1.a_vec.len(),
                len == inst2.a_vec.len(),
                u1 == inst1@,
                u2 == inst2@,
                a_vec@.len() == i,
                forall|j: int| 0 <= j < i ==> a_vec@[j]@ == fadd(u1.a[j], fmul(r@, u2.a[j])),
                r@ == 0 ==> forall|j: int| 0 <= j < i ==> a_vec@[j]@ == u1.a[j],
                u2 == zero_instance_spec(u1.a.len()) ==> forall|j: int|
                    0 <= j < i ==> a_vec@[j]@ == u1.a[j],
            decreases len - i,
        {
            proof {
                if u2 == zero_instance_spec(u1.a.len()) {
                    assert(inst2.a_vec@[i as int]@ == u2.a[i as int]);
                    assert(u1.a[i as int] == inst1.a_vec@[i as int]@);
                }
            }
            let x = inst1.a_vec[i].add(&r.mul(&inst2.a_vec[i]));
            a_vec.push(x);
            i = i + 1;
        }

        let mu = inst1.mu.add(&r.mul(&inst2.mu));
        let error = inst1.error.mul(&cross_terms.t_prime.pow(&r)).mul(&inst2.error.pow(&r2));
        let r_acc = inst1.r.add(&cross_terms.r.mul(&r)).add(&inst2.r.mul(&r2));

        let mut t_vec: Vec<FieldElement> = Vec::new();
        let mut i: usize = 0;
        while i < len
            invariant
                i <= len,
                len == inst1.a_vec.len(),
                len == cross_terms.t_vec.len(),
                len <= inst1.t_vec.len(),
                len <= inst2.t_vec.len(),
                u1 == inst1@,
                u2 == inst2@,
                ct == cross_terms@,
                r2@ == fmul(r@, r@),
                r@ == 0 ==> r2@ == 0,
                r@ == 0 ==> forall|j: int| 0 <= j < i ==> t_vec@[j]@ == u1.t[j],
                u2 == zero_instance_spec(u1.a.len()) && ct == zero_cross_terms_spec(u1.a.len())
                    ==> forall|j: int| 0 <= j < i ==> t_vec@[j]@ == u1.t[j],
                t_vec@.len() == i,
                forall|j: int|
                    0 <= j < i ==> t_vec@[j]@ == fadd(
                        fadd(u1.t[j], fmul(r@, ct.t[j])),
                        fmul(r2@, u2.t[j]),
                    ),
            decreases len - i,
        {
            proof {
                if u2 == zero_instance_spec(u1.a.len()) && ct == zero_cross_terms_spec(u1.a.len()) {
                    assert(inst2.t_vec@[i as int]@ == u2.t[i as int]);
                    assert(cross_terms.t_vec@[i as int]@ == ct.t[i as int]);
                    assert(u1.t[i as int] == inst1.t_vec@[i as int]@);
                }
            }
            let x = inst1.t_vec[i].add(&r.mul(&cross_terms.t_vec[i])).add(&r2.mul(&inst2.t_vec[i]));
            t_vec.push(x);
            i = i + 1;
        }

        let kappa = inst1.kappa.add(&r.mul(&cross_terms.kappa)).add(&r2.mul(&inst2.kappa));

        let u = AugmentedRelaxedInstance { a_vec, mu, error, r: r_acc, t_vec, kappa };
        assert(u@.a =~= fold_instance_spec(u1, u2, ct, r@).a);
        assert(u@.t =~= fold_instance_spec(u1, u2, ct, r@).t);
        proof {
            if r@ == 0 && u1.t.len() == u1.a.len() {
                assert(u@.a =~= u1.a);
                assert(u@.t =~= u1.t);
            }
            if u2 == zero_instance_spec(u1.a.len()) && ct == zero_cross_terms_spec(u1.a.len())
                && u1.t.len() == u1.a.len() {
                assert(u@.a =~= u1.a);
                assert(u@.t =~= u1.t);
            }
        }
        Ok(u)
    }

    /// Fold the two proofs (prover only).
    pub fn fold_proofs(
        proof1: &AugmentedRelaxedProof,
        proof2: &AugmentedRelaxedProof,
        r: FieldElement,
    ) -> (res: AugmentedRelaxedProof)
        ensures
            res@ == fold_proof_spec(proof1@, proof2@, r@),
    {
        AugmentedRelaxedProof {
            a: proof1.a.add(&proof2.a.mul(&r)),
            b: proof1.b.add(&proof2.b.mul(&r)),
            c: proof1.c.add(&proof2.c.mul(&r)),
        }
    }

    /// Prover's folding: instances and proofs.
    pub fn fold_prover(
        proof1: &AugmentedRelaxedProof,
        inst1: &AugmentedRelaxedInstance,
        proof2: &AugmentedRelaxedProof,
        inst2: &AugmentedRelaxedInstance,
        cross_terms: &CrossTerms,
        challenge: FieldElement,
    ) -> (res: SnarkFoldResult<(AugmentedRelaxedInstance, AugmentedRelaxedProof)>)
        requires
            fold_lengths_ok(inst1@, inst2@, cross_terms@) ==> inst1@.t.len() >= inst1@.a.len()
                && inst2@.t.len() >= inst1@.a.len(),
        ensures
            res is Ok <==> fold_lengths_ok(inst1@, inst2@, cross_terms@),
            res matches Err(e) ==> is_length_error(e),
            res matches Ok(pair) ==> pair.0@ == fold_instance_spec(
                inst1@,
                inst2@,
                cross_terms@,
                challenge@,
            ) && pair.1@ == fold_proof_spec(proof1@, proof2@, challenge@),
    {
        let inst = Self::fold_instances(inst1, inst2, cross_terms, challenge)?;
        Ok((inst, Self::fold_proofs(proof1, proof2, challenge)))
    }

    /// Verifier's folding (instances only).
    pub fn fold_verifier(
        inst1: &AugmentedRelaxedInstance,
        inst2: &AugmentedRelaxedInstance,
        cross_terms: &CrossTerms,
        challenge: FieldElement,
    ) -> (res: SnarkFoldResult<AugmentedRelaxedInstance>)
        requires
            fold_lengths_ok(inst1@, inst2@, cross_terms@) ==> inst1@.t.len() >= inst1@.a.len()
                && inst2@.t.len() >= inst1@.a.len(),
        ensures
            res is Ok <==> fold_lengths_ok(inst1@, inst2@, cross_terms@),
            res matches Err(e) ==> is_length_error(e),
            res matches Ok(u) ==> u@ == fold_instance_spec(inst1@, inst2@, cross_terms@, challenge@),
    {
        Self::fold_instances(inst1, inst2, cross_terms, challenge)
    }

    /// Fiat–Shamir challenge r = Hash(inst1, inst2, T).
    pub fn generate_challenge(
        inst1: &AugmentedRelaxedInstance,
        inst2: &AugmentedRelaxedInstance,
        cross_terms: &CrossTerms,
    ) -> (res: SnarkFoldResult<FieldElement>)
        ensures
            res matches Ok(r) && r@ == challenge_spec(inst1@, inst2@, cross_terms@),
    {
        let mut data: Vec<u8> = Vec::new();
        let tag: [u8; 25] = [
            0x73, 0x6e, 0x61, 0x72, 0x6b, 0x66, 0x6f, 0x6c, 0x64, 0x2d, 0x67, 0x72, 0x6f, 0x74,
            0x68, 0x31, 0x36, 0x2d, 0x66, 0x6f, 0x6c, 0x64, 0x2d, 0x76, 0x31,
        ];
        push_bytes(&mut data, &tag);
        assert(tag@ =~= fold_domain_tag());
        inst1.serialize_compressed(&mut data);
        inst2.serialize_compressed(&mut data);
        cross_terms.serialize_compressed(&mut data);
        assert(data@ =~= challenge_bytes(inst1@, inst2@, cross_terms@));
        Ok(digest_to_field(data.as_slice()))
    }
}

/// Check the augmented relaxed relation for (u, π) against `vk` (3 pairings + 1 GT exponentiation).
pub fn verify_relaxed(
    proof: &AugmentedRelaxedProof,
    inst: &AugmentedRelaxedInstance,
    vk: &GrothVerifyingKey,
) -> (res: SnarkFoldResult<bool>)
    ensures
        res is Ok <==> (inst@.a.len() == vk@.abc.len() && inst@.t.len() == vk@.abc.len()),
        res matches Err(e) ==> e is InvalidInstance,
        res matches Ok(b) ==> b == relaxed_relation(proof@, inst@, vk@),
        proof@ == zero_proof_spec() && inst@ == zero_instance_spec(vk@.abc.len()) ==> res == Ok::<
            bool,
            SnarkFoldError,
        >(true),
{
    vk.check_instance(inst)?;

    // H = Σ aᵢ·Sᵢ,  S = Σ tᵢ·Sᵢ
    let n = vk.gamma_abc_g1.len();
    let mut h = G1::zero();
    let mut s = G1::zero();
    let mut i: usize = 0;
    while i < n
        invariant
            i <= n,
            n == vk@.abc.len(),
            inst@.a.len() == n,
            inst@.t.len() == n,
            h@ == msm(vk@.abc, inst@.a, i as nat),
            s@ == msm(vk@.abc, inst@.t, i as nat),
            (forall|j: int| 0 <= j < n ==> inst@.t[j] == 0) ==> s@ == g1_identity(),
        decreases n - i,
    {
        let base = &vk.gamma_abc_g1[i];
        h = h.add(&base.mul(&inst.a_vec[i]));
        s = s.add(&base.mul(&inst.t_vec[i]));
        i = i + 1;
    }

    // e(A,B) · e(−μC − R, δ) · e(−μH − S, γ) · e(α,β)^(−μ² − κ) = E
    let neg_mu = inst.mu.neg();
    let p1 = proof.c.mul(&neg_mu).sub(&inst.r);
    let p2 = h.mul(&neg_mu).sub(&s);
    let lhs = multi_pairing3(&proof.a, &p1, &p2, &proof.b, &vk.delta_g2, &vk.gamma_g2);
    let d = pairing(&vk.alpha_g1, &vk.beta_g2);
    let exp = inst.mu.mul(&inst.mu).neg().sub(&inst.kappa);
    let rhs = lhs.mul(&d.pow(&exp));
    proof {
        if proof@ == zero_proof_spec() && inst@ == zero_instance_spec(vk@.abc.len()) {
            assert(neg_mu@ == 0);
            lemma_small_mod(0, fr_modulus());
            assert(0nat % fr_modulus() == 0);
            assert(0nat * 0nat == 0nat);
            assert(fmul(0, 0) == 0);
            assert(fneg(0) == 0);
            assert(fsub(0, 0) == 0);
            assert(exp@ == 0);
            assert(rhs@ == gt_one());
        }
    }
    Ok(rhs.equals(&inst.error))
}

} // verus!
