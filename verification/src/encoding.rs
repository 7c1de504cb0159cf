//! Byte encodings of scalars and scalar vectors, as the canonical serialization writes them:
//! a scalar as its 32 little-endian bytes, a vector as its length (8 bytes, little-endian)
//! followed by its elements.
use vstd::prelude::*;
use vstd::arithmetic::div_mod::lemma_fundamental_div_mod;
use crate::curve::{g1_decode, g2_decode, gt_valid, G1, G2, GT};
use crate::field::{fe_bytes, fr_modulus, le_encode, le_nat, FieldElement};

verus! {

/// Eight little-endian bytes of a length.
pub open spec fn u64_le(v: nat) -> Seq<u8> {
    le_encode(v, 8)
}

/// The serializations of scalars, one after the other.
pub open spec fn fe_seq_bytes(xs: Seq<nat>) -> Seq<u8>
    decreases xs.len(),
{
    if xs.len() == 0 {
        Seq::empty()
    } else {
        fe_seq_bytes(xs.drop_last()) + fe_bytes(xs.last())
    }
}

/// The serialization of a vector of scalars: its length, then its elements.
pub open spec fn fe_vec_bytes(xs: Seq<nat>) -> Seq<u8> {
    u64_le(xs.len()) + fe_seq_bytes(xs)
}

/// Appends bytes.
pub fn push_bytes(out: &mut Vec<u8>, b: &[u8])
    ensures
        final(out)@ == old(out)@ + b@,
{
    let ghost start = out@;
    let mut i: usize = 0;
    while i < b.len()
        invariant
            i <= b.len(),
            out@ == start + b@.subrange(0, i as int),
        decreases b.len() - i,
    {
        out.push(b[i]);
        assert(b@.subrange(0, i + 1) =~= b@.subrange(0, i as int).push(b@[i as int]));
        i = i + 1;
    }
    assert(b@.subrange(0, b.len() as int) =~= b@);
}

/// Appends a length as eight little-endian bytes.
pub fn push_u64_le(out: &mut Vec<u8>, v: u64)
    ensures
        final(out)@ == old(out)@ + u64_le(v as nat),
{
    let ghost start = out@;
    let mut x: u64 = v;
    let mut i: usize = 0;
    while i < 8
        invariant
            i <= 8,
            start + u64_le(v as nat) == out@ + le_encode(x as nat, (8 - i) as nat),
        decreases 8 - i,
    {
        let ghost before = out@;
        out.push((x % 256) as u8);
        assert(le_encode(x as nat, (8 - i) as nat) == seq![(x as nat % 256) as u8] + le_encode(
            (x / 256) as nat,
            (8 - i - 1) as nat,
        ));
        assert(out@ + le_encode((x / 256) as nat, (8 - i - 1) as nat) =~= before + le_encode(
            x as nat,
            (8 - i) as nat,
        ));
        x = x / 256;
        i = i + 1;
    }
    assert(out@ + le_encode(x as nat, 0) =~= out@);
}

/// Appends the serialization of a scalar.
pub fn push_fe(out: &mut Vec<u8>, x: &FieldElement)
    ensures
        final(out)@ == old(out)@ + fe_bytes(x@),
        x@ < fr_modulus(),
{
    let b = x.to_bytes();
    push_bytes(out, &b);
}

/// Appends the serialization of a G1 point.
pub fn push_g1(out: &mut Vec<u8>, p: &G1)
    ensures
        final(out)@ == old(out)@ + p@,
        p@.len() == 32,
        g1_decode(p@) == Some(p@),
{
    push_bytes(out, &p.to_bytes());
}

/// Appends the serialization of a G2 point.
pub fn push_g2(out: &mut Vec<u8>, p: &G2)
    ensures
        final(out)@ == old(out)@ + p@,
        p@.len() == 64,
        g2_decode(p@) == Some(p@),
{
    push_bytes(out, &p.to_bytes());
}

/// Appends the serialization of a GT element.
pub fn push_gt(out: &mut Vec<u8>, g: &GT)
    ensures
        final(out)@ == old(out)@ + g@,
        gt_valid(g@),
{
    push_bytes(out, &g.to_bytes());
}

/// Appends the serializations of scalars, without a length.
pub fn push_fe_seq(out: &mut Vec<u8>, xs: &[FieldElement])
    ensures
        final(out)@ == old(out)@ + fe_seq_bytes(xs@.map_values(|x: FieldElement| x@)),
        fe_all_reduced(xs@.map_values(|x: FieldElement| x@)),
{
    let ghost start = out@;
    let ghost v = xs@.map_values(|x: FieldElement| x@);
    let mut i: usize = 0;
    while i < xs.len()
        invariant
            i <= xs.len(),
            v == xs@.map_values(|x: FieldElement| x@),
            out@ == start + fe_seq_bytes(v.subrange(0, i as int)),
            forall|j: int| 0 <= j < i ==> #[trigger] v[j] < fr_modulus(),
        decreases xs.len() - i,
    {
        push_fe(out, &xs[i]);
        assert(v.subrange(0, i + 1).drop_last() =~= v.subrange(0, i as int));
        assert(start + fe_seq_bytes(v.subrange(0, i + 1)) =~= start + fe_seq_bytes(
            v.subrange(0, i as int),
        ) + fe_bytes(xs@[i as int]@));
        i = i + 1;
    }
    assert(v.subrange(0, xs.len() as int) =~= v);
}

/// Appends the serialization of a vector of scalars.
pub fn push_fe_vec(out: &mut Vec<u8>, xs: &Vec<FieldElement>)
    ensures
        final(out)@ == old(out)@ + fe_vec_bytes(xs@.map_values(|x: FieldElement| x@)),
        fe_all_reduced(xs@.map_values(|x: FieldElement| x@)),
        xs@.len() <= usize::MAX,
{
    let ghost start = out@;
    push_u64_le(out, xs.len() as u64);
    push_fe_seq(out, xs.as_slice());
    assert(out@ =~= start + fe_vec_bytes(xs@.map_values(|x: FieldElement| x@)));
}

/// 256 to the power `n`.
pub open spec fn pow256(n: nat) -> nat
    decreases n,
{
    if n == 0 {
        1
    } else {
        256 * pow256((n - 1) as nat)
    }
}

/// `n` bytes of `s` from `pos` on.
pub open spec fn chunk(s: Seq<u8>, pos: nat, n: nat) -> Seq<u8> {
    s.subrange(pos as int, (pos + n) as int)
}

/// The value of `n` little-endian bytes is below 256ⁿ.
pub proof fn lemma_le_nat_bound(s: Seq<u8>)
    ensures
        le_nat(s) < pow256(s.len()),
    decreases s.len(),
{
    if s.len() > 0 {
        lemma_le_nat_bound(s.drop_first());
    }
}

/// Reading back `n` little-endian bytes of a value below 256ⁿ gives the value.
pub proof fn lemma_le_nat_le_encode(v: nat, n: nat)
    requires
        v < pow256(n),
    ensures
        le_encode(v, n).len() == n,
        le_nat(le_encode(v, n)) == v,
    decreases n,
{
    if n > 0 {
        lemma_fundamental_div_mod(v as int, 256);
        lemma_le_nat_le_encode(v / 256, (n - 1) as nat);
        assert(le_encode(v, n).drop_first() =~= le_encode(v / 256, (n - 1) as nat));
    }
}

/// The field order is below 256³², and 256⁸ is 2⁶⁴.
pub proof fn lemma_pow256_values()
    ensures
        fr_modulus() < pow256(32),
        pow256(8) == 0x1_0000_0000_0000_0000,
{
    reveal_with_fuel(pow256, 33);
}

/// The serialization of a scalar below the field order has 32 bytes and reads back as the scalar.
pub proof fn lemma_fe_bytes(v: nat)
    requires
        v < fr_modulus(),
    ensures
        fe_bytes(v).len() == 32,
        le_nat(fe_bytes(v)) == v,
{
    lemma_pow256_values();
    lemma_le_nat_le_encode(v, 32);
}

/// A length read as eight little-endian bytes.
pub open spec fn parse_u64_spec(s: Seq<u8>, pos: nat) -> Option<(nat, nat)> {
    if pos + 8 <= s.len() {
        Some((le_nat(chunk(s, pos, 8)), pos + 8))
    } else {
        None
    }
}

/// A vector length: eight little-endian bytes whose value fits a `usize`.
pub open spec fn parse_len_spec(s: Seq<u8>, pos: nat) -> Option<(nat, nat)> {
    match parse_u64_spec(s, pos) {
        Some((n, p)) => if n <= usize::MAX {
            Some((n, p))
        } else {
            None
        },
        None => None,
    }
}

/// A scalar: 32 little-endian bytes whose value is below the field order.
pub open spec fn parse_fe_spec(s: Seq<u8>, pos: nat) -> Option<(nat, nat)> {
    if pos + 32 <= s.len() && le_nat(chunk(s, pos, 32)) < fr_modulus() {
        Some((le_nat(chunk(s, pos, 32)), pos + 32))
    } else {
        None
    }
}

/// `n` scalars, one after the other.
pub open spec fn parse_fe_n(s: Seq<u8>, pos: nat, n: nat) -> Option<(Seq<nat>, nat)>
    decreases n,
{
    if n == 0 {
        Some((Seq::empty(), pos))
    } else {
        match parse_fe_n(s, pos, (n - 1) as nat) {
            Some((xs, p)) => match parse_fe_spec(s, p) {
                Some((x, q)) => Some((xs.push(x), q)),
                None => None,
            },
            None => None,
        }
    }
}

/// A vector of scalars: its length, then its elements.
pub open spec fn parse_fe_vec_spec(s: Seq<u8>, pos: nat) -> Option<(Seq<nat>, nat)> {
    match parse_len_spec(s, pos) {
        Some((n, p)) => parse_fe_n(s, p, n),
        None => None,
    }
}

/// A G1 point: 32 bytes that deserialize, taken in the form they serialize again.
pub open spec fn parse_g1_spec(s: Seq<u8>, pos: nat) -> Option<(Seq<u8>, nat)> {
    if pos + 32 <= s.len() {
        match g1_decode(chunk(s, pos, 32)) {
            Some(e) => Some((e, pos + 32)),
            None => None,
        }
    } else {
        None
    }
}

/// A G2 point: 64 bytes that deserialize, taken in the form they serialize again.
pub open spec fn parse_g2_spec(s: Seq<u8>, pos: nat) -> Option<(Seq<u8>, nat)> {
    if pos + 64 <= s.len() {
        match g2_decode(chunk(s, pos, 64)) {
            Some(e) => Some((e, pos + 64)),
            None => None,
        }
    } else {
        None
    }
}

/// A GT element: 384 bytes of twelve canonical base-field coordinates.
pub open spec fn parse_gt_spec(s: Seq<u8>, pos: nat) -> Option<(Seq<u8>, nat)> {
    if pos + 384 <= s.len() && gt_valid(chunk(s, pos, 384)) {
        Some((chunk(s, pos, 384), pos + 384))
    } else {
        None
    }
}

/// Every scalar is below the field order.
pub open spec fn fe_all_reduced(xs: Seq<nat>) -> bool {
    forall|i: int| 0 <= i < xs.len() ==> #[trigger] xs[i] < fr_modulus()
}

/// The serialization of `n` scalars has `32·n` bytes.
pub proof fn lemma_fe_seq_bytes_len(xs: Seq<nat>)
    requires
        fe_all_reduced(xs),
    ensures
        fe_seq_bytes(xs).len() == 32 * xs.len(),
    decreases xs.len(),
{
    if xs.len() > 0 {
        lemma_fe_seq_bytes_len(xs.drop_last());
        lemma_fe_bytes(xs.last());
    }
}

/// The `i`-th 32 bytes of the serialization of scalars are the serialization of the `i`-th.
pub proof fn lemma_fe_seq_bytes_chunk(xs: Seq<nat>, i: int)
    requires
        fe_all_reduced(xs),
        0 <= i < xs.len(),
    ensures
        fe_seq_bytes(xs).subrange(32 * i, 32 * i + 32) == fe_bytes(xs[i]),
    decreases xs.len(),
{
    let init = xs.drop_last();
    assert(fe_all_reduced(init)) by {
        assert forall|j: int| 0 <= j < init.len() implies #[trigger] init[j] < fr_modulus() by {
            assert(init[j] == xs[j]);
        }
    }
    lemma_fe_seq_bytes_len(init);
    lemma_fe_bytes(xs.last());
    if i < init.len() {
        lemma_fe_seq_bytes_chunk(init, i);
        assert(fe_seq_bytes(xs).subrange(32 * i, 32 * i + 32) =~= fe_seq_bytes(init).subrange(
            32 * i,
            32 * i + 32,
        ));
        assert(init[i] == xs[i]);
    } else {
        assert(fe_seq_bytes(xs).subrange(32 * i, 32 * i + 32) =~= fe_bytes(xs.last()));
    }
}

/// Splitting the bytes at a position into two concatenated parts.
pub proof fn lemma_chunk_split(s: Seq<u8>, pos: nat, a: Seq<u8>, b: Seq<u8>)
    requires
        pos + a.len() + b.len() <= s.len(),
        chunk(s, pos, a.len() + b.len()) == a + b,
    ensures
        chunk(s, pos, a.len()) == a,
        chunk(s, pos + a.len(), b.len()) == b,
{
    assert(chunk(s, pos, a.len()) =~= (a + b).subrange(0, a.len() as int));
    assert(chunk(s, pos + a.len(), b.len()) =~= (a + b).subrange(
        a.len() as int,
        (a.len() + b.len()) as int,
    ));
    assert((a + b).subrange(0, a.len() as int) =~= a);
    assert((a + b).subrange(a.len() as int, (a.len() + b.len()) as int) =~= b);
}

/// Reading a scalar back from its serialization.
pub proof fn lemma_parse_fe_roundtrip(s: Seq<u8>, pos: nat, v: nat)
    requires
        v < fr_modulus(),
        pos + 32 <= s.len(),
        chunk(s, pos, 32) == fe_bytes(v),
    ensures
        parse_fe_spec(s, pos) == Some((v, pos + 32)),
{
    lemma_fe_bytes(v);
}

/// Reading scalars back from their serialization.
pub proof fn lemma_parse_fe_n_roundtrip(s: Seq<u8>, pos: nat, xs: Seq<nat>)
    requires
        fe_all_reduced(xs),
        pos + fe_seq_bytes(xs).len() <= s.len(),
        chunk(s, pos, fe_seq_bytes(xs).len()) == fe_seq_bytes(xs),
    ensures
        parse_fe_n(s, pos, xs.len()) == Some((xs, pos + fe_seq_bytes(xs).len())),
    decreases xs.len(),
{
    if xs.len() > 0 {
        let init = xs.drop_last();
        lemma_fe_bytes(xs.last());
        lemma_chunk_split(s, pos, fe_seq_bytes(init), fe_bytes(xs.last()));
        lemma_parse_fe_n_roundtrip(s, pos, init);
        lemma_parse_fe_roundtrip(s, pos + fe_seq_bytes(init).len(), xs.last());
        assert(init.push(xs.last()) =~= xs);
    }
}

/// Reading a vector of scalars back from its serialization.
pub proof fn lemma_parse_fe_vec_roundtrip(s: Seq<u8>, pos: nat, xs: Seq<nat>)
    requires
        fe_all_reduced(xs),
        xs.len() <= usize::MAX,
        pos + fe_vec_bytes(xs).len() <= s.len(),
        chunk(s, pos, fe_vec_bytes(xs).len()) == fe_vec_bytes(xs),
    ensures
        parse_fe_vec_spec(s, pos) == Some((xs, pos + fe_vec_bytes(xs).len())),
{
    lemma_pow256_values();
    lemma_le_nat_le_encode(xs.len(), 8);
    lemma_chunk_split(s, pos, u64_le(xs.len()), fe_seq_bytes(xs));
    lemma_parse_fe_n_roundtrip(s, pos + 8, xs);
}

/// Reading a G1 point back from its serialization.
pub proof fn lemma_parse_g1_roundtrip(s: Seq<u8>, pos: nat, p: Seq<u8>)
    requires
        p.len() == 32,
        g1_decode(p) == Some(p),
        pos + 32 <= s.len(),
        chunk(s, pos, 32) == p,
    ensures
        parse_g1_spec(s, pos) == Some((p, pos + 32)),
{
}

/// Reading a G2 point back from its serialization.
pub proof fn lemma_parse_g2_roundtrip(s: Seq<u8>, pos: nat, p: Seq<u8>)
    requires
        p.len() == 64,
        g2_decode(p) == Some(p),
        pos + 64 <= s.len(),
        chunk(s, pos, 64) == p,
    ensures
        parse_g2_spec(s, pos) == Some((p, pos + 64)),
{
}

/// Reading a GT element back from its serialization.
pub proof fn lemma_parse_gt_roundtrip(s: Seq<u8>, pos: nat, g: Seq<u8>)
    requires
        gt_valid(g),
        pos + 384 <= s.len(),
        chunk(s, pos, 384) == g,
    ensures
        parse_gt_spec(s, pos) == Some((g, pos + 384)),
{
}

/// Reads a length: eight little-endian bytes whose value fits a `usize`.
pub fn read_len(bytes: &[u8], pos: usize) -> (res: Option<(usize, usize)>)
    ensures
        res is Some <==> parse_len_spec(bytes@, pos as nat) is Some,
        res matches Some((n, q)) ==> parse_len_spec(bytes@, pos as nat) == Some(
            (n as nat, q as nat),
        ),
{
    if pos > bytes.len() || bytes.len() - pos < 8 {
        return None;
    }
    let ghost s = bytes@;
    let mut v: u128 = 0;
    let mut k: usize = 8;
    proof {
        lemma_pow256_values();
        assert(chunk(s, pos as nat, 8).subrange(8, 8) =~= Seq::<u8>::empty());
    }
    while k > 0
        invariant
            k <= 8,
            pos + 8 <= s.len(),
            s == bytes@,
            s.len() == bytes.len(),
            v == le_nat(chunk(s, pos as nat, 8).subrange(k as int, 8)),
            pow256(8) == 0x1_0000_0000_0000_0000,
        decreases k,
    {
        let ghost c = chunk(s, pos as nat, 8);
        proof {
            lemma_le_nat_bound(c.subrange(k as int, 8));
            lemma_le_nat_bound(c.subrange(k - 1, 8));
            assert(c.subrange(k - 1, 8).drop_first() =~= c.subrange(k as int, 8));
            lemma_pow256_mono((8 - k) as nat, 8);
        }
        v = (bytes[pos + k - 1] as u128) + 256 * v;
        k = k - 1;
    }
    proof {
        assert(chunk(s, pos as nat, 8).subrange(0, 8) =~= chunk(s, pos as nat, 8));
        lemma_le_nat_bound(chunk(s, pos as nat, 8));
    }
    if v > usize::MAX as u128 {
        return None;
    }
    Some((v as usize, pos + 8))
}

/// 256ⁿ grows with `n`.
pub proof fn lemma_pow256_mono(a: nat, b: nat)
    requires
        a <= b,
    ensures
        pow256(a) <= pow256(b),
    decreases b - a,
{
    if a < b {
        lemma_pow256_mono(a, (b - 1) as nat);
    }
}

/// Copies `N` bytes from `pos` on.
fn read_array32(bytes: &[u8], pos: usize) -> (res: [u8; 32])
    requires
        pos + 32 <= bytes@.len(),
    ensures
        res@ == chunk(bytes@, pos as nat, 32),
{
    let mut out = [0u8; 32];
    let mut i: usize = 0;
    while i < 32
        invariant
            i <= 32,
            pos + 32 <= bytes@.len(),
            bytes@.len() == bytes.len(),
            forall|j: int| 0 <= j < i ==> out@[j] == bytes@[pos + j],
        decreases 32 - i,
    {
        out[i] = bytes[pos + i];
        i = i + 1;
    }
    assert(out@ =~= chunk(bytes@, pos as nat, 32));
    out
}

fn read_array64(bytes: &[u8], pos: usize) -> (res: [u8; 64])
    requires
        pos + 64 <= bytes@.len(),
    ensures
        res@ == chunk(bytes@, pos as nat, 64),
{
    let mut out = [0u8; 64];
    let mut i: usize = 0;
    while i < 64
        invariant
            i <= 64,
            pos + 64 <= bytes@.len(),
            bytes@.len() == bytes.len(),
            forall|j: int| 0 <= j < i ==> out@[j] == bytes@[pos + j],
        decreases 64 - i,
    {
        out[i] = bytes[pos + i];
        i = i + 1;
    }
    assert(out@ =~= chunk(bytes@, pos as nat, 64));
    out
}

fn read_array384(bytes: &[u8], pos: usize) -> (res: [u8; 384])
    requires
        pos + 384 <= bytes@.len(),
    ensures
        res@ == chunk(bytes@, pos as nat, 384),
{
    let mut out = [0u8; 384];
    let mut i: usize = 0;
    while i < 384
        invariant
            i <= 384,
            pos + 384 <= bytes@.len(),
            bytes@.len() == bytes.len(),
            forall|j: int| 0 <= j < i ==> out@[j] == bytes@[pos + j],
        decreases 384 - i,
    {
        out[i] = bytes[pos + i];
        i = i + 1;
    }
    assert(out@ =~= chunk(bytes@, pos as nat, 384));
    out
}

/// Reads a scalar.
pub fn read_fe(bytes: &[u8], pos: usize) -> (res: Option<(FieldElement, usize)>)
    ensures
        res is Some <==> parse_fe_spec(bytes@, pos as nat) is Some,
        res matches Some((x, q)) ==> parse_fe_spec(bytes@, pos as nat) == Some((x@, q as nat)),
{
    if pos > bytes.len() || bytes.len() - pos < 32 {
        return None;
    }
    let b = read_array32(bytes, pos);
    match FieldElement::from_bytes(b) {
        Some(x) => Some((x, pos + 32)),
        None => None,
    }
}

/// Reads a vector of scalars.
pub fn read_fe_vec(bytes: &[u8], pos: usize) -> (res: Option<(Vec<FieldElement>, usize)>)
    ensures
        res is Some <==> parse_fe_vec_spec(bytes@, pos as nat) is Some,
        res matches Some((xs, q)) ==> parse_fe_vec_spec(bytes@, pos as nat) == Some(
            (xs@.map_values(|x: FieldElement| x@), q as nat),
        ),
{
    let (n, start) = read_len(bytes, pos)?;
    let ghost s = bytes@;
    let mut xs: Vec<FieldElement> = Vec::new();
    let mut p = start;
    let mut k: usize = 0;
    assert(xs@.map_values(|x: FieldElement| x@) =~= Seq::<nat>::empty());
    while k < n
        invariant
            k <= n,
            s == bytes@,
            parse_len_spec(s, pos as nat) == Some((n as nat, start as nat)),
            parse_fe_n(s, start as nat, k as nat) == Some(
                (xs@.map_values(|x: FieldElement| x@), p as nat),
            ),
        decreases n - k,
    {
        let ghost prev = xs@.map_values(|x: FieldElement| x@);
        match read_fe(bytes, p) {
            Some((x, q)) => {
                xs.push(x);
                p = q;
                assert(xs@.map_values(|x: FieldElement| x@) =~= prev.push(x@));
            },
            None => {
                proof {
                    lemma_parse_fe_n_stays_failed(s, start as nat, (k + 1) as nat, n as nat);
                }
                return None;
            },
        }
        k = k + 1;
    }
    Some((xs, p))
}

/// Once reading the first `k` scalars fails, reading more fails too.
pub proof fn lemma_parse_fe_n_stays_failed(s: Seq<u8>, pos: nat, k: nat, n: nat)
    requires
        k <= n,
        parse_fe_n(s, pos, k) is None,
    ensures
        parse_fe_n(s, pos, n) is None,
    decreases n - k,
{
    if k < n {
        lemma_parse_fe_n_stays_failed(s, pos, k, (n - 1) as nat);
    }
}

/// Reads a G1 point.
pub fn read_g1(bytes: &[u8], pos: usize) -> (res: Option<(G1, usize)>)
    ensures
        res is Some <==> parse_g1_spec(bytes@, pos as nat) is Some,
        res matches Some((x, q)) ==> parse_g1_spec(bytes@, pos as nat) == Some((x@, q as nat)),
{
    if pos > bytes.len() || bytes.len() - pos < 32 {
        return None;
    }
    let b = read_array32(bytes, pos);
    match G1::from_bytes(b) {
        Some(x) => Some((x, pos + 32)),
        None => None,
    }
}

/// Reads a G2 point.
pub fn read_g2(bytes: &[u8], pos: usize) -> (res: Option<(G2, usize)>)
    ensures
        res is Some <==> parse_g2_spec(bytes@, pos as nat) is Some,
        res matches Some((x, q)) ==> parse_g2_spec(bytes@, pos as nat) == Some((x@, q as nat)),
{
    if pos > bytes.len() || bytes.len() - pos < 64 {
        return None;
    }
    let b = read_array64(bytes, pos);
    match G2::from_bytes(b) {
        Some(x) => Some((x, pos + 64)),
        None => None,
    }
}

/// Reads a GT element.
pub fn read_gt(bytes: &[u8], pos: usize) -> (res: Option<(GT, usize)>)
    ensures
        res is Some <==> parse_gt_spec(bytes@, pos as nat) is Some,
        res matches Some((x, q)) ==> parse_gt_spec(bytes@, pos as nat) == Some((x@, q as nat)),
{
    if pos > bytes.len() || bytes.len() - pos < 384 {
        return None;
    }
    let b = read_array384(bytes, pos);
    match GT::from_bytes(b) {
        Some(x) => Some((x, pos + 384)),
        None => None,
    }
}

/// The serializations of G1 points, one after the other.
pub open spec fn g1_seq_bytes(ps: Seq<Seq<u8>>) -> Seq<u8>
    decreases ps.len(),
{
    if ps.len() == 0 {
        Seq::empty()
    } else {
        g1_seq_bytes(ps.drop_last()) + ps.last()
    }
}

/// Every encoding is a 32-byte G1 encoding that deserializes to itself.
pub open spec fn g1_all_ok(ps: Seq<Seq<u8>>) -> bool {
    forall|i: int| 0 <= i < ps.len() ==> #[trigger] ps[i].len() == 32 && g1_decode(ps[i]) == Some(ps[i])
}

/// `n` G1 points, one after the other.
pub open spec fn parse_g1_n(s: Seq<u8>, pos: nat, n: nat) -> Option<(Seq<Seq<u8>>, nat)>
    decreases n,
{
    if n == 0 {
        Some((Seq::empty(), pos))
    } else {
        match parse_g1_n(s, pos, (n - 1) as nat) {
            Some((ps, p)) => match parse_g1_spec(s, p) {
                Some((x, q)) => Some((ps.push(x), q)),
                None => None,
            },
            None => None,
        }
    }
}

/// A vector of G1 points: its length, then its elements.
pub open spec fn parse_g1_vec_spec(s: Seq<u8>, pos: nat) -> Option<(Seq<Seq<u8>>, nat)> {
    match parse_len_spec(s, pos) {
        Some((n, p)) => parse_g1_n(s, p, n),
        None => None,
    }
}

/// The serialization of `n` G1 points has `32·n` bytes.
pub proof fn lemma_g1_seq_bytes_len(ps: Seq<Seq<u8>>)
    requires
        forall|i: int| 0 <= i < ps.len() ==> #[trigger] ps[i].len() == 32,
    ensures
        g1_seq_bytes(ps).len() == 32 * ps.len(),
    decreases ps.len(),
{
    if ps.len() > 0 {
        lemma_g1_seq_bytes_len(ps.drop_last());
        assert(ps.last() == ps[ps.len() - 1]);
    }
}

/// Reading G1 points back from their serialization.
pub proof fn lemma_parse_g1_n_roundtrip(s: Seq<u8>, pos: nat, ps: Seq<Seq<u8>>)
    requires
        g1_all_ok(ps),
        pos + g1_seq_bytes(ps).len() <= s.len(),
        chunk(s, pos, g1_seq_bytes(ps).len()) == g1_seq_bytes(ps),
    ensures
        parse_g1_n(s, pos, ps.len()) == Some((ps, pos + g1_seq_bytes(ps).len())),
    decreases ps.len(),
{
    if ps.len() > 0 {
        let init = ps.drop_last();
        assert(ps.last() == ps[ps.len() - 1]);
        lemma_chunk_split(s, pos, g1_seq_bytes(init), ps.last());
        lemma_parse_g1_n_roundtrip(s, pos, init);
        lemma_parse_g1_roundtrip(s, pos + g1_seq_bytes(init).len(), ps.last());
        assert(init.push(ps.last()) =~= ps);
    }
}

/// Appends the serialization of a vector of G1 points.
pub fn push_g1_vec(out: &mut Vec<u8>, ps: &Vec<G1>)
    ensures
        final(out)@ == old(out)@ + u64_le(ps@.len()) + g1_seq_bytes(ps@.map_values(|p: G1| p@)),
        g1_all_ok(ps@.map_values(|p: G1| p@)),
        ps@.len() <= usize::MAX,
{
    let ghost start = out@;
    let ghost v = ps@.map_values(|p: G1| p@);
    push_u64_le(out, ps.len() as u64);
    let ghost mid = out@;
    let mut i: usize = 0;
    while i < ps.len()
        invariant
            i <= ps.len(),
            v == ps@.map_values(|p: G1| p@),
            mid == start + u64_le(ps@.len()),
            out@ == mid + g1_seq_bytes(v.subrange(0, i as int)),
            forall|j: int| 0 <= j < i ==> #[trigger] v[j].len() == 32 && g1_decode(v[j]) == Some(v[j]),
        decreases ps.len() - i,
    {
        push_g1(out, &ps[i]);
        assert(v.subrange(0, i + 1).drop_last() =~= v.subrange(0, i as int));
        assert(mid + g1_seq_bytes(v.subrange(0, i + 1)) =~= mid + g1_seq_bytes(
            v.subrange(0, i as int),
        ) + ps@[i as int]@);
        i = i + 1;
    }
    assert(v.subrange(0, ps.len() as int) =~= v);
}

/// Once reading the first `k` points fails, reading more fails too.
pub proof fn lemma_parse_g1_n_stays_failed(s: Seq<u8>, pos: nat, k: nat, n: nat)
    requires
        k <= n,
        parse_g1_n(s, pos, k) is None,
    ensures
        parse_g1_n(s, pos, n) is None,
    decreases n - k,
{
    if k < n {
        lemma_parse_g1_n_stays_failed(s, pos, k, (n - 1) as nat);
    }
}

/// Reads a vector of G1 points.
pub fn read_g1_vec(bytes: &[u8], pos: usize) -> (res: Option<(Vec<G1>, usize)>)
    ensures
        res is Some <==> parse_g1_vec_spec(bytes@, pos as nat) is Some,
        res matches Some((ps, q)) ==> parse_g1_vec_spec(bytes@, pos as nat) == Some(
            (ps@.map_values(|p: G1| p@), q as nat),
        ),
{
    let (n, start) = read_len(bytes, pos)?;
    let ghost s = bytes@;
    let mut ps: Vec<G1> = Vec::new();
    let mut p = start;
    let mut k: usize = 0;
    assert(ps@.map_values(|p: G1| p@) =~= Seq::<Seq<u8>>::empty());
    while k < n
        invariant
            k <= n,
            s == bytes@,
            parse_len_spec(s, pos as nat) == Some((n as nat, start as nat)),
            parse_g1_n(s, start as nat, k as nat) == Some((ps@.map_values(|p: G1| p@), p as nat)),
        decreases n - k,
    {
        let ghost prev = ps@.map_values(|p: G1| p@);
        match read_g1(bytes, p) {
            Some((x, q)) => {
                ps.push(x);
                p = q;
                assert(ps@.map_values(|p: G1| p@) =~= prev.push(x@));
            },
            None => {
                proof {
                    lemma_parse_g1_n_stays_failed(s, start as nat, (k + 1) as nat, n as nat);
                }
                return None;
            },
        }
        k = k + 1;
    }
    Some((ps, p))
}

} // verus!
