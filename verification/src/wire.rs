//! Big-endian field access on byte sequences, as network headers use it.
use vstd::prelude::*;

verus! {

/// The big-endian 16-bit value of `s[i]`, `s[i + 1]`.
pub open spec fn be16(s: Seq<u8>, i: int) -> int {
    s[i] * 256 + s[i + 1]
}

/// The big-endian 32-bit value of `s[i..i + 4]`.
pub open spec fn be32(s: Seq<u8>, i: int) -> int {
    s[i] * 16777216 + s[i + 1] * 65536 + s[i + 2] * 256 + s[i + 3]
}

/// The two big-endian bytes of a 16-bit value.
pub open spec fn be16_bytes(v: int) -> Seq<u8> {
    seq![((v / 256) % 256) as u8, (v % 256) as u8]
}

/// The four big-endian bytes of a 32-bit value.
pub open spec fn be32_bytes(v: int) -> Seq<u8> {
    seq![
        ((v / 16777216) % 256) as u8,
        ((v / 65536) % 256) as u8,
        ((v / 256) % 256) as u8,
        (v % 256) as u8,
    ]
}

/// Reads the big-endian 16-bit value at `i`.
pub fn read_be16(s: &[u8], i: usize) -> (r: u16)
    requires
        i + 2 <= s@.len(),
    ensures
        r == be16(s@, i as int),
{
    let a = s[i] as u16;
    let b = s[i + 1] as u16;
    assert((a << 8) | b == a * 256 + b) by (bit_vector)
        requires
            a < 256,
            b < 256,
    ;
    (a << 8) | b
}

/// Reads the big-endian 32-bit value at `i`.
pub fn read_be32(s: &[u8], i: usize) -> (r: u32)
    requires
        i + 4 <= s@.len(),
    ensures
        r == be32(s@, i as int),
{
    let a = s[i] as u32;
    let b = s[i + 1] as u32;
    let c = s[i + 2] as u32;
    let d = s[i + 3] as u32;
    assert((a << 24) | (b << 16) | (c << 8) | d == a * 16777216 + b * 65536 + c * 256 + d)
        by (bit_vector)
        requires
            a < 256,
            b < 256,
            c < 256,
            d < 256,
    ;
    (a << 24) | (b << 16) | (c << 8) | d
}

/// Appends the two big-endian bytes of `v`.
pub fn push_be16(v: &mut Vec<u8>, x: u16)
    ensures
        final(v)@ == old(v)@ + be16_bytes(x as int),
{
    v.push((x >> 8) as u8);
    v.push((x & 0xFF) as u8);
    assert(final(v)@ =~= old(v)@ + be16_bytes(x as int)) by {
        assert((x >> 8) as u8 == ((x as int / 256) % 256) as u8 && (x & 0xFF) as u8 == (x as int % 256) as u8)
            by (bit_vector);
    }
}

/// Appends the four big-endian bytes of `v`.
pub fn push_be32(v: &mut Vec<u8>, x: u32)
    ensures
        final(v)@ == old(v)@ + be32_bytes(x as int),
{
    v.push((x >> 24) as u8);
    v.push(((x >> 16) & 0xFF) as u8);
    v.push(((x >> 8) & 0xFF) as u8);
    v.push((x & 0xFF) as u8);
    assert(final(v)@ =~= old(v)@ + be32_bytes(x as int)) by {
        assert((x >> 24) as u8 == ((x as int / 16777216) % 256) as u8 && ((x >> 16) & 0xFF) as u8 == ((x as int
            / 65536) % 256) as u8 && ((x >> 8) & 0xFF) as u8 == ((x as int / 256) % 256) as u8 && (x & 0xFF) as u8
            == (x as int % 256) as u8) by (bit_vector);
    }
}

/// Appends all bytes of `src`.
pub fn push_all(v: &mut Vec<u8>, src: &[u8])
    ensures
        final(v)@ == old(v)@ + src@,
{
    let mut k: usize = 0;
    while k < src.len()
        invariant
            k <= src@.len(),
            v@ == old(v)@ + src@.take(k as int),
        decreases src@.len() - k,
    {
        v.push(src[k]);
        k = k + 1;
        assert(v@ =~= old(v)@ + src@.take(k as int));
    }
    assert(src@.take(src@.len() as int) =~= src@);
}


/// The little-endian 16-bit value of `s[i..i + 2]`.
pub open spec fn le16(s: Seq<u8>, i: int) -> int {
    s[i] + s[i + 1] * 256
}

/// The little-endian 32-bit value of `s[i..i + 4]`.
pub open spec fn le32(s: Seq<u8>, i: int) -> int {
    le16(s, i) + le16(s, i + 2) * 65536
}

/// The little-endian 64-bit value of `s[i..i + 8]`.
pub open spec fn le64(s: Seq<u8>, i: int) -> int {
    le32(s, i) + le32(s, i + 4) * 4294967296
}

/// The two little-endian bytes of a 16-bit value.
pub open spec fn le16_bytes(v: int) -> Seq<u8> {
    seq![(v % 256) as u8, ((v / 256) % 256) as u8]
}

/// The four little-endian bytes of a 32-bit value.
pub open spec fn le32_bytes(v: int) -> Seq<u8> {
    le16_bytes(v % 65536) + le16_bytes((v / 65536) % 65536)
}

/// The eight little-endian bytes of a 64-bit value.
pub open spec fn le64_bytes(v: int) -> Seq<u8> {
    le32_bytes(v % 4294967296) + le32_bytes((v / 4294967296) % 4294967296)
}

/// Reads the little-endian 16-bit value at `i`.
pub fn read_le16(s: &[u8], i: usize) -> (r: u16)
    requires
        i + 2 <= s@.len(),
    ensures
        r == le16(s@, i as int),
{
    let a = s[i] as u16;
    let b = s[i + 1] as u16;
    assert(a | (b << 8) == a + b * 256) by (bit_vector)
        requires
            a < 256,
            b < 256,
    ;
    a | (b << 8)
}

/// Reads the little-endian 32-bit value at `i`.
pub fn read_le32(s: &[u8], i: usize) -> (r: u32)
    requires
        i + 4 <= s@.len(),
    ensures
        r == le32(s@, i as int),
{
    let _n = s.len();
    let lo = read_le16(s, i) as u32;
    let hi = read_le16(s, i + 2) as u32;
    assert(lo | (hi << 16) == lo + hi * 65536) by (bit_vector)
        requires
            lo < 65536,
            hi < 65536,
    ;
    lo | (hi << 16)
}

/// Reads the little-endian 64-bit value at `i`.
pub fn read_le64(s: &[u8], i: usize) -> (r: u64)
    requires
        i + 8 <= s@.len(),
    ensures
        r == le64(s@, i as int),
{
    let _n = s.len();
    let lo = read_le32(s, i) as u64;
    let hi = read_le32(s, i + 4) as u64;
    assert(lo | (hi << 32) == lo + hi * 4294967296) by (bit_vector)
        requires
            lo < 4294967296,
            hi < 4294967296,
    ;
    lo | (hi << 32)
}

/// Appends the two little-endian bytes of `x`.
pub fn push_le16(v: &mut Vec<u8>, x: u16)
    ensures
        final(v)@ == old(v)@ + le16_bytes(x as int),
{
    assert((x & 0xFF) == x % 256 && (x >> 8) == x / 256) by (bit_vector);
    v.push((x & 0xFF) as u8);
    v.push((x >> 8) as u8);
    assert(final(v)@ =~= old(v)@ + le16_bytes(x as int));
}

/// Appends the four little-endian bytes of `x`.
pub fn push_le32(v: &mut Vec<u8>, x: u32)
    ensures
        final(v)@ == old(v)@ + le32_bytes(x as int),
{
    assert((x & 0xFFFF) == x % 65536 && (x >> 16) == x / 65536 && (x / 65536) % 65536 == x / 65536)
        by (bit_vector);
    push_le16(v, (x & 0xFFFF) as u16);
    push_le16(v, (x >> 16) as u16);
    assert(final(v)@ =~= old(v)@ + le32_bytes(x as int));
}

/// Appends the eight little-endian bytes of `x`.
pub fn push_le64(v: &mut Vec<u8>, x: u64)
    ensures
        final(v)@ == old(v)@ + le64_bytes(x as int),
{
    assert((x & 0xFFFF_FFFF) == x % 4294967296 && (x >> 32) == x / 4294967296 && (x / 4294967296)
        % 4294967296 == x / 4294967296) by (bit_vector);
    let lo = (x & 0xFFFF_FFFF) as u32;
    let hi = (x >> 32) as u32;
    push_le32(v, lo);
    push_le32(v, hi);
    assert(le64_bytes(x as int) == le32_bytes(lo as int) + le32_bytes(hi as int));
    assert(final(v)@ =~= old(v)@ + le64_bytes(x as int));
}

/// Reading back the two little-endian bytes of a 16-bit value gives the value.
pub proof fn lemma_le16_roundtrip(v: int)
    requires
        0 <= v < 65536,
    ensures
        le16_bytes(v).len() == 2,
        le16(le16_bytes(v), 0) == v,
{
    let b = le16_bytes(v);
    assert(b[0] == v % 256 && b[1] == v / 256) by {
        assert(0 <= v % 256 < 256 && 0 <= v / 256 < 256) by (nonlinear_arith)
            requires
                0 <= v < 65536,
        ;
        assert((v / 256) % 256 == v / 256) by (nonlinear_arith)
            requires
                0 <= v / 256 < 256,
        ;
    }
    assert(v % 256 + (v / 256) * 256 == v) by (nonlinear_arith);
}

/// Reading back the four little-endian bytes of a 32-bit value gives the value.
pub proof fn lemma_le32_roundtrip(v: int)
    requires
        0 <= v < 4294967296,
    ensures
        le32_bytes(v).len() == 4,
        le32(le32_bytes(v), 0) == v,
{
    let lo = v % 65536;
    let hi = (v / 65536) % 65536;
    assert(0 <= lo < 65536 && hi == v / 65536 && 0 <= hi < 65536) by (nonlinear_arith)
        requires
            0 <= v < 4294967296,
            lo == v % 65536,
            hi == (v / 65536) % 65536,
    ;
    lemma_le16_roundtrip(lo);
    lemma_le16_roundtrip(hi);
    let b = le32_bytes(v);
    assert(le16(b, 0) == le16(le16_bytes(lo), 0));
    assert(le16(b, 2) == le16(le16_bytes(hi), 0));
    assert(lo + hi * 65536 == v) by (nonlinear_arith)
        requires
            lo == v % 65536,
            hi == v / 65536,
    ;
}

/// Reading back the eight little-endian bytes of a 64-bit value gives the
/// value.
pub proof fn lemma_le64_roundtrip(v: int)
    requires
        0 <= v < 0x1_0000_0000_0000_0000,
    ensures
        le64_bytes(v).len() == 8,
        le64(le64_bytes(v), 0) == v,
{
    let lo = v % 4294967296;
    let hi = (v / 4294967296) % 4294967296;
    assert(0 <= lo < 4294967296 && hi == v / 4294967296 && 0 <= hi < 4294967296)
        by (nonlinear_arith)
        requires
            0 <= v < 0x1_0000_0000_0000_0000,
            lo == v % 4294967296,
            hi == (v / 4294967296) % 4294967296,
    ;
    lemma_le32_roundtrip(lo);
    lemma_le32_roundtrip(hi);
    let b = le64_bytes(v);
    let bl = le32_bytes(lo);
    let bh = le32_bytes(hi);
    assert(le16(b, 0) == le16(bl, 0) && le16(b, 2) == le16(bl, 2));
    assert(le16(b, 4) == le16(bh, 0) && le16(b, 6) == le16(bh, 2));
    assert(lo + hi * 4294967296 == v) by (nonlinear_arith)
        requires
            lo == v % 4294967296,
            hi == v / 4294967296,
    ;
}

} // verus!
