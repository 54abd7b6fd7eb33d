//! Little-endian integer codecs.
//!
//! Every integer that travels between the PLC and this library is stored in
//! little-endian byte order (ADS is a little-endian protocol). The spec
//! functions below say what a run of bytes means as a number, and the
//! executable functions read and write such runs.
use vstd::prelude::*;

verus! {

/// The value of two little-endian bytes.
pub open spec fn u16_le(b: Seq<u8>) -> int {
    b[0] + 256 * b[1]
}

/// The value of four little-endian bytes.
pub open spec fn u32_le(b: Seq<u8>) -> int {
    b[0] + 256 * b[1] + 65536 * b[2] + 16777216 * b[3]
}

/// The value of eight little-endian bytes.
pub open spec fn u64_le(b: Seq<u8>) -> int {
    u32_le(b) + 4294967296 * u32_le(b.subrange(4, 8))
}

/// Two's complement reading of an unsigned value of `bits` width.
pub open spec fn signed(v: int, half: int) -> int {
    if v < half {
        v
    } else {
        v - 2 * half
    }
}

/// The little-endian bytes of a 16-bit value.
pub open spec fn u16_bytes(v: u16) -> Seq<u8> {
    seq![(v % 256) as u8, (v / 256) as u8]
}

/// The little-endian bytes of a 32-bit value.
pub open spec fn u32_bytes(v: u32) -> Seq<u8> {
    seq![
        (v % 256) as u8,
        ((v / 256) % 256) as u8,
        ((v / 65536) % 256) as u8,
        (v / 16777216) as u8,
    ]
}

/// The little-endian bytes of a 64-bit value.
pub open spec fn u64_bytes(v: u64) -> Seq<u8> {
    u32_bytes((v % 4294967296) as u32) + u32_bytes((v / 4294967296) as u32)
}

/// Reading back the bytes of a 16-bit value gives the value.
pub proof fn lemma_u16_roundtrip(v: u16)
    ensures
        u16_bytes(v).len() == 2,
        u16_le(u16_bytes(v)) == v,
{
}

/// Reading back the bytes of a 32-bit value gives the value.
pub proof fn lemma_u32_roundtrip(v: u32)
    ensures
        u32_bytes(v).len() == 4,
        u32_le(u32_bytes(v)) == v,
{
}

/// Reading back the bytes of a 64-bit value gives the value.
pub proof fn lemma_u64_roundtrip(v: u64)
    ensures
        u64_bytes(v).len() == 8,
        u64_le(u64_bytes(v)) == v,
{
    let lo = (v % 4294967296) as u32;
    let hi = (v / 4294967296) as u32;
    lemma_u32_roundtrip(lo);
    lemma_u32_roundtrip(hi);
    assert(u64_bytes(v).subrange(0, 4) =~= u32_bytes(lo));
    assert(u64_bytes(v).subrange(4, 8) =~= u32_bytes(hi));
    assert(u32_le(u64_bytes(v)) == u32_le(u32_bytes(lo)));
}

/// Two bytes are the encoding of the value they read as.
pub proof fn lemma_u16_bytes_of_value(b: Seq<u8>)
    requires
        b.len() == 2,
    ensures
        0 <= u16_le(b) <= u16::MAX,
        u16_bytes(u16_le(b) as u16) =~= b,
{
}

/// Four bytes are the encoding of the value they read as.
#[verifier::rlimit(40)]
pub proof fn lemma_u32_bytes_of_value(b: Seq<u8>)
    requires
        b.len() == 4,
    ensures
        0 <= u32_le(b) <= u32::MAX,
        u32_bytes(u32_le(b) as u32) =~= b,
{
}

/// Reads a little-endian `u16` from the first two bytes of `b`.
pub fn read_u16_le(b: &[u8]) -> (v: u16)
    requires
        b@.len() >= 2,
    ensures
        v == u16_le(b@),
{
    b[0] as u16 + 256 * (b[1] as u16)
}

/// Reads a little-endian `u32` from the first four bytes of `b`.
pub fn read_u32_le(b: &[u8]) -> (v: u32)
    requires
        b@.len() >= 4,
    ensures
        v == u32_le(b@),
{
    b[0] as u32 + 256 * (b[1] as u32) + 65536 * (b[2] as u32) + 16777216 * (b[3] as u32)
}

/// Reads a little-endian `u64` from the first eight bytes of `b`.
pub fn read_u64_le(b: &[u8]) -> (v: u64)
    requires
        b@.len() >= 8,
    ensures
        v == u64_le(b@),
{
    let lo = read_u32_le(b);
    let hi = read_u32_le(&b[4..8]);
    assert(b@.subrange(4, 8) == b@.subrange(4, 8));
    lo as u64 + 4294967296 * (hi as u64)
}

/// Appends the little-endian bytes of `v` to `out`.
pub fn push_u16_le(out: &mut Vec<u8>, v: u16)
    ensures
        final(out)@ == old(out)@ + u16_bytes(v),
{
    out.push((v % 256) as u8);
    out.push((v / 256) as u8);
    assert(final(out)@ =~= old(out)@ + u16_bytes(v));
}

/// Appends the little-endian bytes of `v` to `out`.
pub fn push_u32_le(out: &mut Vec<u8>, v: u32)
    ensures
        final(out)@ == old(out)@ + u32_bytes(v),
{
    out.push((v % 256) as u8);
    out.push(((v / 256) % 256) as u8);
    out.push(((v / 65536) % 256) as u8);
    out.push((v / 16777216) as u8);
    assert(final(out)@ =~= old(out)@ + u32_bytes(v));
}

/// Appends the little-endian bytes of `v` to `out`.
pub fn push_u64_le(out: &mut Vec<u8>, v: u64)
    ensures
        final(out)@ == old(out)@ + u64_bytes(v),
{
    push_u32_le(out, (v % 4294967296) as u32);
    push_u32_le(out, (v / 4294967296) as u32);
    assert(final(out)@ =~= old(out)@ + u64_bytes(v));
}

} // verus!

verus! {

/// A copy of the bytes of `s`.
pub fn copy_bytes(s: &[u8]) -> (v: Vec<u8>)
    ensures
        v@ == s@,
{
    let mut v: Vec<u8> = Vec::new();
    let mut i: usize = 0;
    while i < s.len()
        invariant
            i <= s@.len(),
            v@ == s@.take(i as int),
        decreases s@.len() - i,
    {
        v.push(s[i]);
        assert(s@.take(i + 1) =~= s@.take(i as int).push(s@[i as int]));
        i = i + 1;
    }
    assert(s@.take(s@.len() as int) =~= s@);
    v
}

} // verus!

verus! {

/// The two's complement bits of a 16-bit signed value.
pub open spec fn i16_bits(v: i16) -> u16 {
    if v >= 0 {
        v as u16
    } else {
        (v + 65536) as u16
    }
}

/// The two's complement bits of a 32-bit signed value.
pub open spec fn i32_bits(v: i32) -> u32 {
    if v >= 0 {
        v as u32
    } else {
        (v + 0x1_0000_0000) as u32
    }
}

/// The two's complement bits of a 16-bit signed value.
pub fn i16_to_bits(v: i16) -> (r: u16)
    ensures
        r == i16_bits(v),
{
    if v >= 0 {
        v as u16
    } else {
        (v as i32 + 65536) as u16
    }
}

/// The 16-bit signed value with the given two's complement bits.
pub fn i16_from_bits(u: u16) -> (r: i16)
    ensures
        r == signed(u as int, 32768),
{
    if u < 32768 {
        u as i16
    } else {
        (u as i32 - 65536) as i16
    }
}

/// The two's complement bits of a 32-bit signed value.
pub fn i32_to_bits(v: i32) -> (r: u32)
    ensures
        r == i32_bits(v),
{
    if v >= 0 {
        v as u32
    } else {
        (v as i64 + 0x1_0000_0000) as u32
    }
}

/// The 32-bit signed value with the given two's complement bits.
pub fn i32_from_bits(u: u32) -> (r: i32)
    ensures
        r == signed(u as int, 0x8000_0000),
{
    if u < 0x8000_0000 {
        u as i32
    } else {
        (u as i64 - 0x1_0000_0000) as i32
    }
}

} // verus!
