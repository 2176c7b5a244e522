//! Little-endian encoding of fixed-width integers, the building block of
//! every record in the PFS and WLD formats.
use vstd::prelude::*;

verus! {

/// The two little-endian bytes of `x`.
pub open spec fn le_u16(x: u16) -> Seq<u8> {
    seq![(x % 256) as u8, (x / 256) as u8]
}

/// The four little-endian bytes of `x`.
pub open spec fn le_u32(x: u32) -> Seq<u8> {
    seq![
        (x % 256) as u8,
        ((x / 256) % 256) as u8,
        ((x / 65536) % 256) as u8,
        (x / 16777216) as u8,
    ]
}

/// The four big-endian bytes of `x`.
pub open spec fn be_u32(x: u32) -> Seq<u8> {
    seq![
        (x / 16777216) as u8,
        ((x / 65536) % 256) as u8,
        ((x / 256) % 256) as u8,
        (x % 256) as u8,
    ]
}

/// The `u16` stored little-endian at `pos` in `s`.
pub open spec fn u16_at(s: Seq<u8>, pos: int) -> u16 {
    (s[pos] + 256 * s[pos + 1]) as u16
}

/// The `u32` stored little-endian at `pos` in `s`.
pub open spec fn u32_at(s: Seq<u8>, pos: int) -> u32 {
    (s[pos] + 256 * s[pos + 1] + 65536 * s[pos + 2] + 16777216 * s[pos + 3]) as u32
}

/// The `u32` stored big-endian at `pos` in `s`.
pub open spec fn be_u32_at(s: Seq<u8>, pos: int) -> u32 {
    (16777216 * s[pos] + 65536 * s[pos + 1] + 256 * s[pos + 2] + s[pos + 3]) as u32
}

/// Two's complement bits of a signed 16-bit value.
pub open spec fn i16_bits(x: i16) -> u16 {
    if x >= 0 { x as u16 } else { (x + 0x1_0000) as u16 }
}

/// The signed 16-bit value with the given two's complement bits.
pub open spec fn i16_of_bits(u: u16) -> i16 {
    if u < 0x8000 { u as i16 } else { (u - 0x1_0000) as i16 }
}

/// Two's complement bits of a signed 32-bit value.
pub open spec fn i32_bits(x: i32) -> u32 {
    if x >= 0 { x as u32 } else { (x + 0x1_0000_0000) as u32 }
}

/// The signed 32-bit value with the given two's complement bits.
pub open spec fn i32_of_bits(u: u32) -> i32 {
    if u < 0x8000_0000 { u as i32 } else { (u - 0x1_0000_0000) as i32 }
}

/// Two's complement bits of a signed 8-bit value.
pub open spec fn i8_bits(x: i8) -> u8 {
    if x >= 0 { x as u8 } else { (x + 0x100) as u8 }
}

/// The signed 8-bit value with the given two's complement bits.
pub open spec fn i8_of_bits(u: u8) -> i8 {
    if u < 0x80 { u as i8 } else { (u - 0x100) as i8 }
}

pub open spec fn le_i16(x: i16) -> Seq<u8> {
    le_u16(i16_bits(x))
}

pub open spec fn le_i32(x: i32) -> Seq<u8> {
    le_u32(i32_bits(x))
}

pub open spec fn i16_at(s: Seq<u8>, pos: int) -> i16 {
    i16_of_bits(u16_at(s, pos))
}

pub open spec fn i32_at(s: Seq<u8>, pos: int) -> i32 {
    i32_of_bits(u32_at(s, pos))
}

#[verifier::spinoff_prover]
#[verifier::rlimit(50)]
proof fn lemma_split2(x: int)
    requires
        0 <= x < 0x1_0000,
    ensures
        x == x % 256 + 256 * (x / 256),
        x / 256 < 256,
{
}

#[verifier::spinoff_prover]
#[verifier::rlimit(50)]
proof fn lemma_join2(b0: int, b1: int)
    requires
        0 <= b0 < 256,
        0 <= b1 < 256,
    ensures
        (b0 + 256 * b1) % 256 == b0,
        (b0 + 256 * b1) / 256 == b1,
{
}

#[verifier::spinoff_prover]
#[verifier::rlimit(50)]
proof fn lemma_split4(x: int)
    requires
        0 <= x < 0x1_0000_0000,
    ensures
        x == x % 256 + 256 * ((x / 256) % 256) + 65536 * ((x / 65536) % 256) + 16777216 * (x
            / 16777216),
        x / 16777216 < 256,
{
}

#[verifier::spinoff_prover]
#[verifier::rlimit(50)]
proof fn lemma_join4(b0: int, b1: int, b2: int, b3: int)
    requires
        0 <= b0 < 256,
        0 <= b1 < 256,
        0 <= b2 < 256,
        0 <= b3 < 256,
    ensures
        ({
            let x = b0 + 256 * b1 + 65536 * b2 + 16777216 * b3;
            &&& x % 256 == b0
            &&& (x / 256) % 256 == b1
            &&& (x / 65536) % 256 == b2
            &&& x / 16777216 == b3
        }),
{
}

/// Reading back the two bytes of `x` gives `x`.
pub proof fn lemma_u16_roundtrip(x: u16)
    ensures
        u16_at(le_u16(x), 0) == x,
        le_u16(x).len() == 2,
{
    lemma_split2(x as int);
}

/// Reading back the four bytes of `x` gives `x`.
pub proof fn lemma_u32_roundtrip(x: u32)
    ensures
        u32_at(le_u32(x), 0) == x,
        be_u32_at(be_u32(x), 0) == x,
        le_u32(x).len() == 4,
        be_u32(x).len() == 4,
{
    lemma_split4(x as int);
}

/// Encoding the value read at `pos` gives back the two bytes at `pos`.
pub proof fn lemma_u16_bytes(s: Seq<u8>, pos: int)
    requires
        0 <= pos,
        pos + 2 <= s.len(),
    ensures
        le_u16(u16_at(s, pos)) == s.subrange(pos, pos + 2),
{
    lemma_join2(s[pos] as int, s[pos + 1] as int);
    assert(le_u16(u16_at(s, pos)) =~= s.subrange(pos, pos + 2));
}

/// Encoding the value read at `pos` gives back the four bytes at `pos`.
pub proof fn lemma_u32_bytes(s: Seq<u8>, pos: int)
    requires
        0 <= pos,
        pos + 4 <= s.len(),
    ensures
        le_u32(u32_at(s, pos)) == s.subrange(pos, pos + 4),
        be_u32(be_u32_at(s, pos)) == s.subrange(pos, pos + 4),
{
    lemma_join4(s[pos] as int, s[pos + 1] as int, s[pos + 2] as int, s[pos + 3] as int);
    lemma_join4(s[pos + 3] as int, s[pos + 2] as int, s[pos + 1] as int, s[pos] as int);
    assert(le_u32(u32_at(s, pos)) =~= s.subrange(pos, pos + 4));
    assert(be_u32(be_u32_at(s, pos)) =~= s.subrange(pos, pos + 4));
}

pub proof fn lemma_i16_bits(x: i16)
    ensures
        i16_of_bits(i16_bits(x)) == x,
{
}

pub proof fn lemma_i32_bits(x: i32)
    ensures
        i32_of_bits(i32_bits(x)) == x,
{
}

pub proof fn lemma_i8_bits(x: i8)
    ensures
        i8_of_bits(i8_bits(x)) == x,
{
}

pub proof fn lemma_bits_i16(u: u16)
    ensures
        i16_bits(i16_of_bits(u)) == u,
{
}

pub proof fn lemma_bits_i32(u: u32)
    ensures
        i32_bits(i32_of_bits(u)) == u,
{
}

pub proof fn lemma_bits_i8(u: u8)
    ensures
        i8_bits(i8_of_bits(u)) == u,
{
}

/// The `u16` read at `p` is the one whose bytes stand there.
pub proof fn lemma_u16_field(s: Seq<u8>, p: int, x: u16)
    requires
        0 <= p,
        p + 2 <= s.len(),
        s.subrange(p, p + 2) == le_u16(x),
    ensures
        u16_at(s, p) == x,
{
    lemma_u16_roundtrip(x);
    assert(s[p] == s.subrange(p, p + 2)[0]);
    assert(s[p + 1] == s.subrange(p, p + 2)[1]);
}

/// The `u32` read at `p` is the one whose bytes stand there.
pub proof fn lemma_u32_field(s: Seq<u8>, p: int, x: u32)
    requires
        0 <= p,
        p + 4 <= s.len(),
        s.subrange(p, p + 4) == le_u32(x),
    ensures
        u32_at(s, p) == x,
{
    lemma_u32_roundtrip(x);
    assert(s[p] == s.subrange(p, p + 4)[0]);
    assert(s[p + 1] == s.subrange(p, p + 4)[1]);
    assert(s[p + 2] == s.subrange(p, p + 4)[2]);
    assert(s[p + 3] == s.subrange(p, p + 4)[3]);
}

/// Appends the little-endian bytes of `x`.
pub fn push_u16(out: &mut Vec<u8>, x: u16)
    ensures
        final(out)@ == old(out)@ + le_u16(x),
{
    out.push((x % 256) as u8);
    out.push((x / 256) as u8);
    assert(out@ =~= old(out)@ + le_u16(x));
}

/// Appends the little-endian bytes of `x`.
pub fn push_u32(out: &mut Vec<u8>, x: u32)
    ensures
        final(out)@ == old(out)@ + le_u32(x),
{
    out.push((x % 256) as u8);
    out.push(((x / 256) % 256) as u8);
    out.push(((x / 65536) % 256) as u8);
    out.push((x / 16777216) as u8);
    assert(out@ =~= old(out)@ + le_u32(x));
}

/// Appends the big-endian bytes of `x`.
pub fn push_be_u32(out: &mut Vec<u8>, x: u32)
    ensures
        final(out)@ == old(out)@ + be_u32(x),
{
    out.push((x / 16777216) as u8);
    out.push(((x / 65536) % 256) as u8);
    out.push(((x / 256) % 256) as u8);
    out.push((x % 256) as u8);
    assert(out@ =~= old(out)@ + be_u32(x));
}

pub fn i16_to_bits(x: i16) -> (r: u16)
    ensures
        r == i16_bits(x),
{
    if x >= 0 {
        x as u16
    } else {
        (x as i32 + 0x1_0000) as u16
    }
}

pub fn i32_to_bits(x: i32) -> (r: u32)
    ensures
        r == i32_bits(x),
{
    if x >= 0 {
        x as u32
    } else {
        (x as i64 + 0x1_0000_0000) as u32
    }
}

pub fn i8_to_bits(x: i8) -> (r: u8)
    ensures
        r == i8_bits(x),
{
    if x >= 0 {
        x as u8
    } else {
        (x as i16 + 0x100) as u8
    }
}

pub fn bits_to_i16(u: u16) -> (r: i16)
    ensures
        r == i16_of_bits(u),
{
    if u < 0x8000 {
        u as i16
    } else {
        (u as i32 - 0x1_0000) as i16
    }
}

pub fn bits_to_i32(u: u32) -> (r: i32)
    ensures
        r == i32_of_bits(u),
{
    if u < 0x8000_0000 {
        u as i32
    } else {
        (u as i64 - 0x1_0000_0000) as i32
    }
}

pub fn bits_to_i8(u: u8) -> (r: i8)
    ensures
        r == i8_of_bits(u),
{
    if u < 0x80 {
        u as i8
    } else {
        (u as i16 - 0x100) as i8
    }
}

/// Appends the little-endian two's complement bytes of `x`.
pub fn push_i16(out: &mut Vec<u8>, x: i16)
    ensures
        final(out)@ == old(out)@ + le_i16(x),
{
    let u = i16_to_bits(x);
    push_u16(out, u);
}

/// Appends the little-endian two's complement bytes of `x`.
pub fn push_i32(out: &mut Vec<u8>, x: i32)
    ensures
        final(out)@ == old(out)@ + le_i32(x),
{
    let u = i32_to_bits(x);
    push_u32(out, u);
}

/// Reads the little-endian `u16` at `pos`.
pub fn read_u16(s: &[u8], pos: usize) -> (r: u16)
    requires
        pos + 2 <= s@.len(),
    ensures
        r == u16_at(s@, pos as int),
{
    s[pos] as u16 + 256 * (s[pos + 1] as u16)
}

/// Reads the little-endian `u32` at `pos`.
pub fn read_u32(s: &[u8], pos: usize) -> (r: u32)
    requires
        pos + 4 <= s@.len(),
    ensures
        r == u32_at(s@, pos as int),
{
    s[pos] as u32 + 256 * (s[pos + 1] as u32) + 65536 * (s[pos + 2] as u32) + 16777216 * (s[pos
        + 3] as u32)
}

/// Reads the big-endian `u32` at `pos`.
pub fn read_be_u32(s: &[u8], pos: usize) -> (r: u32)
    requires
        pos + 4 <= s@.len(),
    ensures
        r == be_u32_at(s@, pos as int),
{
    16777216 * (s[pos] as u32) + 65536 * (s[pos + 1] as u32) + 256 * (s[pos + 2] as u32) + s[pos
        + 3] as u32
}

/// Reads the little-endian `i16` at `pos`.
pub fn read_i16(s: &[u8], pos: usize) -> (r: i16)
    requires
        pos + 2 <= s@.len(),
    ensures
        r == i16_at(s@, pos as int),
{
    let u = read_u16(s, pos);
    bits_to_i16(u)
}

/// Reads the little-endian `i32` at `pos`.
pub fn read_i32(s: &[u8], pos: usize) -> (r: i32)
    requires
        pos + 4 <= s@.len(),
    ensures
        r == i32_at(s@, pos as int),
{
    let u = read_u32(s, pos);
    bits_to_i32(u)
}

} // verus!
