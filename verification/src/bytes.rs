//! Little-endian byte primitives shared by the container and record codecs.
//!
//! All multi-byte scalars in a SHAN file are stored little-endian.  The spec
//! functions here give the value of a few bytes read little-endian and the
//! bytes written for a value, together with the lemmas that connect the two.

use vstd::prelude::*;

verus! {

/// Value of two bytes read little-endian.
pub open spec fn le16(b0: u8, b1: u8) -> u16 {
    (b0 + b1 * 0x100) as u16
}

/// Value of four bytes read little-endian.
pub open spec fn le32(b0: u8, b1: u8, b2: u8, b3: u8) -> u32 {
    (b0 + b1 * 0x100 + b2 * 0x10000 + b3 * 0x1000000) as u32
}

/// Value of the two bytes at `i` in `b`, read little-endian.
pub open spec fn le16_at(b: Seq<u8>, i: int) -> u16
    recommends
        0 <= i,
        i + 2 <= b.len(),
{
    le16(b[i], b[i + 1])
}

/// Value of the four bytes at `i` in `b`, read little-endian.
pub open spec fn le32_at(b: Seq<u8>, i: int) -> u32
    recommends
        0 <= i,
        i + 4 <= b.len(),
{
    le32(b[i], b[i + 1], b[i + 2], b[i + 3])
}

/// The two little-endian bytes of a 16-bit value.
pub open spec fn u16_bytes(x: u16) -> Seq<u8> {
    seq![(x % 0x100) as u8, (x / 0x100) as u8]
}

/// The four little-endian bytes of a 32-bit value.
pub open spec fn u32_bytes(x: u32) -> Seq<u8> {
    seq![
        (x % 0x100) as u8,
        ((x / 0x100) % 0x100) as u8,
        ((x / 0x10000) % 0x100) as u8,
        (x / 0x1000000) as u8,
    ]
}

/// Reading back the two little-endian bytes of a value yields the value.
pub proof fn lemma_le16_of_u16_bytes(x: u16)
    ensures
        le16(u16_bytes(x)[0], u16_bytes(x)[1]) == x,
{
    assert(((x % 0x100) as u8 + ((x / 0x100) as u8) * 0x100) as u16 == x) by (bit_vector);
}

/// Reading back the four little-endian bytes of a value yields the value.
pub proof fn lemma_le32_of_u32_bytes(x: u32)
    ensures
        le32(u32_bytes(x)[0], u32_bytes(x)[1], u32_bytes(x)[2], u32_bytes(x)[3]) == x,
{
    assert(((x % 0x100) as u8 + (((x / 0x100) % 0x100) as u8) * 0x100 + (((x / 0x10000) % 0x100)
        as u8) * 0x10000 + ((x / 0x1000000) as u8) * 0x1000000) as u32 == x) by (bit_vector);
}

/// A slice of a slice of `b` is the corresponding slice of `b`.
pub proof fn lemma_subrange_of_subrange(b: Seq<u8>, pos: int, len: int, a: int, w: int)
    requires
        0 <= pos,
        0 <= a,
        0 <= w,
        a + w <= len,
        pos + len <= b.len(),
    ensures
        b.subrange(pos + a, pos + a + w) == b.subrange(pos, pos + len).subrange(a, a + w),
{
    assert(b.subrange(pos + a, pos + a + w) =~= b.subrange(pos, pos + len).subrange(a, a + w));
}

/// Where a buffer holds the two little-endian bytes of a value, reading
/// there yields the value.
pub proof fn lemma_le16_at_of_subrange(b: Seq<u8>, pos: int, x: u16)
    requires
        0 <= pos,
        pos + 2 <= b.len(),
        b.subrange(pos, pos + 2) == u16_bytes(x),
    ensures
        le16_at(b, pos) == x,
{
    assert(b[pos] == b.subrange(pos, pos + 2)[0]);
    assert(b[pos + 1] == b.subrange(pos, pos + 2)[1]);
    lemma_le16_of_u16_bytes(x);
}

/// Where a buffer holds the four little-endian bytes of a value, reading
/// there yields the value.
pub proof fn lemma_le32_at_of_subrange(b: Seq<u8>, pos: int, x: u32)
    requires
        0 <= pos,
        pos + 4 <= b.len(),
        b.subrange(pos, pos + 4) == u32_bytes(x),
    ensures
        le32_at(b, pos) == x,
{
    assert(b[pos] == b.subrange(pos, pos + 4)[0]);
    assert(b[pos + 1] == b.subrange(pos, pos + 4)[1]);
    assert(b[pos + 2] == b.subrange(pos, pos + 4)[2]);
    assert(b[pos + 3] == b.subrange(pos, pos + 4)[3]);
    lemma_le32_of_u32_bytes(x);
}

/// Reads the two bytes at `i` as a little-endian 16-bit value.
pub fn read_u16_le(b: &[u8], i: usize) -> (r: u16)
    requires
        i + 2 <= b@.len(),
    ensures
        r == le16_at(b@, i as int),
{
    b[i] as u16 + (b[i + 1] as u16) * 0x100
}

/// Reads the four bytes at `i` as a little-endian 32-bit value.
pub fn read_u32_le(b: &[u8], i: usize) -> (r: u32)
    requires
        i + 4 <= b@.len(),
    ensures
        r == le32_at(b@, i as int),
{
    b[i] as u32 + (b[i + 1] as u32) * 0x100 + (b[i + 2] as u32) * 0x10000 + (b[i + 3] as u32)
        * 0x1000000
}

/// Appends the two little-endian bytes of `x` to `out`.
pub fn push_u16_le(out: &mut Vec<u8>, x: u16)
    ensures
        final(out)@ == old(out)@ + u16_bytes(x),
{
    out.push((x % 0x100) as u8);
    out.push((x / 0x100) as u8);
    assert(out@ =~= old(out)@ + u16_bytes(x));
}

/// Appends the four little-endian bytes of `x` to `out`.
pub fn push_u32_le(out: &mut Vec<u8>, x: u32)
    ensures
        final(out)@ == old(out)@ + u32_bytes(x),
{
    out.push((x % 0x100) as u8);
    out.push(((x / 0x100) % 0x100) as u8);
    out.push(((x / 0x10000) % 0x100) as u8);
    out.push((x / 0x1000000) as u8);
    assert(out@ =~= old(out)@ + u32_bytes(x));
}

} // verus!
