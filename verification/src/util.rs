//! Little-endian byte helpers shared by every on-disk record.

use vstd::prelude::*;

verus! {

/// The unsigned 16-bit value stored little-endian at `s[off..off + 2]`.
pub open spec fn spec_u16_at(s: Seq<u8>, off: int) -> u16 {
    (s[off] + 256 * s[off + 1]) as u16
}

/// The unsigned 32-bit value stored little-endian at `s[off..off + 4]`.
pub open spec fn spec_u32_at(s: Seq<u8>, off: int) -> u32 {
    (s[off] + 256 * s[off + 1] + 65536 * s[off + 2] + 16777216 * s[off + 3]) as u32
}

/// Two's-complement reading of a 16-bit pattern.
pub open spec fn u16_as_i16(u: u16) -> i16 {
    if u < 0x8000 { u as i16 } else { (u - 0x10000) as i16 }
}

/// Two's-complement reading of a 32-bit pattern.
pub open spec fn u32_as_i32(u: u32) -> i32 {
    if u < 0x8000_0000 { u as i32 } else { (u - 0x1_0000_0000) as i32 }
}

/// The 16-bit pattern of a signed value.
pub open spec fn i16_as_u16(v: i16) -> u16 {
    if v >= 0 { v as u16 } else { (v + 0x10000) as u16 }
}

/// The 32-bit pattern of a signed value.
pub open spec fn i32_as_u32(v: i32) -> u32 {
    if v >= 0 { v as u32 } else { (v + 0x1_0000_0000) as u32 }
}

pub open spec fn spec_i16_at(s: Seq<u8>, off: int) -> i16 {
    u16_as_i16(spec_u16_at(s, off))
}

pub open spec fn spec_i32_at(s: Seq<u8>, off: int) -> i32 {
    u32_as_i32(spec_u32_at(s, off))
}

/// Little-endian encoding of a `u16`.
pub open spec fn u16_le(v: u16) -> Seq<u8> {
    seq![(v % 256) as u8, (v / 256) as u8]
}

/// Little-endian encoding of a `u32`.
pub open spec fn u32_le(v: u32) -> Seq<u8> {
    seq![(v % 256) as u8, ((v / 256) % 256) as u8, ((v / 65536) % 256) as u8, (v / 16777216) as u8]
}

pub open spec fn i16_le(v: i16) -> Seq<u8> {
    u16_le(i16_as_u16(v))
}

pub open spec fn i32_le(v: i32) -> Seq<u8> {
    u32_le(i32_as_u32(v))
}

/// Reading back an encoded `u16` gives the value.
pub proof fn lemma_u16_le_roundtrip(v: u16)
    ensures
        u16_le(v).len() == 2,
        spec_u16_at(u16_le(v), 0) == v,
{
    let x = v as int;
    assert(x == x % 256 + 256 * (x / 256) && x / 256 < 256) by (nonlinear_arith)
        requires
            0 <= x < 0x10000,
    ;
}

/// Reading back an encoded `u32` gives the value.
pub proof fn lemma_u32_le_roundtrip(v: u32)
    ensures
        u32_le(v).len() == 4,
        spec_u32_at(u32_le(v), 0) == v,
{
    let x = v as int;
    assert(x == x % 256 + 256 * ((x / 256) % 256) + 65536 * ((x / 65536) % 256) + 16777216 * (x
        / 16777216) && x / 16777216 < 256) by (nonlinear_arith)
        requires
            0 <= x < 0x1_0000_0000,
    ;
}

/// Encoding the `u16` read at `off` gives back the bytes there.
pub proof fn lemma_u16_le_of_read(s: Seq<u8>, off: int)
    requires
        0 <= off,
        off + 2 <= s.len(),
    ensures
        u16_le(spec_u16_at(s, off)) =~= s.subrange(off, off + 2),
{
    let b0 = s[off] as int;
    let b1 = s[off + 1] as int;
    let x = b0 + 256 * b1;
    assert(x % 256 == b0 && x / 256 == b1) by (nonlinear_arith)
        requires
            0 <= b0 < 256,
            0 <= b1 < 256,
            x == b0 + 256 * b1,
    ;
}

/// Encoding the `u32` read at `off` gives back the bytes there.
pub proof fn lemma_u32_le_of_read(s: Seq<u8>, off: int)
    requires
        0 <= off,
        off + 4 <= s.len(),
    ensures
        u32_le(spec_u32_at(s, off)) =~= s.subrange(off, off + 4),
{
    let b0 = s[off] as int;
    let b1 = s[off + 1] as int;
    let b2 = s[off + 2] as int;
    let b3 = s[off + 3] as int;
    let x = b0 + 256 * b1 + 65536 * b2 + 16777216 * b3;
    assert(x % 256 == b0 && (x / 256) % 256 == b1 && (x / 65536) % 256 == b2 && x / 16777216
        == b3) by (nonlinear_arith)
        requires
            0 <= b0 < 256,
            0 <= b1 < 256,
            0 <= b2 < 256,
            0 <= b3 < 256,
            x == b0 + 256 * b1 + 65536 * b2 + 16777216 * b3,
    ;
}

pub proof fn lemma_i16_le_of_read(s: Seq<u8>, off: int)
    requires
        0 <= off,
        off + 2 <= s.len(),
    ensures
        i16_le(spec_i16_at(s, off)) =~= s.subrange(off, off + 2),
{
    lemma_u16_le_of_read(s, off);
}

pub proof fn lemma_i32_le_of_read(s: Seq<u8>, off: int)
    requires
        0 <= off,
        off + 4 <= s.len(),
    ensures
        i32_le(spec_i32_at(s, off)) =~= s.subrange(off, off + 4),
{
    lemma_u32_le_of_read(s, off);
}

/// The `u16` read at `off` is `v` when the bytes there encode `v`.
pub proof fn lemma_u16_at_of(s: Seq<u8>, off: int, v: u16)
    requires
        0 <= off,
        off + 2 <= s.len(),
        s.subrange(off, off + 2) == u16_le(v),
    ensures
        spec_u16_at(s, off) == v,
{
    assert(s[off] == s.subrange(off, off + 2)[0]);
    assert(s[off + 1] == s.subrange(off, off + 2)[1]);
    lemma_u16_le_roundtrip(v);
}

/// The `u32` read at `off` is `v` when the bytes there encode `v`.
pub proof fn lemma_u32_at_of(s: Seq<u8>, off: int, v: u32)
    requires
        0 <= off,
        off + 4 <= s.len(),
        s.subrange(off, off + 4) == u32_le(v),
    ensures
        spec_u32_at(s, off) == v,
{
    assert(s[off] == s.subrange(off, off + 4)[0]);
    assert(s[off + 1] == s.subrange(off, off + 4)[1]);
    assert(s[off + 2] == s.subrange(off, off + 4)[2]);
    assert(s[off + 3] == s.subrange(off, off + 4)[3]);
    lemma_u32_le_roundtrip(v);
}

pub proof fn lemma_i16_at_of(s: Seq<u8>, off: int, v: i16)
    requires
        0 <= off,
        off + 2 <= s.len(),
        s.subrange(off, off + 2) == i16_le(v),
    ensures
        spec_i16_at(s, off) == v,
{
    lemma_u16_at_of(s, off, i16_as_u16(v));
}

pub proof fn lemma_i32_at_of(s: Seq<u8>, off: int, v: i32)
    requires
        0 <= off,
        off + 4 <= s.len(),
        s.subrange(off, off + 4) == i32_le(v),
    ensures
        spec_i32_at(s, off) == v,
{
    lemma_u32_at_of(s, off, i32_as_u32(v));
}

/// `off` rounded up to the next multiple of `alignment`.
pub open spec fn spec_align(off: int, alignment: int) -> int {
    if off % alignment == 0 {
        off
    } else {
        off + (alignment - off % alignment)
    }
}

/// Rounds `*off` up to the next multiple of `alignment`.
pub fn align(off: &mut usize, alignment: usize)
    requires
        alignment > 0,
        spec_align(*old(off) as int, alignment as int) <= usize::MAX,
    ensures
        *final(off) == spec_align(*old(off) as int, alignment as int),
        *old(off) <= *final(off) < *old(off) + alignment,
{
    let rem = *off % alignment;
    if rem != 0 {
        *off = *off + (alignment - rem);
    }
}

/// The zero bytes that bring `off` up to the next multiple of `alignment`.
pub open spec fn spec_pad(off: int, alignment: int) -> Seq<u8> {
    Seq::new((spec_align(off, alignment) - off) as nat, |i: int| 0u8)
}

/// Appends the zero bytes that bring `*off` up to the next multiple of `alignment`, and
/// advances `*off` past them.
pub fn align_pad(out: &mut Vec<u8>, off: &mut usize, alignment: usize)
    requires
        alignment > 0,
        spec_align(*old(off) as int, alignment as int) <= usize::MAX,
    ensures
        final(out)@ == old(out)@ + spec_pad(*old(off) as int, alignment as int),
        *final(off) == spec_align(*old(off) as int, alignment as int),
        spec_pad(*old(off) as int, alignment as int).len() < alignment,
{
    let rem = *off % alignment;
    if rem != 0 {
        let n = alignment - rem;
        let mut k: usize = 0;
        while k < n
            invariant
                k <= n,
                n == alignment - rem,
                rem == *old(off) % alignment,
                *off == *old(off),
                out@ == old(out)@ + Seq::new(k as nat, |i: int| 0u8),
            decreases n - k,
        {
            out.push(0);
            k = k + 1;
            assert(out@ =~= old(out)@ + Seq::new(k as nat, |i: int| 0u8));
        }
        *off = *off + n;
    }
    assert(out@ =~= old(out)@ + spec_pad(*old(off) as int, alignment as int));
}

/// Appends `bytes` to `out`.
pub fn push_bytes(out: &mut Vec<u8>, bytes: &[u8])
    ensures
        final(out)@ == old(out)@ + bytes@,
{
    let mut k: usize = 0;
    while k < bytes.len()
        invariant
            k <= bytes@.len(),
            out@ == old(out)@ + bytes@.take(k as int),
        decreases bytes@.len() - k,
    {
        out.push(bytes[k]);
        k = k + 1;
        assert(out@ =~= old(out)@ + bytes@.take(k as int));
    }
    assert(bytes@.take(bytes@.len() as int) =~= bytes@);
}

/// Writes `v` little-endian into `buf[off..off + 4]`.
pub fn set_u32_le(buf: &mut Vec<u8>, off: usize, v: u32)
    requires
        off + 4 <= old(buf).len(),
    ensures
        final(buf)@ == splice(old(buf)@, off as int, u32_le(v)),
{
    buf.set(off, (v % 256) as u8);
    buf.set(off + 1, ((v / 256) % 256) as u8);
    buf.set(off + 2, ((v / 65536) % 256) as u8);
    buf.set(off + 3, (v / 16777216) as u8);
    assert(buf@ =~= splice(old(buf)@, off as int, u32_le(v)));
}

/// `s` with `b` written over it starting at `off`.
pub open spec fn splice(s: Seq<u8>, off: int, b: Seq<u8>) -> Seq<u8> {
    s.take(off) + b + s.skip(off + b.len())
}

/// Reads a little-endian `u16` at `off`.
pub fn read_u16_le(buf: &[u8], off: usize) -> (r: u16)
    requires
        off + 2 <= buf@.len(),
    ensures
        r == spec_u16_at(buf@, off as int),
{
    buf[off] as u16 + 256 * (buf[off + 1] as u16)
}

/// Reads a little-endian `u32` at `off`.
pub fn read_u32_le(buf: &[u8], off: usize) -> (r: u32)
    requires
        off + 4 <= buf@.len(),
    ensures
        r == spec_u32_at(buf@, off as int),
{
    buf[off] as u32 + 256 * (buf[off + 1] as u32) + 65536 * (buf[off + 2] as u32) + 16777216 * (
    buf[off + 3] as u32)
}

/// Reads a little-endian two's-complement `i16` at `off`.
pub fn read_i16_le(buf: &[u8], off: usize) -> (r: i16)
    requires
        off + 2 <= buf@.len(),
    ensures
        r == spec_i16_at(buf@, off as int),
{
    let u = read_u16_le(buf, off);
    if u < 0x8000 {
        u as i16
    } else {
        i16::MIN + ((u - 0x8000) as i16)
    }
}

/// Reads a little-endian two's-complement `i32` at `off`.
pub fn read_i32_le(buf: &[u8], off: usize) -> (r: i32)
    requires
        off + 4 <= buf@.len(),
    ensures
        r == spec_i32_at(buf@, off as int),
{
    let u = read_u32_le(buf, off);
    if u < 0x8000_0000 {
        u as i32
    } else {
        i32::MIN + ((u - 0x8000_0000) as i32)
    }
}

/// The 16-bit pattern of `v`.
pub fn i16_bits(v: i16) -> (r: u16)
    ensures
        r == i16_as_u16(v),
{
    if v >= 0 {
        v as u16
    } else {
        ((v - i16::MIN) as u16) + 0x8000
    }
}

/// The 32-bit pattern of `v`.
pub fn i32_bits(v: i32) -> (r: u32)
    ensures
        r == i32_as_u32(v),
{
    if v >= 0 {
        v as u32
    } else {
        ((v - i32::MIN) as u32) + 0x8000_0000
    }
}

/// Writes `v` little-endian into `bytes[off..off + 2]`.
pub fn put_u16_le<const N: usize>(bytes: &mut [u8; N], off: usize, v: u16)
    requires
        off + 2 <= N,
    ensures
        final(bytes)@ == splice(old(bytes)@, off as int, u16_le(v)),
{
    bytes[off] = (v % 256) as u8;
    bytes[off + 1] = (v / 256) as u8;
    assert(bytes@ =~= splice(old(bytes)@, off as int, u16_le(v)));
}

/// Writes `v` little-endian into `bytes[off..off + 4]`.
pub fn put_u32_le<const N: usize>(bytes: &mut [u8; N], off: usize, v: u32)
    requires
        off + 4 <= N,
    ensures
        final(bytes)@ == splice(old(bytes)@, off as int, u32_le(v)),
{
    bytes[off] = (v % 256) as u8;
    bytes[off + 1] = ((v / 256) % 256) as u8;
    bytes[off + 2] = ((v / 65536) % 256) as u8;
    bytes[off + 3] = (v / 16777216) as u8;
    assert(bytes@ =~= splice(old(bytes)@, off as int, u32_le(v)));
}

/// Appends `v` little-endian to `out`.
pub fn push_u16_le(out: &mut Vec<u8>, v: u16)
    ensures
        final(out)@ == old(out)@ + u16_le(v),
{
    out.push((v % 256) as u8);
    out.push((v / 256) as u8);
    assert(out@ =~= old(out)@ + u16_le(v));
}

/// Appends `v` little-endian to `out`.
pub fn push_u32_le(out: &mut Vec<u8>, v: u32)
    ensures
        final(out)@ == old(out)@ + u32_le(v),
{
    out.push((v % 256) as u8);
    out.push(((v / 256) % 256) as u8);
    out.push(((v / 65536) % 256) as u8);
    out.push((v / 16777216) as u8);
    assert(out@ =~= old(out)@ + u32_le(v));
}

} // verus!
