//! Fixed-width little-endian integers: the byte layout as spec functions,
//! the readers and writers that implement it, and the proofs that reading
//! undoes writing.

use vstd::prelude::*;

verus! {

/// The four bytes of `x`, least significant first.
pub open spec fn u32_le_bytes(x: u32) -> Seq<u8> {
    seq![
        (x % 0x100) as u8,
        ((x / 0x100) % 0x100) as u8,
        ((x / 0x1_0000) % 0x100) as u8,
        (x / 0x100_0000) as u8,
    ]
}

/// The number whose little-endian bytes are the first four of `b`.
pub open spec fn u32_from_le_bytes(b: Seq<u8>) -> u32
    recommends
        b.len() >= 4,
{
    (b[0] + b[1] * 0x100 + b[2] * 0x1_0000 + b[3] * 0x100_0000) as u32
}

/// The eight bytes of `x`, least significant first.
pub open spec fn u64_le_bytes(x: u64) -> Seq<u8> {
    u32_le_bytes((x % 0x1_0000_0000) as u32) + u32_le_bytes((x / 0x1_0000_0000) as u32)
}

/// The number whose little-endian bytes are the first eight of `b`.
pub open spec fn u64_from_le_bytes(b: Seq<u8>) -> u64
    recommends
        b.len() >= 8,
{
    (u32_from_le_bytes(b.subrange(0, 4)) + u32_from_le_bytes(b.subrange(4, 8)) * 0x1_0000_0000) as u64
}

/// The two's-complement bit pattern of a signed 32-bit number.
pub open spec fn i32_bits(v: i32) -> u32 {
    if v >= 0 {
        v as u32
    } else {
        (v + 0x1_0000_0000) as u32
    }
}

/// The signed number that a 32-bit two's-complement pattern stands for.
pub open spec fn i32_from_bits(x: u32) -> i32 {
    if x < 0x8000_0000 {
        x as i32
    } else {
        (x - 0x1_0000_0000) as i32
    }
}

/// The four bytes of `v` in two's complement, least significant first.
pub open spec fn i32_le_bytes(v: i32) -> Seq<u8> {
    u32_le_bytes(i32_bits(v))
}

/// The signed number whose little-endian bytes are the first four of `b`.
pub open spec fn i32_from_le_bytes(b: Seq<u8>) -> i32
    recommends
        b.len() >= 4,
{
    i32_from_bits(u32_from_le_bytes(b))
}

/// Reading the bytes of a `u32` gives the number back, and the bytes read
/// from any four-byte sequence are that sequence.
pub proof fn lemma_u32_le_roundtrip(x: u32, b: Seq<u8>)
    ensures
        u32_le_bytes(x).len() == 4,
        u32_from_le_bytes(u32_le_bytes(x)) == x,
        b.len() == 4 ==> u32_le_bytes(u32_from_le_bytes(b)) == b,
{
    let q1 = x / 0x100;
    let q2 = q1 / 0x100;
    let q3 = q2 / 0x100;
    assert(q2 == x / 0x1_0000 && q3 == x / 0x100_0000);
    assert(x == x % 0x100 + (q1 % 0x100) * 0x100 + (q2 % 0x100) * 0x1_0000 + q3 * 0x100_0000);
    if b.len() == 4 {
        let y = u32_from_le_bytes(b);
        let r1 = b[1] + b[2] * 0x100 + b[3] * 0x1_0000;
        let r2 = b[2] + b[3] * 0x100;
        assert(y == b[0] + r1 * 0x100);
        assert(y % 0x100 == b[0] && y / 0x100 == r1);
        assert(r1 % 0x100 == b[1] && r1 / 0x100 == r2);
        assert(r2 % 0x100 == b[2] && r2 / 0x100 == b[3]);
        assert(y / 0x1_0000 == r2 && y / 0x100_0000 == b[3]);
        assert(u32_le_bytes(y) =~= b);
    }
}

/// The two halves of a sequence of eight bytes, put together again.
proof fn lemma_halves_concat(b: Seq<u8>)
    requires
        b.len() == 8,
    ensures
        b.subrange(0, 4) + b.subrange(4, 8) == b,
        b.subrange(0, 4).len() == 4,
        b.subrange(4, 8).len() == 4,
{
    assert(b.subrange(0, 4) + b.subrange(4, 8) =~= b);
}

/// The halves of the concatenation of two sequences of four bytes.
proof fn lemma_concat_halves(lo: Seq<u8>, hi: Seq<u8>)
    requires
        lo.len() == 4,
        hi.len() == 4,
    ensures
        (lo + hi).len() == 8,
        (lo + hi).subrange(0, 4) == lo,
        (lo + hi).subrange(4, 8) == hi,
{
    assert((lo + hi).subrange(0, 4) =~= lo);
    assert((lo + hi).subrange(4, 8) =~= hi);
}

/// Reading the bytes of a `u64` gives the number back, and the bytes read
/// from any eight-byte sequence are that sequence.
pub proof fn lemma_u64_le_roundtrip(x: u64, b: Seq<u8>)
    ensures
        u64_le_bytes(x).len() == 8,
        u64_from_le_bytes(u64_le_bytes(x)) == x,
        b.len() == 8 ==> u64_le_bytes(u64_from_le_bytes(b)) == b,
{
    let lo = (x % 0x1_0000_0000) as u32;
    let hi = (x / 0x1_0000_0000) as u32;
    lemma_u32_le_roundtrip(lo, Seq::empty());
    lemma_u32_le_roundtrip(hi, Seq::empty());
    lemma_concat_halves(u32_le_bytes(lo), u32_le_bytes(hi));
    assert(x == lo + hi * 0x1_0000_0000);
    if b.len() == 8 {
        let l = u32_from_le_bytes(b.subrange(0, 4));
        let h = u32_from_le_bytes(b.subrange(4, 8));
        lemma_halves_concat(b);
        lemma_u32_le_roundtrip(0, b.subrange(0, 4));
        lemma_u32_le_roundtrip(0, b.subrange(4, 8));
        let y = u64_from_le_bytes(b);
        assert(y == l + h * 0x1_0000_0000);
        assert(y % 0x1_0000_0000 == l && y / 0x1_0000_0000 == h);
    }
}

/// Reading the bytes of an `i32` gives the number back, and the bytes read
/// from any four-byte sequence are that sequence.
pub proof fn lemma_i32_le_roundtrip(v: i32, b: Seq<u8>)
    ensures
        i32_le_bytes(v).len() == 4,
        i32_from_le_bytes(i32_le_bytes(v)) == v,
        b.len() == 4 ==> i32_le_bytes(i32_from_le_bytes(b)) == b,
{
    lemma_u32_le_roundtrip(i32_bits(v), b);
}

/// Appends the four little-endian bytes of `x` to `out`.
pub(crate) fn put_u32_le(out: &mut Vec<u8>, x: u32)
    ensures
        final(out)@ == old(out)@ + u32_le_bytes(x),
{
    out.push((x % 0x100) as u8);
    out.push(((x / 0x100) % 0x100) as u8);
    out.push(((x / 0x1_0000) % 0x100) as u8);
    out.push((x / 0x100_0000) as u8);
    assert(out@ =~= old(out)@ + u32_le_bytes(x));
}

/// Appends the eight little-endian bytes of `x` to `out`.
pub(crate) fn put_u64_le(out: &mut Vec<u8>, x: u64)
    ensures
        final(out)@ == old(out)@ + u64_le_bytes(x),
{
    put_u32_le(out, (x % 0x1_0000_0000) as u32);
    put_u32_le(out, (x / 0x1_0000_0000) as u32);
    assert(out@ =~= old(out)@ + u64_le_bytes(x));
}

/// Appends the four little-endian two's-complement bytes of `v` to `out`.
pub(crate) fn put_i32_le(out: &mut Vec<u8>, v: i32)
    ensures
        final(out)@ == old(out)@ + i32_le_bytes(v),
{
    let bits: u32 = if v >= 0 {
        v as u32
    } else {
        (v as i64 + 0x1_0000_0000) as u32
    };
    put_u32_le(out, bits);
}

/// Reads the little-endian `u32` that starts at `pos`.
pub(crate) fn get_u32_le(data: &[u8], pos: usize) -> (x: u32)
    requires
        pos + 4 <= data.len(),
    ensures
        x == u32_from_le_bytes(data@.subrange(pos as int, pos + 4)),
{
    let b0: u32 = data[pos] as u32;
    let b1: u32 = data[pos + 1] as u32;
    let b2: u32 = data[pos + 2] as u32;
    let b3: u32 = data[pos + 3] as u32;
    b0 + b1 * 0x100 + b2 * 0x1_0000 + b3 * 0x100_0000
}

/// Reads the little-endian `u64` that starts at `pos`.
pub(crate) fn get_u64_le(data: &[u8], pos: usize) -> (x: u64)
    requires
        pos + 8 <= data.len(),
    ensures
        x == u64_from_le_bytes(data@.subrange(pos as int, pos + 8)),
{
    let lo: u64 = get_u32_le(data, pos) as u64;
    let hi: u64 = get_u32_le(data, pos + 4) as u64;
    proof {
        let b = data@.subrange(pos as int, pos + 8);
        assert(b.subrange(0, 4) =~= data@.subrange(pos as int, pos + 4));
        assert(b.subrange(4, 8) =~= data@.subrange(pos + 4, pos + 8));
    }
    lo + hi * 0x1_0000_0000
}

/// Reads the little-endian two's-complement `i32` that starts at `pos`.
pub(crate) fn get_i32_le(data: &[u8], pos: usize) -> (v: i32)
    requires
        pos + 4 <= data.len(),
    ensures
        v == i32_from_le_bytes(data@.subrange(pos as int, pos + 4)),
{
    let bits: u32 = get_u32_le(data, pos);
    if bits < 0x8000_0000 {
        bits as i32
    } else {
        (bits as i64 - 0x1_0000_0000) as i32
    }
}

} // verus!
