//! Big-endian integer byte codecs.
//!
//! Every multi-byte integer on the UDP tracker wire is big-endian.  Each
//! width gets a spec-level byte layout, an executable writer that appends
//! to a byte buffer, an executable reader, and round-trip lemmas.

use vstd::prelude::*;

verus! {

/// Big-endian byte layout of a `u16`.
pub open spec fn spec_u16_to_be_bytes(x: u16) -> Seq<u8> {
    seq![((x >> 8) & 0xff) as u8, (x & 0xff) as u8]
}

/// The `u16` denoted by two big-endian bytes.
pub open spec fn spec_u16_from_be_bytes(s: Seq<u8>) -> u16
    recommends
        s.len() == 2,
{
    (((s[0] as u16) << 8) | (s[1] as u16)) as u16
}

/// Big-endian byte layout of a `u32`.
pub open spec fn spec_u32_to_be_bytes(x: u32) -> Seq<u8> {
    seq![
        ((x >> 24) & 0xff) as u8,
        ((x >> 16) & 0xff) as u8,
        ((x >> 8) & 0xff) as u8,
        (x & 0xff) as u8,
    ]
}

/// The `u32` denoted by four big-endian bytes.
pub open spec fn spec_u32_from_be_bytes(s: Seq<u8>) -> u32
    recommends
        s.len() == 4,
{
    (((s[0] as u32) << 24) | ((s[1] as u32) << 16) | ((s[2] as u32) << 8) | (s[3] as u32)) as u32
}

/// Big-endian byte layout of a `u64`.
pub open spec fn spec_u64_to_be_bytes(x: u64) -> Seq<u8> {
    seq![
        ((x >> 56) & 0xff) as u8,
        ((x >> 48) & 0xff) as u8,
        ((x >> 40) & 0xff) as u8,
        ((x >> 32) & 0xff) as u8,
        ((x >> 24) & 0xff) as u8,
        ((x >> 16) & 0xff) as u8,
        ((x >> 8) & 0xff) as u8,
        (x & 0xff) as u8,
    ]
}

/// The `u64` denoted by eight big-endian bytes.
pub open spec fn spec_u64_from_be_bytes(s: Seq<u8>) -> u64
    recommends
        s.len() == 8,
{
    (((s[0] as u64) << 56) | ((s[1] as u64) << 48) | ((s[2] as u64) << 40) | ((s[3] as u64) << 32)
        | ((s[4] as u64) << 24) | ((s[5] as u64) << 16) | ((s[6] as u64) << 8) | (s[7]
        as u64)) as u64
}

pub proof fn lemma_u16_be_bytes_roundtrip(x: u16)
    ensures
        spec_u16_to_be_bytes(x).len() == 2,
        spec_u16_from_be_bytes(spec_u16_to_be_bytes(x)) == x,
{
    assert(((((x >> 8) & 0xff) as u8 as u16) << 8) | ((x & 0xff) as u8 as u16) == x)
        by (bit_vector);
}

pub proof fn lemma_u16_be_parse_inverts(s: Seq<u8>)
    requires
        s.len() == 2,
    ensures
        spec_u16_to_be_bytes(spec_u16_from_be_bytes(s)) == s,
{
    let x = spec_u16_from_be_bytes(s);
    let b0 = s[0];
    let b1 = s[1];
    assert((((((b0 as u16) << 8) | (b1 as u16)) as u16 >> 8) & 0xff) as u8 == b0 && ((((b0
        as u16) << 8) | (b1 as u16)) as u16 & 0xff) as u8 == b1) by (bit_vector);
    assert(spec_u16_to_be_bytes(x) =~= s);
}

pub proof fn lemma_u32_be_bytes_roundtrip(x: u32)
    ensures
        spec_u32_to_be_bytes(x).len() == 4,
        spec_u32_from_be_bytes(spec_u32_to_be_bytes(x)) == x,
{
    assert(((((x >> 24) & 0xff) as u8 as u32) << 24) | ((((x >> 16) & 0xff) as u8 as u32) << 16)
        | ((((x >> 8) & 0xff) as u8 as u32) << 8) | ((x & 0xff) as u8 as u32) == x)
        by (bit_vector);
}

pub proof fn lemma_u32_be_parse_inverts(s: Seq<u8>)
    requires
        s.len() == 4,
    ensures
        spec_u32_to_be_bytes(spec_u32_from_be_bytes(s)) == s,
{
    let b0 = s[0];
    let b1 = s[1];
    let b2 = s[2];
    let b3 = s[3];
    let x = ((((b0 as u32) << 24) | ((b1 as u32) << 16) | ((b2 as u32) << 8) | (b3 as u32))
        as u32);
    assert(((x >> 24) & 0xff) as u8 == b0 && ((x >> 16) & 0xff) as u8 == b1 && ((x >> 8) & 0xff)
        as u8 == b2 && (x & 0xff) as u8 == b3) by (bit_vector)
        requires
            x == ((((b0 as u32) << 24) | ((b1 as u32) << 16) | ((b2 as u32) << 8) | (b3 as u32))
                as u32),
    ;
    assert(spec_u32_to_be_bytes(spec_u32_from_be_bytes(s)) =~= s);
}

pub proof fn lemma_u64_be_bytes_roundtrip(x: u64)
    ensures
        spec_u64_to_be_bytes(x).len() == 8,
        spec_u64_from_be_bytes(spec_u64_to_be_bytes(x)) == x,
{
    assert(((((x >> 56) & 0xff) as u8 as u64) << 56) | ((((x >> 48) & 0xff) as u8 as u64) << 48)
        | ((((x >> 40) & 0xff) as u8 as u64) << 40) | ((((x >> 32) & 0xff) as u8 as u64) << 32)
        | ((((x >> 24) & 0xff) as u8 as u64) << 24) | ((((x >> 16) & 0xff) as u8 as u64) << 16)
        | ((((x >> 8) & 0xff) as u8 as u64) << 8) | ((x & 0xff) as u8 as u64) == x)
        by (bit_vector);
}

pub proof fn lemma_u64_be_parse_inverts(s: Seq<u8>)
    requires
        s.len() == 8,
    ensures
        spec_u64_to_be_bytes(spec_u64_from_be_bytes(s)) == s,
{
    let b0 = s[0];
    let b1 = s[1];
    let b2 = s[2];
    let b3 = s[3];
    let b4 = s[4];
    let b5 = s[5];
    let b6 = s[6];
    let b7 = s[7];
    let x = ((((b0 as u64) << 56) | ((b1 as u64) << 48) | ((b2 as u64) << 40) | ((b3 as u64)
        << 32) | ((b4 as u64) << 24) | ((b5 as u64) << 16) | ((b6 as u64) << 8) | (b7 as u64))
        as u64);
    assert(((x >> 56) & 0xff) as u8 == b0 && ((x >> 48) & 0xff) as u8 == b1 && ((x >> 40) & 0xff)
        as u8 == b2 && ((x >> 32) & 0xff) as u8 == b3 && ((x >> 24) & 0xff) as u8 == b4 && ((x
        >> 16) & 0xff) as u8 == b5 && ((x >> 8) & 0xff) as u8 == b6 && (x & 0xff) as u8 == b7)
        by (bit_vector)
        requires
            x == ((((b0 as u64) << 56) | ((b1 as u64) << 48) | ((b2 as u64) << 40) | ((b3 as u64)
                << 32) | ((b4 as u64) << 24) | ((b5 as u64) << 16) | ((b6 as u64) << 8) | (b7
                as u64)) as u64),
    ;
    assert(spec_u64_to_be_bytes(spec_u64_from_be_bytes(s)) =~= s);
}

/// Appends the two big-endian bytes of `x` to `out`.
pub fn push_u16_be(out: &mut Vec<u8>, x: u16)
    ensures
        final(out)@ == old(out)@ + spec_u16_to_be_bytes(x),
{
    out.push(((x >> 8) & 0xff) as u8);
    out.push((x & 0xff) as u8);
    assert(out@ =~= old(out)@ + spec_u16_to_be_bytes(x));
}

/// Appends the four big-endian bytes of `x` to `out`.
pub fn push_u32_be(out: &mut Vec<u8>, x: u32)
    ensures
        final(out)@ == old(out)@ + spec_u32_to_be_bytes(x),
{
    out.push(((x >> 24) & 0xff) as u8);
    out.push(((x >> 16) & 0xff) as u8);
    out.push(((x >> 8) & 0xff) as u8);
    out.push((x & 0xff) as u8);
    assert(out@ =~= old(out)@ + spec_u32_to_be_bytes(x));
}

/// Appends the eight big-endian bytes of `x` to `out`.
pub fn push_u64_be(out: &mut Vec<u8>, x: u64)
    ensures
        final(out)@ == old(out)@ + spec_u64_to_be_bytes(x),
{
    out.push(((x >> 56) & 0xff) as u8);
    out.push(((x >> 48) & 0xff) as u8);
    out.push(((x >> 40) & 0xff) as u8);
    out.push(((x >> 32) & 0xff) as u8);
    out.push(((x >> 24) & 0xff) as u8);
    out.push(((x >> 16) & 0xff) as u8);
    out.push(((x >> 8) & 0xff) as u8);
    out.push((x & 0xff) as u8);
    assert(out@ =~= old(out)@ + spec_u64_to_be_bytes(x));
}

/// Reads the big-endian `u16` at offset `i` of `b`.
pub fn read_u16_be(b: &[u8], i: usize) -> (x: u16)
    requires
        i + 2 <= b@.len(),
    ensures
        x == spec_u16_from_be_bytes(b@.subrange(i as int, i + 2)),
{
    let x = ((b[i] as u16) << 8) | (b[i + 1] as u16);
    proof {
        let s = b@.subrange(i as int, i + 2);
        assert(s[0] == b@[i as int] && s[1] == b@[i + 1]);
    }
    x
}

/// Reads the big-endian `u32` at offset `i` of `b`.
pub fn read_u32_be(b: &[u8], i: usize) -> (x: u32)
    requires
        i + 4 <= b@.len(),
    ensures
        x == spec_u32_from_be_bytes(b@.subrange(i as int, i + 4)),
{
    let x = ((b[i] as u32) << 24) | ((b[i + 1] as u32) << 16) | ((b[i + 2] as u32) << 8) | (b[i
        + 3] as u32);
    proof {
        let s = b@.subrange(i as int, i + 4);
        assert(s[0] == b@[i as int] && s[1] == b@[i + 1] && s[2] == b@[i + 2] && s[3] == b@[i
            + 3]);
    }
    x
}

/// Reads the big-endian `u64` at offset `i` of `b`.
pub fn read_u64_be(b: &[u8], i: usize) -> (x: u64)
    requires
        i + 8 <= b@.len(),
    ensures
        x == spec_u64_from_be_bytes(b@.subrange(i as int, i + 8)),
{
    let x = ((b[i] as u64) << 56) | ((b[i + 1] as u64) << 48) | ((b[i + 2] as u64) << 40) | ((b[i
        + 3] as u64) << 32) | ((b[i + 4] as u64) << 24) | ((b[i + 5] as u64) << 16) | ((b[i + 6]
        as u64) << 8) | (b[i + 7] as u64);
    proof {
        let s = b@.subrange(i as int, i + 8);
        assert(s[0] == b@[i as int] && s[1] == b@[i + 1] && s[2] == b@[i + 2] && s[3] == b@[i + 3]
            && s[4] == b@[i + 4] && s[5] == b@[i + 5] && s[6] == b@[i + 6] && s[7] == b@[i + 7]);
    }
    x
}

/// Appends all bytes of `src` to `out`.
pub fn push_bytes(out: &mut Vec<u8>, src: &[u8])
    ensures
        final(out)@ == old(out)@ + src@,
{
    let n = src.len();
    let mut i: usize = 0;
    while i < n
        invariant
            n == src@.len(),
            i <= n,
            out@ == old(out)@ + src@.take(i as int),
        decreases n - i,
    {
        out.push(src[i]);
        assert(out@ =~= old(out)@ + src@.take(i + 1));
        i = i + 1;
    }
    assert(src@.take(n as int) =~= src@);
}

/// The 4-byte array holding a 4-byte sequence.
pub open spec fn spec_array_4(s: Seq<u8>) -> [u8; 4]
    recommends
        s.len() == 4,
{
    [s[0], s[1], s[2], s[3]]
}

/// The 20-byte array holding a 20-byte sequence.
pub open spec fn spec_array_20(s: Seq<u8>) -> [u8; 20]
    recommends
        s.len() == 20,
{
    [
        s[0],
        s[1],
        s[2],
        s[3],
        s[4],
        s[5],
        s[6],
        s[7],
        s[8],
        s[9],
        s[10],
        s[11],
        s[12],
        s[13],
        s[14],
        s[15],
        s[16],
        s[17],
        s[18],
        s[19],
    ]
}

pub proof fn lemma_spec_array_4_view(s: Seq<u8>)
    requires
        s.len() == 4,
    ensures
        spec_array_4(s)@ == s,
{
    assert(spec_array_4(s)@ =~= s);
}

pub proof fn lemma_spec_array_20_view(s: Seq<u8>)
    requires
        s.len() == 20,
    ensures
        spec_array_20(s)@ == s,
{
    assert(spec_array_20(s)@ =~= s);
}

/// Reads the four bytes at offset `i` of `b` into an array.
pub fn read_bytes_4(b: &[u8], i: usize) -> (r: [u8; 4])
    requires
        i + 4 <= b@.len(),
    ensures
        r@ == b@.subrange(i as int, i + 4),
        r == spec_array_4(b@.subrange(i as int, i + 4)),
{
    let r = [b[i], b[i + 1], b[i + 2], b[i + 3]];
    proof {
        assert(r@ =~= b@.subrange(i as int, i + 4));
        assert(r =~= spec_array_4(b@.subrange(i as int, i + 4)));
    }
    r
}

/// Reads the twenty bytes at offset `i` of `b` into an array.
pub fn read_bytes_20(b: &[u8], i: usize) -> (r: [u8; 20])
    requires
        i + 20 <= b@.len(),
    ensures
        r@ == b@.subrange(i as int, i + 20),
        r == spec_array_20(b@.subrange(i as int, i + 20)),
{
    let r = [
        b[i],
        b[i + 1],
        b[i + 2],
        b[i + 3],
        b[i + 4],
        b[i + 5],
        b[i + 6],
        b[i + 7],
        b[i + 8],
        b[i + 9],
        b[i + 10],
        b[i + 11],
        b[i + 12],
        b[i + 13],
        b[i + 14],
        b[i + 15],
        b[i + 16],
        b[i + 17],
        b[i + 18],
        b[i + 19],
    ];
    proof {
        assert(r@ =~= b@.subrange(i as int, i + 20));
        assert(r =~= spec_array_20(b@.subrange(i as int, i + 20)));
    }
    r
}

/// The unsigned 32-bit two's-complement image of a signed 32-bit value.
pub open spec fn spec_i32_to_u32_bits(x: i32) -> u32 {
    if x >= 0 {
        x as u32
    } else {
        (x + 0x1_0000_0000) as u32
    }
}

/// The signed 32-bit value whose two's-complement image is `v`.
pub open spec fn spec_u32_bits_to_i32(v: u32) -> i32 {
    if v <= i32::MAX {
        v as i32
    } else {
        (v - 0x1_0000_0000) as i32
    }
}

pub proof fn lemma_i32_u32_bits_roundtrip(x: i32)
    ensures
        spec_u32_bits_to_i32(spec_i32_to_u32_bits(x)) == x,
{
}

pub proof fn lemma_u32_i32_bits_roundtrip(v: u32)
    ensures
        spec_i32_to_u32_bits(spec_u32_bits_to_i32(v)) == v,
{
}

/// Computes the two's-complement `u32` image of `x`.
pub fn i32_to_u32_bits(x: i32) -> (v: u32)
    ensures
        v == spec_i32_to_u32_bits(x),
{
    if x >= 0 {
        x as u32
    } else {
        ((x as i64) + 0x1_0000_0000) as u32
    }
}

/// Recovers the signed value from its two's-complement `u32` image.
pub fn u32_bits_to_i32(v: u32) -> (x: i32)
    ensures
        x == spec_u32_bits_to_i32(v),
{
    if v <= 0x7fff_ffff {
        v as i32
    } else {
        ((v as i64) - 0x1_0000_0000) as i32
    }
}

} // verus!
