//! Little- and big-endian byte encodings and the helpers that append them to a buffer.

use vstd::prelude::*;

verus! {

/// Little-endian bytes of a `u16`.
pub open spec fn le16(v: u16) -> Seq<u8> {
    seq![(v & 0xff) as u8, ((v >> 8u16) & 0xff) as u8]
}

/// Big-endian bytes of a `u16`.
pub open spec fn be16(v: u16) -> Seq<u8> {
    seq![((v >> 8u16) & 0xff) as u8, (v & 0xff) as u8]
}

/// Little-endian bytes of a `u32`.
pub open spec fn le32(v: u32) -> Seq<u8> {
    seq![
        (v & 0xff) as u8,
        ((v >> 8u32) & 0xff) as u8,
        ((v >> 16u32) & 0xff) as u8,
        ((v >> 24u32) & 0xff) as u8,
    ]
}

/// Little-endian bytes of a `u64`.
pub open spec fn le64(v: u64) -> Seq<u8> {
    seq![
        (v & 0xff) as u8,
        ((v >> 8u64) & 0xff) as u8,
        ((v >> 16u64) & 0xff) as u8,
        ((v >> 24u64) & 0xff) as u8,
        ((v >> 32u64) & 0xff) as u8,
        ((v >> 40u64) & 0xff) as u8,
        ((v >> 48u64) & 0xff) as u8,
        ((v >> 56u64) & 0xff) as u8,
    ]
}

/// The `u16` whose little-endian bytes are `b0, b1`.
pub open spec fn from_le16(b0: u8, b1: u8) -> u16 {
    (b0 as u16) | ((b1 as u16) << 8u16)
}

/// The `u16` whose big-endian bytes are `b0, b1`.
pub open spec fn from_be16(b0: u8, b1: u8) -> u16 {
    ((b0 as u16) << 8u16) | (b1 as u16)
}

/// The `u32` whose little-endian bytes are `b0..b3`.
pub open spec fn from_le32(b0: u8, b1: u8, b2: u8, b3: u8) -> u32 {
    (b0 as u32) | ((b1 as u32) << 8u32) | ((b2 as u32) << 16u32) | ((b3 as u32) << 24u32)
}

/// The `u64` whose little-endian bytes are the first eight of `s`.
pub open spec fn from_le64(s: Seq<u8>) -> u64
    recommends s.len() >= 8,
{
    (s[0] as u64) | ((s[1] as u64) << 8u64) | ((s[2] as u64) << 16u64) | ((s[3] as u64) << 24u64)
        | ((s[4] as u64) << 32u64) | ((s[5] as u64) << 40u64) | ((s[6] as u64) << 48u64)
        | ((s[7] as u64) << 56u64)
}

/// Decoding the little-endian bytes of a `u16` gives the value back, and a value
/// decoded from two bytes encodes to those bytes.
pub proof fn lemma_le16_roundtrip(v: u16, b0: u8, b1: u8)
    ensures
        from_le16(le16(v)[0], le16(v)[1]) == v,
        le16(from_le16(b0, b1)) == seq![b0, b1],
{
    let x0 = (v & 0xff) as u8;
    let x1 = ((v >> 8u16) & 0xff) as u8;
    assert((((v & 0xff) as u8) as u16) | (((((v >> 8u16) & 0xff) as u8) as u16) << 8u16) == v)
        by (bit_vector);
    let w = from_le16(b0, b1);
    assert((((b0 as u16) | ((b1 as u16) << 8u16)) & 0xff) as u8 == b0) by (bit_vector);
    assert(((((b0 as u16) | ((b1 as u16) << 8u16)) >> 8u16) & 0xff) as u8 == b1) by (bit_vector);
    assert(le16(w) =~= seq![b0, b1]);
}

/// Decoding the big-endian bytes of a `u16` gives the value back, and a value
/// decoded from two bytes encodes to those bytes.
pub proof fn lemma_be16_roundtrip(v: u16, b0: u8, b1: u8)
    ensures
        from_be16(be16(v)[0], be16(v)[1]) == v,
        be16(from_be16(b0, b1)) == seq![b0, b1],
{
    assert(((((v >> 8u16) & 0xff) as u8) as u16) << 8u16 | (((v & 0xff) as u8) as u16) == v)
        by (bit_vector);
    let w = from_be16(b0, b1);
    assert(((((b0 as u16) << 8u16) | (b1 as u16)) & 0xff) as u8 == b1) by (bit_vector);
    assert((((((b0 as u16) << 8u16) | (b1 as u16)) >> 8u16) & 0xff) as u8 == b0) by (bit_vector);
    assert(be16(w) =~= seq![b0, b1]);
}

/// Decoding the little-endian bytes of a `u32` gives the value back.
pub proof fn lemma_le32_roundtrip(v: u32)
    ensures
        from_le32(le32(v)[0], le32(v)[1], le32(v)[2], le32(v)[3]) == v,
{
    assert((((v & 0xff) as u8) as u32) | (((((v >> 8u32) & 0xff) as u8) as u32) << 8u32) | (
    ((((v >> 16u32) & 0xff) as u8) as u32) << 16u32) | (((((v >> 24u32) & 0xff) as u8) as u32)
        << 24u32) == v) by (bit_vector);
}

/// Decoding the little-endian bytes of a `u64` gives the value back.
pub proof fn lemma_le64_roundtrip(v: u64)
    ensures
        from_le64(le64(v)) == v,
{
    assert((((v & 0xff) as u8) as u64) | (((((v >> 8u64) & 0xff) as u8) as u64) << 8u64) | (
    ((((v >> 16u64) & 0xff) as u8) as u64) << 16u64) | (((((v >> 24u64) & 0xff) as u8) as u64)
        << 24u64) | (((((v >> 32u64) & 0xff) as u8) as u64) << 32u64) | (((((v >> 40u64)
        & 0xff) as u8) as u64) << 40u64) | (((((v >> 48u64) & 0xff) as u8) as u64) << 48u64) | (
    ((((v >> 56u64) & 0xff) as u8) as u64) << 56u64) == v) by (bit_vector);
}

/// Reads the `u16` stored little-endian in `b0, b1`.
pub fn read_le16(b0: u8, b1: u8) -> (r: u16)
    ensures
        r == from_le16(b0, b1),
{
    (b0 as u16) | ((b1 as u16) << 8u16)
}

/// Reads the `u16` stored big-endian in `b0, b1`.
pub fn read_be16(b0: u8, b1: u8) -> (r: u16)
    ensures
        r == from_be16(b0, b1),
{
    ((b0 as u16) << 8u16) | (b1 as u16)
}

/// Appends the little-endian bytes of `v`.
pub fn push_le16(out: &mut Vec<u8>, v: u16)
    ensures
        final(out)@ == old(out)@ + le16(v),
{
    out.push((v & 0xff) as u8);
    out.push(((v >> 8u16) & 0xff) as u8);
    assert(out@ =~= old(out)@ + le16(v));
}

/// Appends the big-endian bytes of `v`.
pub fn push_be16(out: &mut Vec<u8>, v: u16)
    ensures
        final(out)@ == old(out)@ + be16(v),
{
    out.push(((v >> 8u16) & 0xff) as u8);
    out.push((v & 0xff) as u8);
    assert(out@ =~= old(out)@ + be16(v));
}

/// Appends the little-endian bytes of `v`.
pub fn push_le32(out: &mut Vec<u8>, v: u32)
    ensures
        final(out)@ == old(out)@ + le32(v),
{
    out.push((v & 0xff) as u8);
    out.push(((v >> 8u32) & 0xff) as u8);
    out.push(((v >> 16u32) & 0xff) as u8);
    out.push(((v >> 24u32) & 0xff) as u8);
    assert(out@ =~= old(out)@ + le32(v));
}

/// Appends the little-endian bytes of `v`.
pub fn push_le64(out: &mut Vec<u8>, v: u64)
    ensures
        final(out)@ == old(out)@ + le64(v),
{
    out.push((v & 0xff) as u8);
    out.push(((v >> 8u64) & 0xff) as u8);
    out.push(((v >> 16u64) & 0xff) as u8);
    out.push(((v >> 24u64) & 0xff) as u8);
    out.push(((v >> 32u64) & 0xff) as u8);
    out.push(((v >> 40u64) & 0xff) as u8);
    out.push(((v >> 48u64) & 0xff) as u8);
    out.push(((v >> 56u64) & 0xff) as u8);
    assert(out@ =~= old(out)@ + le64(v));
}

/// Appends every byte of `s`, in order.
pub fn push_slice(out: &mut Vec<u8>, s: &[u8])
    ensures
        final(out)@ == old(out)@ + s@,
{
    let n = s.len();
    let mut i: usize = 0;
    while i < n
        invariant
            n == s@.len(),
            i <= n,
            out@ == old(out)@ + s@.subrange(0, i as int),
        decreases n - i,
    {
        out.push(s[i]);
        i = i + 1;
        assert(out@ =~= old(out)@ + s@.subrange(0, i as int));
    }
    assert(s@.subrange(0, n as int) =~= s@);
}

/// Appends `n` zero bytes.
pub fn push_zeros(out: &mut Vec<u8>, n: usize)
    ensures
        final(out)@ == old(out)@ + Seq::new(n as nat, |i: int| 0u8),
{
    let mut i: usize = 0;
    while i < n
        invariant
            i <= n,
            out@ == old(out)@ + Seq::new(i as nat, |k: int| 0u8),
        decreases n - i,
    {
        out.push(0u8);
        i = i + 1;
        assert(out@ =~= old(out)@ + Seq::new(i as nat, |k: int| 0u8));
    }
}

/// A copy of the bytes of `s` from `start` (inclusive) to `end` (exclusive).
pub fn copy_range(s: &[u8], start: usize, end: usize) -> (r: Vec<u8>)
    requires
        start <= end <= s@.len(),
    ensures
        r@ == s@.subrange(start as int, end as int),
{
    let mut r: Vec<u8> = Vec::new();
    let mut i: usize = start;
    while i < end
        invariant
            start <= i <= end,
            end <= s@.len(),
            r@ == s@.subrange(start as int, i as int),
        decreases end - i,
    {
        r.push(s[i]);
        i = i + 1;
        assert(r@ =~= s@.subrange(start as int, i as int));
    }
    r
}

/// `s` cut or padded with zeros to exactly `n` bytes.
pub open spec fn spec_fit(s: Seq<u8>, n: int) -> Seq<u8> {
    if s.len() >= n {
        s.subrange(0, n)
    } else {
        s + Seq::new((n - s.len()) as nat, |i: int| 0u8)
    }
}

/// `v` cut or padded with zeros to exactly `n` bytes.
pub fn fit_to(v: Vec<u8>, n: usize) -> (r: Vec<u8>)
    ensures
        r@ == spec_fit(v@, n as int),
{
    let mut v = v;
    if v.len() >= n {
        v.truncate(n);
        v
    } else {
        let k = n - v.len();
        push_zeros(&mut v, k);
        v
    }
}

} // verus!
