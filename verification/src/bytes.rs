//! Big-endian integers on the wire.
use vstd::prelude::*;

verus! {

/// The two bytes of `v`, most significant first.
pub open spec fn be16(v: u16) -> Seq<u8> {
    seq![(v / 0x100) as u8, (v % 0x100) as u8]
}

/// The four bytes of `v`, most significant first.
pub open spec fn be32(v: u32) -> Seq<u8> {
    be16((v / 0x1_0000) as u16) + be16((v % 0x1_0000) as u16)
}

/// The eight bytes of `v`, most significant first.
pub open spec fn be64(v: u64) -> Seq<u8> {
    be32((v / 0x1_0000_0000) as u32) + be32((v % 0x1_0000_0000) as u32)
}

/// The number whose big-endian bytes are the first two of `b`.
pub open spec fn from_be16(b: Seq<u8>) -> u16 {
    (b[0] * 0x100 + b[1]) as u16
}

/// The number whose big-endian bytes are the first four of `b`.
pub open spec fn from_be32(b: Seq<u8>) -> u32 {
    (from_be16(b) * 0x1_0000 + from_be16(b.skip(2))) as u32
}

/// The number whose big-endian bytes are the first eight of `b`.
pub open spec fn from_be64(b: Seq<u8>) -> u64 {
    (from_be32(b) * 0x1_0000_0000 + from_be32(b.skip(4))) as u64
}

/// Reading back a 16-bit number gives the number, whatever follows it.
pub proof fn lemma_be16_round_trip(v: u16, rest: Seq<u8>)
    ensures
        from_be16(be16(v) + rest) == v,
{
}

/// Reading back a 32-bit number gives the number, whatever follows it.
pub proof fn lemma_be32_round_trip(v: u32, rest: Seq<u8>)
    ensures
        from_be32(be32(v) + rest) == v,
{
    let hi = (v / 0x1_0000) as u16;
    let lo = (v % 0x1_0000) as u16;
    assert(be32(v) + rest == be16(hi) + (be16(lo) + rest));
    assert((be32(v) + rest).skip(2) == be16(lo) + rest);
    lemma_be16_round_trip(hi, be16(lo) + rest);
    lemma_be16_round_trip(lo, rest);
}

/// Reading back a 64-bit number gives the number, whatever follows it.
pub proof fn lemma_be64_round_trip(v: u64, rest: Seq<u8>)
    ensures
        from_be64(be64(v) + rest) == v,
{
    let hi = (v / 0x1_0000_0000) as u32;
    let lo = (v % 0x1_0000_0000) as u32;
    assert(be64(v) + rest == be32(hi) + (be32(lo) + rest));
    assert((be64(v) + rest).skip(4) == be32(lo) + rest);
    lemma_be32_round_trip(hi, be32(lo) + rest);
    lemma_be32_round_trip(lo, rest);
}

/// Appends the two bytes of `v`.
pub fn put_u16(out: &mut Vec<u8>, v: u16)
    ensures
        final(out)@ == old(out)@ + be16(v),
{
    out.push((v / 0x100) as u8);
    out.push((v % 0x100) as u8);
}

/// Appends the four bytes of `v`.
pub fn put_u32(out: &mut Vec<u8>, v: u32)
    ensures
        final(out)@ == old(out)@ + be32(v),
{
    put_u16(out, (v / 0x1_0000) as u16);
    put_u16(out, (v % 0x1_0000) as u16);
}

/// Appends the eight bytes of `v`.
pub fn put_u64(out: &mut Vec<u8>, v: u64)
    ensures
        final(out)@ == old(out)@ + be64(v),
{
    put_u32(out, (v / 0x1_0000_0000) as u32);
    put_u32(out, (v % 0x1_0000_0000) as u32);
}

/// Appends every byte of `data`.
pub fn put_bytes(out: &mut Vec<u8>, data: &[u8])
    ensures
        final(out)@ == old(out)@ + data@,
{
    let mut i: usize = 0;
    while i < data.len()
        invariant
            i <= data@.len(),
            out@ == old(out)@ + data@.take(i as int),
        decreases data@.len() - i,
    {
        out.push(data[i]);
        i += 1;
    }
    assert(data@.take(i as int) == data@);
}

/// Reads the 16-bit number at `at`.
pub fn get_u16(b: &[u8], at: usize) -> (v: u16)
    requires
        at + 2 <= b.len(),
    ensures
        v == from_be16(b@.skip(at as int)),
{
    b[at] as u16 * 0x100 + b[at + 1] as u16
}

/// Reads the 32-bit number at `at`.
pub fn get_u32(b: &[u8], at: usize) -> (v: u32)
    requires
        at + 4 <= b.len(),
    ensures
        v == from_be32(b@.skip(at as int)),
{
    let hi: u32 = get_u16(b, at) as u32;
    let lo: u32 = get_u16(b, at + 2) as u32;
    assert(b@.skip(at as int).skip(2) == b@.skip(at + 2));
    hi * 0x1_0000 + lo
}

/// Reads the 64-bit number at `at`.
pub fn get_u64(b: &[u8], at: usize) -> (v: u64)
    requires
        at + 8 <= b.len(),
    ensures
        v == from_be64(b@.skip(at as int)),
{
    let hi: u64 = get_u32(b, at) as u64;
    let lo: u64 = get_u32(b, at + 4) as u64;
    assert(b@.skip(at as int).skip(4) == b@.skip(at + 4));
    hi * 0x1_0000_0000 + lo
}

} // verus!
