//! Big-endian byte models shared by every codec of the crate.
//!
//! Everything on a PROFINET wire is big-endian ("Motorola" order). The spec
//! functions here say what the encoding of a 16- or 32-bit value is; the exec
//! helpers append or read such encodings and are proved against them.
use vstd::prelude::*;

verus! {

/// Big-endian encoding of a 16-bit value.
pub open spec fn be16(v: u16) -> Seq<u8> {
    seq![(v / 256) as u8, (v % 256) as u8]
}

/// Big-endian encoding of a 32-bit value.
pub open spec fn be32(v: u32) -> Seq<u8> {
    seq![
        (v / 0x100_0000) as u8,
        ((v / 0x1_0000) % 256) as u8,
        ((v / 256) % 256) as u8,
        (v % 256) as u8,
    ]
}

/// The 16-bit value whose big-endian encoding starts at `s[i]`.
pub open spec fn be16_at(s: Seq<u8>, i: int) -> u16 {
    (s[i] as int * 256 + s[i + 1] as int) as u16
}

/// The 32-bit value whose big-endian encoding starts at `s[i]`.
pub open spec fn be32_at(s: Seq<u8>, i: int) -> u32 {
    (s[i] as int * 0x100_0000 + s[i + 1] as int * 0x1_0000 + s[i + 2] as int * 256
        + s[i + 3] as int) as u32
}

/// Reading back a 16-bit encoding gives the value that was encoded.
pub proof fn lemma_be16_roundtrip(v: u16)
    ensures
        be16(v).len() == 2,
        be16_at(be16(v), 0) == v,
{
}

/// Reading back a 32-bit encoding gives the value that was encoded.
pub proof fn lemma_be32_roundtrip(v: u32)
    ensures
        be32(v).len() == 4,
        be32_at(be32(v), 0) == v,
{
}

/// Encoding the 16-bit value read from two bytes gives those two bytes back.
pub proof fn lemma_be16_of_bytes(s: Seq<u8>, i: int)
    requires
        0 <= i,
        i + 2 <= s.len(),
    ensures
        be16(be16_at(s, i)) == s.subrange(i, i + 2),
{
    assert(be16(be16_at(s, i)) =~= s.subrange(i, i + 2));
}

/// Encoding the 32-bit value read from four bytes gives those four bytes back.
pub proof fn lemma_be32_of_bytes(s: Seq<u8>, i: int)
    requires
        0 <= i,
        i + 4 <= s.len(),
    ensures
        be32(be32_at(s, i)) == s.subrange(i, i + 4),
{
    let b0 = s[i] as int;
    let b1 = s[i + 1] as int;
    let b2 = s[i + 2] as int;
    let b3 = s[i + 3] as int;
    lemma_split_be32(b0, b1, b2, b3);
    assert(be32(be32_at(s, i)) =~= s.subrange(i, i + 4));
}

proof fn lemma_split_be32(b0: int, b1: int, b2: int, b3: int)
    requires
        0 <= b0 < 256,
        0 <= b1 < 256,
        0 <= b2 < 256,
        0 <= b3 < 256,
    ensures
        ({
            let x = b0 * 0x100_0000 + b1 * 0x1_0000 + b2 * 256 + b3;
            &&& 0 <= x < 0x1_0000_0000
            &&& x / 0x100_0000 == b0
            &&& (x / 0x1_0000) % 256 == b1
            &&& (x / 256) % 256 == b2
            &&& x % 256 == b3
        }),
{
    let x = b0 * 0x100_0000 + b1 * 0x1_0000 + b2 * 256 + b3;
    assert(x / 0x100_0000 == b0) by (nonlinear_arith)
        requires
            x == b0 * 0x100_0000 + b1 * 0x1_0000 + b2 * 256 + b3,
            0 <= b1 < 256,
            0 <= b2 < 256,
            0 <= b3 < 256,
    ;
    assert(x / 0x1_0000 == b0 * 256 + b1) by (nonlinear_arith)
        requires
            x == b0 * 0x100_0000 + b1 * 0x1_0000 + b2 * 256 + b3,
            0 <= b2 < 256,
            0 <= b3 < 256,
    ;
    assert(x / 256 == b0 * 0x1_0000 + b1 * 256 + b2) by (nonlinear_arith)
        requires
            x == b0 * 0x100_0000 + b1 * 0x1_0000 + b2 * 256 + b3,
            0 <= b3 < 256,
    ;
}

/// Reads the 16-bit big-endian value at `buf[i]`.
pub fn read_be16(buf: &[u8], i: usize) -> (v: u16)
    requires
        i + 2 <= buf@.len(),
    ensures
        v == be16_at(buf@, i as int),
{
    (buf[i] as u16) * 256 + (buf[i + 1] as u16)
}

/// Reads the 32-bit big-endian value at `buf[i]`.
pub fn read_be32(buf: &[u8], i: usize) -> (v: u32)
    requires
        i + 4 <= buf@.len(),
    ensures
        v == be32_at(buf@, i as int),
{
    (buf[i] as u32) * 0x100_0000 + (buf[i + 1] as u32) * 0x1_0000 + (buf[i + 2] as u32) * 256
        + (buf[i + 3] as u32)
}

/// Appends the big-endian encoding of `v` to `out`.
pub fn push_be16(out: &mut Vec<u8>, v: u16)
    ensures
        final(out)@ == old(out)@ + be16(v),
{
    out.push((v / 256) as u8);
    out.push((v % 256) as u8);
    assert(final(out)@ =~= old(out)@ + be16(v));
}

/// Appends the big-endian encoding of `v` to `out`.
pub fn push_be32(out: &mut Vec<u8>, v: u32)
    ensures
        final(out)@ == old(out)@ + be32(v),
{
    out.push((v / 0x100_0000) as u8);
    out.push(((v / 0x1_0000) % 256) as u8);
    out.push(((v / 256) % 256) as u8);
    out.push((v % 256) as u8);
    assert(final(out)@ =~= old(out)@ + be32(v));
}

/// Appends every byte of `bytes` to `out`.
pub fn push_bytes(out: &mut Vec<u8>, bytes: &[u8])
    ensures
        final(out)@ == old(out)@ + bytes@,
{
    let ghost start = out@;
    let mut i: usize = 0;
    while i < bytes.len()
        invariant
            i <= bytes@.len(),
            out@ == start + bytes@.take(i as int),
        decreases bytes@.len() - i,
    {
        out.push(bytes[i]);
        i = i + 1;
        assert(out@ =~= start + bytes@.take(i as int));
    }
    assert(bytes@.take(i as int) =~= bytes@);
}

} // verus!
