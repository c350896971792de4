//! Encoding/decoding of PROFINET process types.
//!
//! Every multi-byte type is big-endian ("Motorola" order), the same as the
//! Siemens memory layout: no word swap is needed. `INT` is a 16-bit two's
//! complement integer, `WORD` a 16-bit unsigned one, `DINT` a 32-bit two's
//! complement integer.
use vstd::prelude::*;
use vstd::slice::{slice_subrange, slice_to_vec};

use crate::wire::{
    be16, be16_at, be32, be32_at, lemma_be16_of_bytes, lemma_be16_roundtrip,
    lemma_be32_of_bytes, lemma_be32_roundtrip,
};

verus! {

/// The process types.
#[derive(Debug, Clone, Copy, PartialEq, Eq)]
pub enum FieldType {
    Bool,
    Int,
    Word,
    Dint,
    Real,
}

impl FieldType {
    /// Size in bytes of the byte-aligned types; `None` for `Bool` (bit-packed).
    pub fn byte_len(self) -> (r: Option<usize>)
        ensures
            r == match self {
                FieldType::Bool => None,
                FieldType::Int | FieldType::Word => Some(2usize),
                FieldType::Dint | FieldType::Real => Some(4usize),
            },
    {
        match self {
            FieldType::Bool => None,
            FieldType::Int | FieldType::Word => Some(2),
            FieldType::Dint | FieldType::Real => Some(4),
        }
    }
}

/// Encoding/decoding errors.
#[derive(Debug, Clone, Copy, PartialEq, Eq)]
pub enum CodecError {
    TooShort { need: usize, have: usize },
    BitOutOfRange { bit: usize, bytes: usize },
}

/// Two's complement bit pattern of a 16-bit integer.
pub open spec fn i16_bits(v: i16) -> u16 {
    if v < 0 {
        (v + 0x1_0000) as u16
    } else {
        v as u16
    }
}

/// The 16-bit integer with two's complement bit pattern `u`.
pub open spec fn i16_of_bits(u: u16) -> i16 {
    if u >= 0x8000 {
        (u - 0x1_0000) as i16
    } else {
        u as i16
    }
}

/// Two's complement bit pattern of a 32-bit integer.
pub open spec fn i32_bits(v: i32) -> u32 {
    if v < 0 {
        (v + 0x1_0000_0000) as u32
    } else {
        v as u32
    }
}

/// The 32-bit integer with two's complement bit pattern `u`.
pub open spec fn i32_of_bits(u: u32) -> i32 {
    if u >= 0x8000_0000 {
        (u - 0x1_0000_0000) as i32
    } else {
        u as i32
    }
}

/// Big-endian encoding of an `INT`.
pub fn encode_i16(v: i16) -> (r: [u8; 2])
    ensures
        r@ == be16(i16_bits(v)),
{
    let u: u16 = if v < 0 {
        (v as i32 + 0x1_0000) as u16
    } else {
        v as u16
    };
    let r = [(u / 256) as u8, (u % 256) as u8];
    assert(r@ =~= be16(i16_bits(v)));
    r
}

/// Big-endian encoding of a `WORD`.
pub fn encode_u16(v: u16) -> (r: [u8; 2])
    ensures
        r@ == be16(v),
{
    let r = [(v / 256) as u8, (v % 256) as u8];
    assert(r@ =~= be16(v));
    r
}

/// Big-endian encoding of a `DINT`.
pub fn encode_i32(v: i32) -> (r: [u8; 4])
    ensures
        r@ == be32(i32_bits(v)),
{
    let u: u32 = if v < 0 {
        (v as i64 + 0x1_0000_0000) as u32
    } else {
        v as u32
    };
    let r = [
        (u / 0x100_0000) as u8,
        ((u / 0x1_0000) % 256) as u8,
        ((u / 256) % 256) as u8,
        (u % 256) as u8,
    ];
    assert(r@ =~= be32(i32_bits(v)));
    r
}

/// The error for a buffer of `have` bytes when `need` are required, if any.
pub open spec fn length_error(have: int, need: usize) -> Option<CodecError> {
    if have < need {
        Some(CodecError::TooShort { need, have: have as usize })
    } else {
        None
    }
}

/// Copies the first `n` bytes of `b`, or returns `TooShort`.
pub fn take(b: &[u8], n: usize) -> (r: Result<Vec<u8>, CodecError>)
    ensures
        match r {
            Ok(v) => length_error(b@.len() as int, n) is None && v@ == b@.take(n as int),
            Err(e) => length_error(b@.len() as int, n) == Some(e),
        },
{
    if b.len() < n {
        return Err(CodecError::TooShort { need: n, have: b.len() });
    }
    Ok(slice_to_vec(slice_subrange(b, 0, n)))
}

/// Decodes an `INT` from the first two bytes of `b` (extra bytes are ignored).
pub fn decode_i16(b: &[u8]) -> (r: Result<i16, CodecError>)
    ensures
        match r {
            Ok(v) => length_error(b@.len() as int, 2) is None && v == i16_of_bits(be16_at(b@, 0)),
            Err(e) => length_error(b@.len() as int, 2) == Some(e),
        },
{
    let a = take(b, 2)?;
    let u: u16 = (a[0] as u16) * 256 + (a[1] as u16);
    if u >= 0x8000 {
        Ok((u as i32 - 0x1_0000) as i16)
    } else {
        Ok(u as i16)
    }
}

/// Decodes a `WORD` from the first two bytes of `b` (extra bytes are ignored).
pub fn decode_u16(b: &[u8]) -> (r: Result<u16, CodecError>)
    ensures
        match r {
            Ok(v) => length_error(b@.len() as int, 2) is None && v == be16_at(b@, 0),
            Err(e) => length_error(b@.len() as int, 2) == Some(e),
        },
{
    let a = take(b, 2)?;
    Ok((a[0] as u16) * 256 + (a[1] as u16))
}

/// Decodes a `DINT` from the first four bytes of `b` (extra bytes are ignored).
pub fn decode_i32(b: &[u8]) -> (r: Result<i32, CodecError>)
    ensures
        match r {
            Ok(v) => length_error(b@.len() as int, 4) is None && v == i32_of_bits(be32_at(b@, 0)),
            Err(e) => length_error(b@.len() as int, 4) == Some(e),
        },
{
    let a = take(b, 4)?;
    let u: u32 = (a[0] as u32) * 0x100_0000 + (a[1] as u32) * 0x1_0000 + (a[2] as u32) * 256
        + (a[3] as u32);
    if u >= 0x8000_0000 {
        Ok((u as i64 - 0x1_0000_0000) as i32)
    } else {
        Ok(u as i32)
    }
}

/// Law: decoding what was encoded gives the value back, for `INT`, `WORD` and
/// `DINT`; the encodings have the type's byte length.
pub proof fn lemma_codec_roundtrip(a: i16, w: u16, d: i32)
    ensures
        be16(i16_bits(a)).len() == 2,
        i16_of_bits(be16_at(be16(i16_bits(a)), 0)) == a,
        be16(w).len() == 2,
        be16_at(be16(w), 0) == w,
        be32(i32_bits(d)).len() == 4,
        i32_of_bits(be32_at(be32(i32_bits(d)), 0)) == d,
{
    lemma_be16_roundtrip(i16_bits(a));
    lemma_be16_roundtrip(w);
    lemma_be32_roundtrip(i32_bits(d));
}

/// Bit `i` of a process image, BOOL values being packed LSB-first: bit `i % 8`
/// (counted from the least significant) of byte `i / 8`.
pub open spec fn bit_at(s: Seq<u8>, i: int) -> bool {
    (s[i / 8] >> ((i % 8) as u8)) & 1u8 == 1u8
}

/// The error for a bit index past the end of a buffer of `bytes` bytes.
pub open spec fn bit_error(bit: usize, bytes: usize) -> CodecError {
    CodecError::BitOutOfRange { bit, bytes }
}

/// Reads BOOL number `bit` of `buf` (LSB-first packing).
pub fn get_bit(buf: &[u8], bit: usize) -> (r: Result<bool, CodecError>)
    ensures
        bit / 8 < buf@.len() ==> r == Ok::<bool, CodecError>(bit_at(buf@, bit as int)),
        bit / 8 >= buf@.len() ==> r == Err::<bool, CodecError>(bit_error(bit, buf@.len() as usize)),
{
    let byte = bit / 8;
    if byte >= buf.len() {
        return Err(CodecError::BitOutOfRange { bit, bytes: buf.len() });
    }
    let shift = (bit % 8) as u8;
    Ok((buf[byte] >> shift) & 1 == 1)
}

proof fn lemma_set_bit_in_byte(x: u8, k: u8, m: u8)
    requires
        k < 8,
        m < 8,
    ensures
        ((x | (1u8 << k)) >> m) & 1u8 == (if m == k { 1u8 } else { (x >> m) & 1u8 }),
        ((x & !(1u8 << k)) >> m) & 1u8 == (if m == k { 0u8 } else { (x >> m) & 1u8 }),
{
    assert(((x | (1u8 << k)) >> m) & 1u8 == (if m == k { 1u8 } else { (x >> m) & 1u8 }))
        by (bit_vector)
        requires
            k < 8,
            m < 8,
    ;
    assert(((x & !(1u8 << k)) >> m) & 1u8 == (if m == k { 0u8 } else { (x >> m) & 1u8 }))
        by (bit_vector)
        requires
            k < 8,
            m < 8,
    ;
}

/// Writes BOOL number `bit` of `buf` (LSB-first packing); every other bit is left
/// as it was.
pub fn set_bit(buf: &mut [u8], bit: usize, value: bool) -> (r: Result<(), CodecError>)
    ensures
        final(buf)@.len() == old(buf)@.len(),
        bit / 8 < old(buf)@.len() ==> r is Ok && forall|j: int|
            0 <= j < 8 * old(buf)@.len() ==> #[trigger] bit_at(final(buf)@, j) == if j == bit {
                value
            } else {
                bit_at(old(buf)@, j)
            },
        bit / 8 >= old(buf)@.len() ==> r == Err::<(), CodecError>(bit_error(bit, old(buf)@.len() as usize))
            && final(buf)@ == old(buf)@,
{
    let byte = bit / 8;
    if byte >= buf.len() {
        return Err(CodecError::BitOutOfRange { bit, bytes: buf.len() });
    }
    let k = (bit % 8) as u8;
    let mask = 1u8 << k;
    let x = buf[byte];
    let y = if value {
        x | mask
    } else {
        x & !mask
    };
    buf[byte] = y;
    proof {
        assert forall|j: int| 0 <= j < 8 * old(buf)@.len() implies #[trigger] bit_at(buf@, j) == if j
            == bit {
            value
        } else {
            bit_at(old(buf)@, j)
        } by {
            let m = (j % 8) as u8;
            if j / 8 == byte {
                lemma_set_bit_in_byte(x, k, m);
                assert((j == bit) == (m == k));
            } else {
                assert(buf@[j / 8] == old(buf)@[j / 8]);
            }
        }
    }
    Ok(())
}

/// Law: encoding a decoded value gives back the bytes it was decoded from (the
/// first two bytes for `INT` and `WORD`, the first four for `DINT`).
pub proof fn lemma_codec_bytes_roundtrip(b: Seq<u8>)
    ensures
        b.len() >= 2 ==> be16(i16_bits(i16_of_bits(be16_at(b, 0)))) == b.take(2),
        b.len() >= 2 ==> be16(be16_at(b, 0)) == b.take(2),
        b.len() >= 4 ==> be32(i32_bits(i32_of_bits(be32_at(b, 0)))) == b.take(4),
{
    if b.len() >= 2 {
        lemma_be16_of_bytes(b, 0);
        assert(b.subrange(0, 2) =~= b.take(2));
    }
    if b.len() >= 4 {
        lemma_be32_of_bytes(b, 0);
        assert(b.subrange(0, 4) =~= b.take(4));
    }
}

} // verus!
