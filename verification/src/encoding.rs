//! The strict deterministic binary encoding of all consensus data.
//!
//! Integers are little-endian and fixed width; bounded containers carry a
//! length prefix of the narrowest unsigned width that fits the container's
//! maximum; maps and sets are sorted ascending by key and reject
//! duplicates; a tagged union spends one byte on its discriminant; and a
//! complete decode rejects any trailing byte.
//!
//! Every encoder has a spec-level byte sequence (`enc_*`), every decoder a
//! spec-level partial inverse (`dec_*`); the `lemma_*_roundtrip` lemmas
//! prove that decoding an encoding yields the original value and consumes
//! exactly its bytes.

use vstd::prelude::*;
use vstd::bytes::*;

verus! {

/// Why a decode failed.
#[derive(Clone, Copy, PartialEq, Eq, Structural, Debug)]
pub enum DecodeError {
    /// The input ended before the declared data.
    Truncated,
    /// A map or set key was repeated or out of ascending order.
    RepeatedKey,
    /// Bytes remained after the complete value was read.
    TrailingData,
    /// A union discriminant byte named no variant.
    UnknownTag,
    /// A declared length exceeded the container's bound.
    Oversize,
}

// ---------------------------------------------------------------- u8

/// The one-byte encoding of a `u8`.
pub open spec fn enc_u8(v: u8) -> Seq<u8> {
    seq![v]
}

/// Reads one byte at `pos`.
pub open spec fn dec_u8(d: Seq<u8>, pos: int) -> Option<(u8, int)> {
    if 0 <= pos && pos + 1 <= d.len() {
        Some((d[pos], pos + 1))
    } else {
        None
    }
}

pub proof fn lemma_u8_roundtrip(v: u8, prefix: Seq<u8>, rest: Seq<u8>)
    ensures
        dec_u8(prefix + enc_u8(v) + rest, prefix.len() as int) == Some(
            (v, prefix.len() + 1 as int),
        ),
{
    assert((prefix + enc_u8(v) + rest)[prefix.len() as int] == v);
}

/// Appends the encoding of `v` to `out`.
pub fn write_u8(out: &mut Vec<u8>, v: u8)
    ensures
        final(out)@ == old(out)@ + enc_u8(v),
{
    out.push(v);
    assert(out@ =~= old(out)@ + enc_u8(v));
}

/// Reads a `u8` at `pos`, returning it with the next position.
pub fn read_u8(d: &Vec<u8>, pos: usize) -> (r: Option<(u8, usize)>)
    ensures
        match r {
            Some((v, p)) => dec_u8(d@, pos as int) == Some((v, p as int)),
            None => dec_u8(d@, pos as int) is None,
        },
{
    if pos < d.len() {
        Some((d[pos], pos + 1))
    } else {
        None
    }
}

// ---------------------------------------------------------------- u16

/// The two-byte little-endian encoding of a `u16`.
pub open spec fn enc_u16(v: u16) -> Seq<u8> {
    spec_u16_to_le_bytes(v)
}

/// Reads a little-endian `u16` at `pos`.
pub open spec fn dec_u16(d: Seq<u8>, pos: int) -> Option<(u16, int)> {
    if 0 <= pos && pos + 2 <= d.len() {
        Some((spec_u16_from_le_bytes(d.subrange(pos, pos + 2)), pos + 2))
    } else {
        None
    }
}

pub proof fn lemma_u16_roundtrip(v: u16, prefix: Seq<u8>, rest: Seq<u8>)
    ensures
        dec_u16(prefix + enc_u16(v) + rest, prefix.len() as int) == Some(
            (v, prefix.len() + 2 as int),
        ),
{
    lemma_auto_spec_u16_to_from_le_bytes();
    assert((prefix + enc_u16(v) + rest).subrange(
        prefix.len() as int,
        prefix.len() + 2 as int,
    ) =~= enc_u16(v));
}

/// Appends the encoding of `v` to `out`.
pub fn write_u16(out: &mut Vec<u8>, v: u16)
    ensures
        final(out)@ == old(out)@ + enc_u16(v),
{
    let mut b = u16_to_le_bytes(v);
    out.append(&mut b);
    assert(out@ =~= old(out)@ + enc_u16(v));
}

/// Reads a `u16` at `pos`, returning it with the next position.
pub fn read_u16(d: &Vec<u8>, pos: usize) -> (r: Option<(u16, usize)>)
    ensures
        match r {
            Some((v, p)) => dec_u16(d@, pos as int) == Some((v, p as int)),
            None => dec_u16(d@, pos as int) is None,
        },
{
    if pos < d.len() && 2 <= d.len() - pos {
        let s = vstd::slice::slice_subrange(d.as_slice(), pos, pos + 2);
        Some((u16_from_le_bytes(s), pos + 2))
    } else {
        None
    }
}

// ---------------------------------------------------------------- u32

/// The four-byte little-endian encoding of a `u32`.
pub open spec fn enc_u32(v: u32) -> Seq<u8> {
    spec_u32_to_le_bytes(v)
}

/// Reads a little-endian `u32` at `pos`.
pub open spec fn dec_u32(d: Seq<u8>, pos: int) -> Option<(u32, int)> {
    if 0 <= pos && pos + 4 <= d.len() {
        Some((spec_u32_from_le_bytes(d.subrange(pos, pos + 4)), pos + 4))
    } else {
        None
    }
}

pub proof fn lemma_u32_roundtrip(v: u32, prefix: Seq<u8>, rest: Seq<u8>)
    ensures
        dec_u32(prefix + enc_u32(v) + rest, prefix.len() as int) == Some(
            (v, prefix.len() + 4 as int),
        ),
{
    lemma_auto_spec_u32_to_from_le_bytes();
    assert((prefix + enc_u32(v) + rest).subrange(
        prefix.len() as int,
        prefix.len() + 4 as int,
    ) =~= enc_u32(v));
}

/// Appends the encoding of `v` to `out`.
pub fn write_u32(out: &mut Vec<u8>, v: u32)
    ensures
        final(out)@ == old(out)@ + enc_u32(v),
{
    let mut b = u32_to_le_bytes(v);
    out.append(&mut b);
    assert(out@ =~= old(out)@ + enc_u32(v));
}

/// Reads a `u32` at `pos`, returning it with the next position.
pub fn read_u32(d: &Vec<u8>, pos: usize) -> (r: Option<(u32, usize)>)
    ensures
        match r {
            Some((v, p)) => dec_u32(d@, pos as int) == Some((v, p as int)),
            None => dec_u32(d@, pos as int) is None,
        },
{
    if pos < d.len() && 4 <= d.len() - pos {
        let s = vstd::slice::slice_subrange(d.as_slice(), pos, pos + 4);
        Some((u32_from_le_bytes(s), pos + 4))
    } else {
        None
    }
}

// ---------------------------------------------------------------- u64

/// The eight-byte little-endian encoding of a `u64`.
pub open spec fn enc_u64(v: u64) -> Seq<u8> {
    spec_u64_to_le_bytes(v)
}

/// Reads a little-endian `u64` at `pos`.
pub open spec fn dec_u64(d: Seq<u8>, pos: int) -> Option<(u64, int)> {
    if 0 <= pos && pos + 8 <= d.len() {
        Some((spec_u64_from_le_bytes(d.subrange(pos, pos + 8)), pos + 8))
    } else {
        None
    }
}

pub proof fn lemma_u64_roundtrip(v: u64, prefix: Seq<u8>, rest: Seq<u8>)
    ensures
        dec_u64(prefix + enc_u64(v) + rest, prefix.len() as int) == Some(
            (v, prefix.len() + 8 as int),
        ),
{
    lemma_auto_spec_u64_to_from_le_bytes();
    assert((prefix + enc_u64(v) + rest).subrange(
        prefix.len() as int,
        prefix.len() + 8 as int,
    ) =~= enc_u64(v));
}

/// Appends the encoding of `v` to `out`.
pub fn write_u64(out: &mut Vec<u8>, v: u64)
    ensures
        final(out)@ == old(out)@ + enc_u64(v),
{
    let mut b = u64_to_le_bytes(v);
    out.append(&mut b);
    assert(out@ =~= old(out)@ + enc_u64(v));
}

/// Reads a `u64` at `pos`, returning it with the next position.
pub fn read_u64(d: &Vec<u8>, pos: usize) -> (r: Option<(u64, usize)>)
    ensures
        match r {
            Some((v, p)) => dec_u64(d@, pos as int) == Some((v, p as int)),
            None => dec_u64(d@, pos as int) is None,
        },
{
    if pos < d.len() && 8 <= d.len() - pos {
        let s = vstd::slice::slice_subrange(d.as_slice(), pos, pos + 8);
        Some((u64_from_le_bytes(s), pos + 8))
    } else {
        None
    }
}

// ---------------------------------------------------------------- i64

/// The eight-byte little-endian two's-complement encoding of an `i64`.
pub open spec fn enc_i64(v: i64) -> Seq<u8> {
    enc_u64(v as u64)
}

/// Reads a little-endian `i64` at `pos`.
pub open spec fn dec_i64(d: Seq<u8>, pos: int) -> Option<(i64, int)> {
    match dec_u64(d, pos) {
        Some((v, p)) => Some((v as i64, p)),
        None => None,
    }
}

pub proof fn lemma_i64_roundtrip(v: i64, prefix: Seq<u8>, rest: Seq<u8>)
    ensures
        dec_i64(prefix + enc_i64(v) + rest, prefix.len() as int) == Some(
            (v, prefix.len() + 8 as int),
        ),
{
    lemma_u64_roundtrip(v as u64, prefix, rest);
    assert(v as u64 as i64 == v) by (bit_vector);
}

/// Appends the encoding of `v` to `out`.
pub fn write_i64(out: &mut Vec<u8>, v: i64)
    ensures
        final(out)@ == old(out)@ + enc_i64(v),
{
    write_u64(out, v as u64);
}

/// Reads an `i64` at `pos`, returning it with the next position.
pub fn read_i64(d: &Vec<u8>, pos: usize) -> (r: Option<(i64, usize)>)
    ensures
        match r {
            Some((v, p)) => dec_i64(d@, pos as int) == Some((v, p as int)),
            None => dec_i64(d@, pos as int) is None,
        },
{
    match read_u64(d, pos) {
        Some((v, p)) => Some((v as i64, p)),
        None => None,
    }
}

// ---------------------------------------------------------------- 32-byte arrays

/// The raw 32-byte encoding of a 32-byte array.
pub open spec fn enc_bytes32(v: [u8; 32]) -> Seq<u8> {
    v@
}

/// Reads 32 raw bytes at `pos`.
pub open spec fn dec_bytes32(d: Seq<u8>, pos: int) -> Option<(Seq<u8>, int)> {
    if 0 <= pos && pos + 32 <= d.len() {
        Some((d.subrange(pos, pos + 32), pos + 32))
    } else {
        None
    }
}

pub proof fn lemma_bytes32_roundtrip(v: [u8; 32], prefix: Seq<u8>, rest: Seq<u8>)
    ensures
        dec_bytes32(prefix + enc_bytes32(v) + rest, prefix.len() as int) == Some(
            (v@, prefix.len() + 32 as int),
        ),
{
    assert((prefix + enc_bytes32(v) + rest).subrange(
        prefix.len() as int,
        prefix.len() + 32 as int,
    ) =~= v@);
}

/// Appends the 32 bytes of `v` to `out`.
pub fn write_bytes32(out: &mut Vec<u8>, v: &[u8; 32])
    ensures
        final(out)@ == old(out)@ + enc_bytes32(*v),
{
    out.extend_from_slice(v.as_slice());
    assert(out@ =~= old(out)@ + enc_bytes32(*v));
}

/// Reads a 32-byte array at `pos`, returning it with the next position.
pub fn read_bytes32(d: &Vec<u8>, pos: usize) -> (r: Option<([u8; 32], usize)>)
    ensures
        match r {
            Some((v, p)) => dec_bytes32(d@, pos as int) == Some((v@, p as int)),
            None => dec_bytes32(d@, pos as int) is None,
        },
{
    if pos < d.len() && 32 <= d.len() - pos {
        let s = vstd::slice::slice_subrange(d.as_slice(), pos, pos + 32);
        let mut v: [u8; 32] = [0; 32];
        let mut i: usize = 0;
        while i < 32
            invariant
                i <= 32,
                s@.len() == 32,
                v@.len() == 32,
                forall|j: int| 0 <= j < i ==> v@[j] == s@[j],
            decreases 32 - i,
        {
            v.set(i, s[i]);
            i = i + 1;
        }
        assert(v@ =~= d@.subrange(pos as int, pos + 32 as int));
        Some((v, pos + 32))
    } else {
        None
    }
}

} // verus!
