//! Byte-level encoding of the integers and floating-point bit patterns of the format.
//!
//! Integers are stored as 4-byte two's complement values, either little or big endian;
//! floating-point values are stored as the 8 little-endian bytes of their IEEE-754 bit
//! pattern, which this library keeps as a `u64`.
use vstd::prelude::*;
use vstd::bytes::*;
use byteorder::{BigEndian, ByteOrder, LittleEndian, WriteBytesExt};

verus! {

/// The 4 little-endian bytes of `n`.
pub open spec fn i32_le_bytes(n: i32) -> Seq<u8> {
    spec_u32_to_le_bytes(n as u32)
}

/// The 4 big-endian bytes of `n`.
pub open spec fn i32_be_bytes(n: i32) -> Seq<u8> {
    spec_u32_to_le_bytes(n as u32).reverse()
}

/// The 8 little-endian bytes of `x`.
pub open spec fn u64_le_bytes(x: u64) -> Seq<u8> {
    spec_u64_to_le_bytes(x)
}

/// The little-endian `i32` stored in the 4 bytes of `s` starting at `pos`.
pub open spec fn i32_le_at(s: Seq<u8>, pos: int) -> i32 {
    spec_u32_from_le_bytes(s.subrange(pos, pos + 4)) as i32
}

/// The big-endian `i32` stored in the 4 bytes of `s` starting at `pos`.
pub open spec fn i32_be_at(s: Seq<u8>, pos: int) -> i32 {
    spec_u32_from_le_bytes(s.subrange(pos, pos + 4).reverse()) as i32
}

/// The little-endian `u64` stored in the 8 bytes of `s` starting at `pos`.
pub open spec fn u64_le_at(s: Seq<u8>, pos: int) -> u64 {
    spec_u64_from_le_bytes(s.subrange(pos, pos + 8))
}

/// `byteorder`'s `LittleEndian::read_i32`: the first 4 bytes of `b` read as a
/// little-endian two's complement integer.
#[verifier::external_body]
fn le_i32(b: &[u8]) -> (r: i32)
    requires
        b@.len() >= 4,
    ensures
        r == spec_u32_from_le_bytes(b@.subrange(0, 4)) as i32,
{
    LittleEndian::read_i32(b)
}

/// `byteorder`'s `BigEndian::read_i32`: the first 4 bytes of `b` read as a
/// big-endian two's complement integer.
#[verifier::external_body]
fn be_i32(b: &[u8]) -> (r: i32)
    requires
        b@.len() >= 4,
    ensures
        r == spec_u32_from_le_bytes(b@.subrange(0, 4).reverse()) as i32,
{
    BigEndian::read_i32(b)
}

/// `byteorder`'s `LittleEndian::read_u64`: the first 8 bytes of `b` read as a
/// little-endian unsigned integer.
#[verifier::external_body]
fn le_u64(b: &[u8]) -> (r: u64)
    requires
        b@.len() >= 8,
    ensures
        r == spec_u64_from_le_bytes(b@.subrange(0, 8)),
{
    LittleEndian::read_u64(b)
}

/// `byteorder`'s `WriteBytesExt::write_i32::<LittleEndian>` on a `Vec<u8>`, which
/// appends the 4 little-endian bytes of `n` (writing to a vector does not fail).
#[verifier::external_body]
pub fn push_i32_le(out: &mut Vec<u8>, n: i32)
    ensures
        final(out)@ == old(out)@ + i32_le_bytes(n),
{
    let _ = out.write_i32::<LittleEndian>(n);
}

/// `byteorder`'s `WriteBytesExt::write_i32::<BigEndian>` on a `Vec<u8>`, which
/// appends the 4 big-endian bytes of `n` (writing to a vector does not fail).
#[verifier::external_body]
pub fn push_i32_be(out: &mut Vec<u8>, n: i32)
    ensures
        final(out)@ == old(out)@ + i32_be_bytes(n),
{
    let _ = out.write_i32::<BigEndian>(n);
}

/// `byteorder`'s `WriteBytesExt::write_u64::<LittleEndian>` on a `Vec<u8>`, which
/// appends the 8 little-endian bytes of `x` (writing to a vector does not fail).
#[verifier::external_body]
pub fn push_u64_le(out: &mut Vec<u8>, x: u64)
    ensures
        final(out)@ == old(out)@ + u64_le_bytes(x),
{
    let _ = out.write_u64::<LittleEndian>(x);
}

/// Reads the little-endian `i32` at `pos`.
pub fn read_i32_le(data: &[u8], pos: usize) -> (r: i32)
    requires
        pos + 4 <= data@.len(),
    ensures
        r == i32_le_at(data@, pos as int),
{
    let len = data.len();
    let b = vstd::slice::slice_subrange(data, pos, pos + 4);
    assert(b@.len() <= len);
    assert(b@.subrange(0, 4) == data@.subrange(pos as int, pos + 4));
    le_i32(b)
}

/// Reads the big-endian `i32` at `pos`.
pub fn read_i32_be(data: &[u8], pos: usize) -> (r: i32)
    requires
        pos + 4 <= data@.len(),
    ensures
        r == i32_be_at(data@, pos as int),
{
    let len = data.len();
    let b = vstd::slice::slice_subrange(data, pos, pos + 4);
    assert(b@.len() <= len);
    assert(b@.subrange(0, 4) == data@.subrange(pos as int, pos + 4));
    be_i32(b)
}

/// Reads the little-endian `u64` at `pos`.
pub fn read_u64_le(data: &[u8], pos: usize) -> (r: u64)
    requires
        pos + 8 <= data@.len(),
    ensures
        r == u64_le_at(data@, pos as int),
{
    let len = data.len();
    let b = vstd::slice::slice_subrange(data, pos, pos + 8);
    assert(b@.len() <= len);
    assert(b@.subrange(0, 8) == data@.subrange(pos as int, pos + 8));
    le_u64(b)
}

/// The encodings have 4 and 8 bytes.
pub proof fn lemma_encoding_lengths(n: i32, x: u64)
    ensures
        i32_le_bytes(n).len() == 4,
        i32_be_bytes(n).len() == 4,
        u64_le_bytes(x).len() == 8,
{
    lemma_auto_spec_u32_to_from_le_bytes();
    lemma_auto_spec_u64_to_from_le_bytes();
    assert(spec_u32_to_le_bytes(n as u32).len() == 4);
    assert(spec_u64_to_le_bytes(x).len() == 8);
}

/// Reading back what was written gives the value written, wherever it stands.
pub proof fn lemma_encoding_roundtrip(pre: Seq<u8>, n: i32, x: u64, post: Seq<u8>)
    ensures
        i32_le_at(pre + i32_le_bytes(n) + post, pre.len() as int) == n,
        i32_be_at(pre + i32_be_bytes(n) + post, pre.len() as int) == n,
        u64_le_at(pre + u64_le_bytes(x) + post, pre.len() as int) == x,
{
    lemma_auto_spec_u32_to_from_le_bytes();
    lemma_auto_spec_u64_to_from_le_bytes();
    lemma_encoding_lengths(n, x);
    let u = n as u32;
    assert(u as i32 == n) by (bit_vector)
        requires
            u == n as u32,
    ;
    let le = i32_le_bytes(n);
    assert((pre + le + post).subrange(pre.len() as int, pre.len() + 4int) == le);
    assert(spec_u32_from_le_bytes(le) == u);
    let be = i32_be_bytes(n);
    assert((pre + be + post).subrange(pre.len() as int, pre.len() + 4int) == be);
    assert(be.reverse() == spec_u32_to_le_bytes(u));
    let b8 = u64_le_bytes(x);
    assert((pre + b8 + post).subrange(pre.len() as int, pre.len() + 8int) == b8);
}

} // verus!
