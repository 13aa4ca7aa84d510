//! Little-endian integers in byte sequences.
use byteorder::{ByteOrder, LittleEndian, WriteBytesExt};
use vstd::prelude::*;

verus! {

/// The two bytes of `x`, least significant first.
#[verifier::opaque]
pub open spec fn u16_bytes(x: u16) -> Seq<u8> {
    seq![(x % 256) as u8, (x / 256) as u8]
}

/// The four bytes of `x`, least significant first.
#[verifier::opaque]
pub open spec fn u32_bytes(x: u32) -> Seq<u8> {
    seq![
        (x % 256) as u8,
        (x / 0x100 % 256) as u8,
        (x / 0x1_0000 % 256) as u8,
        (x / 0x100_0000) as u8,
    ]
}

/// The eight bytes of `x`, least significant first.
#[verifier::opaque]
pub open spec fn u64_bytes(x: u64) -> Seq<u8> {
    seq![
        (x % 256) as u8,
        (x / 0x100 % 256) as u8,
        (x / 0x1_0000 % 256) as u8,
        (x / 0x100_0000 % 256) as u8,
        (x / 0x1_0000_0000 % 256) as u8,
        (x / 0x100_0000_0000 % 256) as u8,
        (x / 0x1_0000_0000_0000 % 256) as u8,
        (x / 0x100_0000_0000_0000) as u8,
    ]
}

/// A 16-bit integer has two bytes.
pub broadcast proof fn u16_bytes_len(x: u16)
    ensures
        #[trigger] u16_bytes(x).len() == 2,
{
    reveal(u16_bytes);
}

/// A 32-bit integer has four bytes.
pub broadcast proof fn u32_bytes_len(x: u32)
    ensures
        #[trigger] u32_bytes(x).len() == 4,
{
    reveal(u32_bytes);
}

/// A 64-bit integer has eight bytes.
pub broadcast proof fn u64_bytes_len(x: u64)
    ensures
        #[trigger] u64_bytes(x).len() == 8,
{
    reveal(u64_bytes);
}

/// The numbers of bytes of integers.
pub broadcast group group_byte_lengths {
    u16_bytes_len,
    u32_bytes_len,
    u64_bytes_len,
}

/// The 16-bit integer whose bytes stand at `i` in `b`.
#[verifier::opaque]
pub open spec fn u16_at(b: Seq<u8>, i: int) -> u16 {
    (b[i] + 0x100 * b[i + 1]) as u16
}

/// The 32-bit integer whose bytes stand at `i` in `b`.
#[verifier::opaque]
pub open spec fn u32_at(b: Seq<u8>, i: int) -> u32 {
    (b[i] + 0x100 * b[i + 1] + 0x1_0000 * b[i + 2] + 0x100_0000 * b[i + 3]) as u32
}

/// The 64-bit integer whose bytes stand at `i` in `b`.
#[verifier::opaque]
pub open spec fn u64_at(b: Seq<u8>, i: int) -> u64 {
    (b[i] + 0x100 * b[i + 1] + 0x1_0000 * b[i + 2] + 0x100_0000 * b[i + 3] + 0x1_0000_0000 * b[i
        + 4] + 0x100_0000_0000 * b[i + 5] + 0x1_0000_0000_0000 * b[i + 6] + 0x100_0000_0000_0000
        * b[i + 7]) as u64
}

/// Whether the bytes `part` stand at `i` in `b`.
pub open spec fn stands_at(b: Seq<u8>, i: int, part: Seq<u8>) -> bool {
    &&& 0 <= i
    &&& i + part.len() <= b.len()
    &&& b.subrange(i, i + part.len()) == part
}

/// An integer read where it was written is the integer that was written.
pub proof fn u16_at_of_bytes(b: Seq<u8>, i: int, x: u16)
    requires
        stands_at(b, i, u16_bytes(x)),
    ensures
        u16_at(b, i) == x,
{
    reveal(u16_bytes);
    reveal(u16_at);
    let s = b.subrange(i, i + 2);
    assert(s[0] == b[i] && s[1] == b[i + 1]);
}

/// An integer read where it was written is the integer that was written.
pub proof fn u32_at_of_bytes(b: Seq<u8>, i: int, x: u32)
    requires
        stands_at(b, i, u32_bytes(x)),
    ensures
        u32_at(b, i) == x,
{
    reveal(u32_bytes);
    reveal(u32_at);
    let s = b.subrange(i, i + 4);
    assert(s[0] == b[i] && s[1] == b[i + 1] && s[2] == b[i + 2] && s[3] == b[i + 3]);
    assert(s == u32_bytes(x));
    assert(x == x % 256 + 0x100 * (x / 0x100 % 256) + 0x1_0000 * (x / 0x1_0000 % 256) + 0x100_0000
        * (x / 0x100_0000)) by (bit_vector);
}

/// An integer read where it was written is the integer that was written.
pub proof fn u64_at_of_bytes(b: Seq<u8>, i: int, x: u64)
    requires
        stands_at(b, i, u64_bytes(x)),
    ensures
        u64_at(b, i) == x,
{
    reveal(u64_bytes);
    reveal(u64_at);
    let s = b.subrange(i, i + 8);
    assert(s[0] == b[i] && s[1] == b[i + 1] && s[2] == b[i + 2] && s[3] == b[i + 3]);
    assert(s[4] == b[i + 4] && s[5] == b[i + 5] && s[6] == b[i + 6] && s[7] == b[i + 7]);
    assert(s == u64_bytes(x));
    assert(x == x % 256 + 0x100 * (x / 0x100 % 256) + 0x1_0000 * (x / 0x1_0000 % 256) + 0x100_0000
        * (x / 0x100_0000 % 256) + 0x1_0000_0000 * (x / 0x1_0000_0000 % 256) + 0x100_0000_0000 * (x
        / 0x100_0000_0000 % 256) + 0x1_0000_0000_0000 * (x / 0x1_0000_0000_0000 % 256)
        + 0x100_0000_0000_0000 * (x / 0x100_0000_0000_0000)) by (bit_vector);
}

/// What stands at `i` in `b` still stands there, moved along, when `b` is
/// part of a longer sequence.
pub proof fn stands_at_within(whole: Seq<u8>, k: int, b: Seq<u8>, i: int, part: Seq<u8>)
    requires
        stands_at(whole, k, b),
        stands_at(b, i, part),
    ensures
        stands_at(whole, k + i, part),
{
    assert(whole.subrange(k + i, k + i + part.len()) =~= b.subrange(i, i + part.len()));
}

/// `byteorder::ByteOrder::read_u16` for `LittleEndian`: the integer made of the
/// first two bytes of the slice it is given, here those from `pos` on.
#[verifier::external_body]
pub(crate) fn get_u16(data: &[u8], pos: usize) -> (x: u16)
    requires
        pos + 2 <= data@.len(),
    ensures
        x == u16_at(data@, pos as int),
{
    LittleEndian::read_u16(&data[pos..])
}

/// `byteorder::ByteOrder::read_u32` for `LittleEndian`: the integer made of the
/// first four bytes of the slice it is given, here those from `pos` on.
#[verifier::external_body]
pub(crate) fn get_u32(data: &[u8], pos: usize) -> (x: u32)
    requires
        pos + 4 <= data@.len(),
    ensures
        x == u32_at(data@, pos as int),
{
    LittleEndian::read_u32(&data[pos..])
}

/// `byteorder::ByteOrder::read_u64` for `LittleEndian`: the integer made of the
/// first eight bytes of the slice it is given, here those from `pos` on.
#[verifier::external_body]
pub(crate) fn get_u64(data: &[u8], pos: usize) -> (x: u64)
    requires
        pos + 8 <= data@.len(),
    ensures
        x == u64_at(data@, pos as int),
{
    LittleEndian::read_u64(&data[pos..])
}

/// `byteorder::WriteBytesExt::write_u16` for `LittleEndian` on a vector, which
/// never fails: the two bytes of `x` are appended.
#[verifier::external_body]
pub(crate) fn put_u16(out: &mut Vec<u8>, x: u16)
    ensures
        final(out)@ == old(out)@ + u16_bytes(x),
{
    out.write_u16::<LittleEndian>(x).unwrap()
}

/// `byteorder::WriteBytesExt::write_u32` for `LittleEndian` on a vector, which
/// never fails: the four bytes of `x` are appended.
#[verifier::external_body]
pub(crate) fn put_u32(out: &mut Vec<u8>, x: u32)
    ensures
        final(out)@ == old(out)@ + u32_bytes(x),
{
    out.write_u32::<LittleEndian>(x).unwrap()
}

/// `byteorder::WriteBytesExt::write_u64` for `LittleEndian` on a vector, which
/// never fails: the eight bytes of `x` are appended.
#[verifier::external_body]
pub(crate) fn put_u64(out: &mut Vec<u8>, x: u64)
    ensures
        final(out)@ == old(out)@ + u64_bytes(x),
{
    out.write_u64::<LittleEndian>(x).unwrap()
}

} // verus!
