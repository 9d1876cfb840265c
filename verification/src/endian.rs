//! Fixed-width integers in either byte order, decoded by `byteorder`.
use vstd::prelude::*;
use byteorder::ByteOrder;

verus! {

/// Little-endian value of the first two bytes of `b`.
pub open spec fn le_u16(b: Seq<u8>) -> int {
    b[0] as int + b[1] as int * 0x100
}

/// Big-endian value of the first two bytes of `b`.
pub open spec fn be_u16(b: Seq<u8>) -> int {
    b[0] as int * 0x100 + b[1] as int
}

/// Little-endian value of the first four bytes of `b`.
pub open spec fn le_u32(b: Seq<u8>) -> int {
    b[0] as int + b[1] as int * 0x100 + b[2] as int * 0x1_0000 + b[3] as int * 0x100_0000
}

/// Big-endian value of the first four bytes of `b`.
pub open spec fn be_u32(b: Seq<u8>) -> int {
    b[0] as int * 0x100_0000 + b[1] as int * 0x1_0000 + b[2] as int * 0x100 + b[3] as int
}

/// Little-endian value of the first eight bytes of `b`.
pub open spec fn le_u64(b: Seq<u8>) -> int {
    le_u32(b) + le_u32(b.skip(4)) * 0x1_0000_0000
}

/// Big-endian value of the first eight bytes of `b`.
pub open spec fn be_u64(b: Seq<u8>) -> int {
    be_u32(b) * 0x1_0000_0000 + be_u32(b.skip(4))
}

/// The two's-complement reading of a 64-bit pattern.
pub open spec fn signed64(u: int) -> int {
    if u >= 0x8000_0000_0000_0000 {
        u - 0x1_0000_0000_0000_0000
    } else {
        u
    }
}

/// The first two bytes of `b` as a `u16`, big-endian when `big` holds.
pub open spec fn u16_from(b: Seq<u8>, big: bool) -> u16 {
    (if big { be_u16(b) } else { le_u16(b) }) as u16
}

/// The first four bytes of `b` as a `u32`, big-endian when `big` holds.
pub open spec fn u32_from(b: Seq<u8>, big: bool) -> u32 {
    (if big { be_u32(b) } else { le_u32(b) }) as u32
}

/// The first eight bytes of `b` as an `i64`, big-endian when `big` holds.
pub open spec fn i64_from(b: Seq<u8>, big: bool) -> i64 {
    signed64(if big { be_u64(b) } else { le_u64(b) }) as i64
}

/// Reading two bytes big-endian gives what reading them in the reverse order
/// little-endian gives.
pub proof fn lemma_u16_orders_mirror(b: Seq<u8>)
    requires
        b.len() >= 2,
    ensures
        u16_from(b, true) == u16_from(seq![b[1], b[0]], false),
{
}

/// Reading four bytes big-endian gives what reading them in the reverse order
/// little-endian gives.
pub proof fn lemma_u32_orders_mirror(b: Seq<u8>)
    requires
        b.len() >= 4,
    ensures
        u32_from(b, true) == u32_from(seq![b[3], b[2], b[1], b[0]], false),
{
}

/// The values read from bytes, byte by byte: big-endian puts the first byte
/// highest, little-endian lowest; an eight-byte value reads as two's
/// complement.
pub proof fn lemma_words_in_bytes(b: Seq<u8>, big: bool)
    requires
        b.len() >= 2,
    ensures
        u16_from(b, big) == (if big { b[0] * 0x100 + b[1] } else { b[1] * 0x100 + b[0] }),
        b.len() >= 4 ==> u32_from(b, big) == (if big {
            b[0] * 0x100_0000 + b[1] * 0x1_0000 + b[2] * 0x100 + b[3]
        } else {
            b[3] * 0x100_0000 + b[2] * 0x1_0000 + b[1] * 0x100 + b[0]
        }),
        b.len() >= 8 ==> {
            let hi: int = if big {
                b[0] * 0x100_0000 + b[1] * 0x1_0000 + b[2] * 0x100 + b[3]
            } else {
                b[7] * 0x100_0000 + b[6] * 0x1_0000 + b[5] * 0x100 + b[4]
            };
            let lo: int = if big {
                b[4] * 0x100_0000 + b[5] * 0x1_0000 + b[6] * 0x100 + b[7]
            } else {
                b[3] * 0x100_0000 + b[2] * 0x1_0000 + b[1] * 0x100 + b[0]
            };
            &&& hi < 0x8000_0000 ==> i64_from(b, big) == hi * 0x1_0000_0000 + lo
            &&& hi >= 0x8000_0000 ==> i64_from(b, big) == (hi - 0x1_0000_0000) * 0x1_0000_0000 + lo
        },
{
}

/// `byteorder::LittleEndian::read_u16`: the first two bytes, least significant first.
/// It panics on fewer than two bytes, which `requires` rules out.
#[verifier::external_body]
pub(crate) fn read_le_u16(buf: &[u8]) -> (r: u16)
    requires
        buf@.len() >= 2,
    ensures
        r == le_u16(buf@),
{
    byteorder::LittleEndian::read_u16(buf)
}

/// `byteorder::BigEndian::read_u16`: the first two bytes, most significant first.
/// It panics on fewer than two bytes, which `requires` rules out.
#[verifier::external_body]
pub(crate) fn read_be_u16(buf: &[u8]) -> (r: u16)
    requires
        buf@.len() >= 2,
    ensures
        r == be_u16(buf@),
{
    byteorder::BigEndian::read_u16(buf)
}

/// `byteorder::LittleEndian::read_u32`: the first four bytes, least significant first.
/// It panics on fewer than four bytes, which `requires` rules out.
#[verifier::external_body]
pub(crate) fn read_le_u32(buf: &[u8]) -> (r: u32)
    requires
        buf@.len() >= 4,
    ensures
        r == le_u32(buf@),
{
    byteorder::LittleEndian::read_u32(buf)
}

/// `byteorder::BigEndian::read_u32`: the first four bytes, most significant first.
/// It panics on fewer than four bytes, which `requires` rules out.
#[verifier::external_body]
pub(crate) fn read_be_u32(buf: &[u8]) -> (r: u32)
    requires
        buf@.len() >= 4,
    ensures
        r == be_u32(buf@),
{
    byteorder::BigEndian::read_u32(buf)
}

/// `byteorder::LittleEndian::read_i64`: the first eight bytes, least significant
/// first, read as two's complement. It panics on fewer than eight bytes, which
/// `requires` rules out.
#[verifier::external_body]
pub(crate) fn read_le_i64(buf: &[u8]) -> (r: i64)
    requires
        buf@.len() >= 8,
    ensures
        r == signed64(le_u64(buf@)),
{
    byteorder::LittleEndian::read_i64(buf)
}

/// `byteorder::BigEndian::read_i64`: the first eight bytes, most significant
/// first, read as two's complement. It panics on fewer than eight bytes, which
/// `requires` rules out.
#[verifier::external_body]
pub(crate) fn read_be_i64(buf: &[u8]) -> (r: i64)
    requires
        buf@.len() >= 8,
    ensures
        r == signed64(be_u64(buf@)),
{
    byteorder::BigEndian::read_i64(buf)
}

/// Decodes a `u16` from the first two bytes of `buf` in the given byte order.
pub fn decode_u16(buf: &[u8], big: bool) -> (r: u16)
    requires
        buf@.len() >= 2,
    ensures
        r == u16_from(buf@, big),
{
    if big {
        read_be_u16(buf)
    } else {
        read_le_u16(buf)
    }
}

/// Decodes a `u32` from the first four bytes of `buf` in the given byte order.
pub fn decode_u32(buf: &[u8], big: bool) -> (r: u32)
    requires
        buf@.len() >= 4,
    ensures
        r == u32_from(buf@, big),
{
    if big {
        read_be_u32(buf)
    } else {
        read_le_u32(buf)
    }
}

/// Decodes an `i64` from the first eight bytes of `buf` in the given byte order.
pub fn decode_i64(buf: &[u8], big: bool) -> (r: i64)
    requires
        buf@.len() >= 8,
    ensures
        r == i64_from(buf@, big),
{
    if big {
        read_be_i64(buf)
    } else {
        read_le_i64(buf)
    }
}

} // verus!
