//! Fixed-width integers as bytes, written through the `byteorder` crate.

use byteorder::{BigEndian, LittleEndian, WriteBytesExt};
use vstd::prelude::*;

verus! {

/// The two bytes of `n`, least significant first.
pub open spec fn le_u16(n: u16) -> Seq<u8> {
    seq![(n % 256) as u8, (n / 256) as u8]
}

/// The four bytes of `n`, least significant first.
pub open spec fn le_u32(n: u32) -> Seq<u8> {
    seq![
        (n % 256) as u8,
        (n / 256 % 256) as u8,
        (n / 65536 % 256) as u8,
        (n / 16777216) as u8,
    ]
}

/// The four bytes of `n`, most significant first.
pub open spec fn be_u32(n: u32) -> Seq<u8> {
    seq![
        (n / 16777216) as u8,
        (n / 65536 % 256) as u8,
        (n / 256 % 256) as u8,
        (n % 256) as u8,
    ]
}

/// The unsigned number with the same 32 bits as `n` in two's complement.
pub open spec fn bits_of_i32(n: i32) -> u32 {
    if n >= 0 {
        n as u32
    } else {
        (n + 0x1_0000_0000) as u32
    }
}

/// The four bytes of `n` in two's complement, least significant first.
pub open spec fn le_i32(n: i32) -> Seq<u8> {
    le_u32(bits_of_i32(n))
}

/// `byteorder::WriteBytesExt::write_u16` with `LittleEndian`, on a vector:
/// trusted to append the two bytes of `n`, low byte first, and nothing else.
/// Writing to a vector does not fail.
#[verifier::external_body]
pub(crate) fn write_u16_le(out: &mut Vec<u8>, n: u16)
    ensures
        final(out)@ == old(out)@ + le_u16(n),
{
    out.write_u16::<LittleEndian>(n).unwrap();
}

/// `byteorder::WriteBytesExt::write_u32` with `LittleEndian`, on a vector:
/// trusted to append the four bytes of `n`, low byte first, and nothing else.
#[verifier::external_body]
pub(crate) fn write_u32_le(out: &mut Vec<u8>, n: u32)
    ensures
        final(out)@ == old(out)@ + le_u32(n),
{
    out.write_u32::<LittleEndian>(n).unwrap();
}

/// `byteorder::WriteBytesExt::write_i32` with `LittleEndian`, on a vector:
/// trusted to append the four bytes of `n` in two's complement, low byte
/// first, and nothing else.
#[verifier::external_body]
pub(crate) fn write_i32_le(out: &mut Vec<u8>, n: i32)
    ensures
        final(out)@ == old(out)@ + le_i32(n),
{
    out.write_i32::<LittleEndian>(n).unwrap();
}

/// `byteorder::WriteBytesExt::write_u32` with `BigEndian`, on a vector:
/// trusted to append the four bytes of `n`, high byte first, and nothing else.
#[verifier::external_body]
pub(crate) fn write_u32_be(out: &mut Vec<u8>, n: u32)
    ensures
        final(out)@ == old(out)@ + be_u32(n),
{
    out.write_u32::<BigEndian>(n).unwrap();
}

} // verus!
