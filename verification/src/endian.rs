//! Big-endian integers, as the wire carries them.
//!
//! The spec functions say what the bytes of an integer are; the executable
//! conversions are `byteorder`'s, taken on trust against those functions.

use vstd::prelude::*;
use byteorder::{BigEndian, ByteOrder};

verus! {

/// The 16-bit integer that the first two bytes of `s` spell, high byte first.
pub open spec fn be_u16(s: Seq<u8>) -> u16
    recommends
        s.len() >= 2,
{
    (s[0] as int * 0x100 + s[1] as int) as u16
}

/// The 32-bit integer that the first four bytes of `s` spell, high byte first.
pub open spec fn be_u32(s: Seq<u8>) -> u32
    recommends
        s.len() >= 4,
{
    (s[0] as int * 0x100_0000 + s[1] as int * 0x1_0000 + s[2] as int * 0x100 + s[3] as int) as u32
}

/// The two bytes of `value`, high byte first.
pub open spec fn u16_be(value: u16) -> Seq<u8> {
    seq![(value / 0x100) as u8, (value % 0x100) as u8]
}

/// The four bytes of `value`, high byte first.
pub open spec fn u32_be(value: u32) -> Seq<u8> {
    seq![
        (value / 0x100_0000) as u8,
        (value / 0x1_0000 % 0x100) as u8,
        (value / 0x100 % 0x100) as u8,
        (value % 0x100) as u8,
    ]
}

/// Reading back the bytes of a 16-bit integer gives the integer, whatever
/// follows them.
pub proof fn lemma_u16_round_trip(value: u16, tail: Seq<u8>)
    ensures
        u16_be(value).len() == 2,
        be_u16(u16_be(value) + tail) == value,
{
}

/// Reading back the bytes of a 32-bit integer gives the integer, whatever
/// follows them.
pub proof fn lemma_u32_round_trip(value: u32, tail: Seq<u8>)
    ensures
        u32_be(value).len() == 4,
        be_u32(u32_be(value) + tail) == value,
{
}

/// `ByteOrder::read_u16` of `BigEndian`, which panics on fewer than two
/// bytes. Believed: the result is the big-endian value of the first two.
#[verifier::external_body]
pub(crate) fn read_u16(bytes: &[u8]) -> (value: u16)
    requires
        bytes@.len() >= 2,
    ensures
        value == be_u16(bytes@),
{
    BigEndian::read_u16(bytes)
}

/// `ByteOrder::read_u32` of `BigEndian`, which panics on fewer than four
/// bytes. Believed: the result is the big-endian value of the first four.
#[verifier::external_body]
pub(crate) fn read_u32(bytes: &[u8]) -> (value: u32)
    requires
        bytes@.len() >= 4,
    ensures
        value == be_u32(bytes@),
{
    BigEndian::read_u32(bytes)
}

/// `ByteOrder::write_u16` of `BigEndian`, into a fresh two-byte array.
/// Believed: the array holds the value's bytes, high byte first.
#[verifier::external_body]
pub(crate) fn write_u16(value: u16) -> (bytes: [u8; 2])
    ensures
        bytes@ == u16_be(value),
{
    let mut container = [0u8; 2];
    BigEndian::write_u16(&mut container, value);
    container
}

/// `ByteOrder::write_u32` of `BigEndian`, into a fresh four-byte array.
/// Believed: the array holds the value's bytes, high byte first.
#[verifier::external_body]
pub(crate) fn write_u32(value: u32) -> (bytes: [u8; 4])
    ensures
        bytes@ == u32_be(value),
{
    let mut container = [0u8; 4];
    BigEndian::write_u32(&mut container, value);
    container
}

} // verus!
