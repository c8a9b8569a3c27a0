//! Little-endian numbers: what a run of bytes denotes, and the readers that
//! take it from a slice.

use byteorder::{ByteOrder, LittleEndian};
use vstd::prelude::*;

verus! {

/// The number that the bytes denote, least significant byte first.
pub open spec fn le_value(bytes: Seq<u8>) -> nat
    decreases bytes.len(),
{
    if bytes.len() == 0 {
        0
    } else {
        bytes[0] as nat + 256 * le_value(bytes.drop_first())
    }
}

/// A single byte denotes itself.
pub proof fn lemma_le_value_one(bytes: Seq<u8>)
    requires
        bytes.len() == 1,
    ensures
        le_value(bytes) == bytes[0],
{
    assert(le_value(bytes.drop_first()) == 0);
}

/// The count of values that `width` bytes can tell apart, for the widths of
/// the numeric fields; zero for any other width.
pub open spec fn span(width: nat) -> nat {
    if width == 1 {
        0x100
    } else if width == 2 {
        0x1_0000
    } else if width == 4 {
        0x1_0000_0000
    } else if width == 8 {
        0x1_0000_0000_0000_0000
    } else {
        0
    }
}

/// The two's-complement reading of an unsigned value of `width` bytes.
pub open spec fn as_signed(v: nat, width: nat) -> int {
    if 2 * v >= span(width) {
        v - span(width)
    } else {
        v as int
    }
}

/// The text in which a 32-bit IEEE 754 number, given by its four
/// little-endian bytes, is displayed.
pub uninterp spec fn f32_text(bytes: Seq<u8>) -> Seq<char>;

/// The text in which a 64-bit IEEE 754 number, given by its eight
/// little-endian bytes, is displayed.
pub uninterp spec fn f64_text(bytes: Seq<u8>) -> Seq<char>;

/// Calls `byteorder::LittleEndian::read_u16`, which reads the first two bytes
/// with the least significant first and panics on a shorter slice.
#[verifier::external_body]
pub(crate) fn read_u16_le(bytes: &[u8]) -> (r: u16)
    requires
        bytes@.len() == 2,
    ensures
        r as nat == le_value(bytes@),
{
    LittleEndian::read_u16(bytes)
}

/// Calls `byteorder::LittleEndian::read_i16`: the two's-complement reading of
/// what `read_u16` gives. Panics on a slice shorter than two bytes.
#[verifier::external_body]
pub(crate) fn read_i16_le(bytes: &[u8]) -> (r: i16)
    requires
        bytes@.len() == 2,
    ensures
        r as int == as_signed(le_value(bytes@), 2),
{
    LittleEndian::read_i16(bytes)
}

/// Calls `byteorder::LittleEndian::read_u32`, which reads the first four bytes
/// with the least significant first and panics on a shorter slice.
#[verifier::external_body]
pub(crate) fn read_u32_le(bytes: &[u8]) -> (r: u32)
    requires
        bytes@.len() == 4,
    ensures
        r as nat == le_value(bytes@),
{
    LittleEndian::read_u32(bytes)
}

/// Calls `byteorder::LittleEndian::read_i32`: the two's-complement reading of
/// what `read_u32` gives. Panics on a slice shorter than four bytes.
#[verifier::external_body]
pub(crate) fn read_i32_le(bytes: &[u8]) -> (r: i32)
    requires
        bytes@.len() == 4,
    ensures
        r as int == as_signed(le_value(bytes@), 4),
{
    LittleEndian::read_i32(bytes)
}

/// Calls `byteorder::LittleEndian::read_u64`, which reads the first eight
/// bytes with the least significant first and panics on a shorter slice.
#[verifier::external_body]
pub(crate) fn read_u64_le(bytes: &[u8]) -> (r: u64)
    requires
        bytes@.len() == 8,
    ensures
        r as nat == le_value(bytes@),
{
    LittleEndian::read_u64(bytes)
}

/// Calls `byteorder::LittleEndian::read_i64`: the two's-complement reading of
/// what `read_u64` gives. Panics on a slice shorter than eight bytes.
#[verifier::external_body]
pub(crate) fn read_i64_le(bytes: &[u8]) -> (r: i64)
    requires
        bytes@.len() == 8,
    ensures
        r as int == as_signed(le_value(bytes@), 8),
{
    LittleEndian::read_i64(bytes)
}

/// Calls `byteorder::LittleEndian::read_f32` and displays the number it
/// gives. The text depends on the four bytes alone. Panics on a slice shorter
/// than four bytes.
#[verifier::external_body]
pub(crate) fn read_f32_le_text(bytes: &[u8]) -> (s: String)
    requires
        bytes@.len() == 4,
    ensures
        s@ == f32_text(bytes@),
{
    LittleEndian::read_f32(bytes).to_string()
}

/// Calls `byteorder::LittleEndian::read_f64` and displays the number it
/// gives. The text depends on the eight bytes alone. Panics on a slice
/// shorter than eight bytes.
#[verifier::external_body]
pub(crate) fn read_f64_le_text(bytes: &[u8]) -> (s: String)
    requires
        bytes@.len() == 8,
    ensures
        s@ == f64_text(bytes@),
{
    LittleEndian::read_f64(bytes).to_string()
}

} // verus!
