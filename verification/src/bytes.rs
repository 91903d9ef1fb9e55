//! Big-endian integers as they appear in a container.
//!
//! Every multi-byte field of the format goes through this module, so byte
//! order is defined in exactly one place.

use vstd::arithmetic::div_mod::{lemma_fundamental_div_mod, lemma_fundamental_div_mod_converse};
use vstd::prelude::*;

verus! {

/// The number that four bytes spell in big-endian order.
pub open spec fn spec_u32_be(b: Seq<u8>) -> nat
    recommends
        b.len() == 4,
{
    (b[0] as nat) * 0x100_0000 + (b[1] as nat) * 0x1_0000 + (b[2] as nat) * 0x100 + (b[3] as nat)
}

/// The number that two bytes spell in big-endian order.
pub open spec fn spec_u16_be(b: Seq<u8>) -> nat
    recommends
        b.len() == 2,
{
    (b[0] as nat) * 0x100 + (b[1] as nat)
}

/// The four bytes that spell `v` in big-endian order.
pub open spec fn spec_u32_be_bytes(v: nat) -> Seq<u8>
    recommends
        v <= u32::MAX,
{
    seq![
        (v / 0x100_0000 % 0x100) as u8,
        (v / 0x1_0000 % 0x100) as u8,
        (v / 0x100 % 0x100) as u8,
        (v % 0x100) as u8,
    ]
}

/// The two bytes that spell `v` in big-endian order.
pub open spec fn spec_u16_be_bytes(v: nat) -> Seq<u8>
    recommends
        v <= u16::MAX,
{
    seq![(v / 0x100 % 0x100) as u8, (v % 0x100) as u8]
}

/// Decodes a big-endian 32-bit unsigned integer.
pub fn uint32_from_bytes(bytes: [u8; 4]) -> (r: u32)
    ensures
        r == spec_u32_be(bytes@),
{
    let b0: u32 = bytes[0] as u32;
    let b1: u32 = bytes[1] as u32;
    let b2: u32 = bytes[2] as u32;
    let b3: u32 = bytes[3] as u32;
    assert(b0 << 24 == b0 * 0x100_0000 && b1 << 16 == b1 * 0x1_0000 && b2 << 8 == b2 * 0x100)
        by (bit_vector)
        requires
            b0 < 0x100,
            b1 < 0x100,
            b2 < 0x100,
    ;
    (b0 << 24) + (b1 << 16) + (b2 << 8) + b3
}

/// Decodes a big-endian 16-bit unsigned integer.
pub fn uint16_from_bytes(bytes: [u8; 2]) -> (r: u16)
    ensures
        r == spec_u16_be(bytes@),
{
    let b0: u16 = bytes[0] as u16;
    let b1: u16 = bytes[1] as u16;
    assert(b0 << 8 == b0 * 0x100) by (bit_vector)
        requires
            b0 < 0x100,
    ;
    (b0 << 8) + b1
}

/// Reads the big-endian 32-bit integer that starts at `at`.
pub(crate) fn read_u32(data: &[u8], at: usize) -> (r: u32)
    requires
        at + 4 <= data@.len(),
    ensures
        r == spec_u32_be(data@.subrange(at as int, at + 4)),
{
    uint32_from_bytes([data[at], data[at + 1], data[at + 2], data[at + 3]])
}

/// Reads the big-endian 16-bit integer that starts at `at`.
pub(crate) fn read_u16(data: &[u8], at: usize) -> (r: u16)
    requires
        at + 2 <= data@.len(),
    ensures
        r == spec_u16_be(data@.subrange(at as int, at + 2)),
{
    uint16_from_bytes([data[at], data[at + 1]])
}

/// The digits of a number written in base 256 with four digits.
proof fn lemma_digits_of_u32(b0: int, b1: int, b2: int, b3: int)
    requires
        0 <= b0 < 0x100,
        0 <= b1 < 0x100,
        0 <= b2 < 0x100,
        0 <= b3 < 0x100,
    ensures
        ({
            let v = b0 * 0x100_0000 + b1 * 0x1_0000 + b2 * 0x100 + b3;
            &&& 0 <= v <= 0xffff_ffff
            &&& v / 0x100_0000 % 0x100 == b0
            &&& v / 0x1_0000 % 0x100 == b1
            &&& v / 0x100 % 0x100 == b2
            &&& v % 0x100 == b3
        }),
{
    let v = b0 * 0x100_0000 + b1 * 0x1_0000 + b2 * 0x100 + b3;
    lemma_fundamental_div_mod_converse(v, 0x100_0000, b0, b1 * 0x1_0000 + b2 * 0x100 + b3);
    lemma_fundamental_div_mod_converse(b0, 0x100, 0, b0);
    lemma_fundamental_div_mod_converse(v, 0x1_0000, b0 * 0x100 + b1, b2 * 0x100 + b3);
    lemma_fundamental_div_mod_converse(b0 * 0x100 + b1, 0x100, b0, b1);
    lemma_fundamental_div_mod_converse(v, 0x100, b0 * 0x1_0000 + b1 * 0x100 + b2, b3);
    lemma_fundamental_div_mod_converse(b0 * 0x1_0000 + b1 * 0x100 + b2, 0x100, b0 * 0x100 + b1, b2);
}

/// A number below 2^32 is the sum of its four digits in base 256.
proof fn lemma_u32_of_digits(v: int)
    requires
        0 <= v <= 0xffff_ffff,
    ensures
        0 <= v / 0x100_0000 % 0x100 < 0x100,
        0 <= v / 0x1_0000 % 0x100 < 0x100,
        0 <= v / 0x100 % 0x100 < 0x100,
        0 <= v % 0x100 < 0x100,
        v == (v / 0x100_0000 % 0x100) * 0x100_0000 + (v / 0x1_0000 % 0x100) * 0x1_0000 + (v
            / 0x100 % 0x100) * 0x100 + v % 0x100,
{
    let d3 = v % 0x100;
    let r2 = v / 0x100;
    let d2 = r2 % 0x100;
    let r1 = r2 / 0x100;
    let d1 = r1 % 0x100;
    let r0 = r1 / 0x100;
    lemma_fundamental_div_mod(v, 0x100);
    lemma_fundamental_div_mod(r2, 0x100);
    lemma_fundamental_div_mod(r1, 0x100);
    assert(0 <= r0 < 0x100);
    lemma_fundamental_div_mod_converse(v, 0x1_0000, r1, d2 * 0x100 + d3);
    lemma_fundamental_div_mod_converse(v, 0x100_0000, r0, d1 * 0x1_0000 + d2 * 0x100 + d3);
    lemma_fundamental_div_mod_converse(r0, 0x100, 0, r0);
}

/// Four bytes spell a number below 2^32, and spelling that number gives
/// the same four bytes back.
pub proof fn lemma_u32_be_bytes_of_value(b: Seq<u8>)
    requires
        b.len() == 4,
    ensures
        spec_u32_be(b) <= u32::MAX,
        spec_u32_be_bytes(spec_u32_be(b)) == b,
{
    lemma_digits_of_u32(b[0] as int, b[1] as int, b[2] as int, b[3] as int);
    let again = spec_u32_be_bytes(spec_u32_be(b));
    assert(again.len() == 4);
    assert(again[0] == b[0]);
    assert(again[1] == b[1]);
    assert(again[2] == b[2]);
    assert(again[3] == b[3]);
    assert(again =~= b);
}

/// Spelling a 32-bit number and reading the bytes gives the number back.
pub proof fn lemma_u32_be_value_of_bytes(v: nat)
    requires
        v <= u32::MAX,
    ensures
        spec_u32_be_bytes(v).len() == 4,
        spec_u32_be(spec_u32_be_bytes(v)) == v,
{
    lemma_u32_of_digits(v as int);
}

/// Two bytes spell a number below 2^16, and spelling that number gives
/// the same two bytes back.
pub proof fn lemma_u16_be_bytes_of_value(b: Seq<u8>)
    requires
        b.len() == 2,
    ensures
        spec_u16_be(b) <= u16::MAX,
        spec_u16_be_bytes(spec_u16_be(b)) == b,
{
    let b0 = b[0] as int;
    let b1 = b[1] as int;
    let v = b0 * 0x100 + b1;
    lemma_fundamental_div_mod_converse(v, 0x100, b0, b1);
    lemma_fundamental_div_mod_converse(b0, 0x100, 0, b0);
    let again = spec_u16_be_bytes(spec_u16_be(b));
    assert(again.len() == 2);
    assert(again[0] == b[0]);
    assert(again[1] == b[1]);
    assert(again =~= b);
}

/// Spelling a 16-bit number and reading the bytes gives the number back.
pub proof fn lemma_u16_be_value_of_bytes(v: nat)
    requires
        v <= u16::MAX,
    ensures
        spec_u16_be_bytes(v).len() == 2,
        spec_u16_be(spec_u16_be_bytes(v)) == v,
{
    let r = (v as int) / 0x100;
    lemma_fundamental_div_mod(v as int, 0x100);
    assert(0 <= r < 0x100);
    lemma_fundamental_div_mod_converse(r, 0x100, 0, r);
}

} // verus!
