//! Big-endian 32-bit numbers, as the chunk format writes lengths and
//! checksums: the most significant byte comes first.

use vstd::arithmetic::div_mod::lemma_fundamental_div_mod_converse;
use vstd::prelude::*;

verus! {

/// The four bytes that stand for `value`.
pub open spec fn be_bytes(value: u32) -> Seq<u8> {
    seq![
        (value / 0x100_0000) as u8,
        ((value / 0x1_0000) % 0x100) as u8,
        ((value / 0x100) % 0x100) as u8,
        (value % 0x100) as u8,
    ]
}

/// The number that the first four bytes of `bytes` stand for.
pub open spec fn be_value(bytes: Seq<u8>) -> u32 {
    (bytes[0] * 0x100_0000 + bytes[1] * 0x1_0000 + bytes[2] * 0x100 + bytes[3]) as u32
}

/// The four base-256 digits of a number below 2^32 make up the number.
proof fn lemma_digits_make_value(value: int)
    requires
        0 <= value < 0x1_0000_0000,
    ensures
        0 <= value / 0x100_0000 < 0x100,
        value == (value / 0x100_0000) * 0x100_0000 + ((value / 0x1_0000) % 0x100) * 0x1_0000 + ((value
            / 0x100) % 0x100) * 0x100 + value % 0x100,
{
}

/// A number made up of four base-256 digits has those digits.
proof fn lemma_value_has_digits(d0: int, d1: int, d2: int, d3: int)
    requires
        0 <= d0 < 0x100,
        0 <= d1 < 0x100,
        0 <= d2 < 0x100,
        0 <= d3 < 0x100,
    ensures
        0 <= d0 * 0x100_0000 + d1 * 0x1_0000 + d2 * 0x100 + d3 < 0x1_0000_0000,
        (d0 * 0x100_0000 + d1 * 0x1_0000 + d2 * 0x100 + d3) / 0x100_0000 == d0,
        ((d0 * 0x100_0000 + d1 * 0x1_0000 + d2 * 0x100 + d3) / 0x1_0000) % 0x100 == d1,
        ((d0 * 0x100_0000 + d1 * 0x1_0000 + d2 * 0x100 + d3) / 0x100) % 0x100 == d2,
        (d0 * 0x100_0000 + d1 * 0x1_0000 + d2 * 0x100 + d3) % 0x100 == d3,
{
    let value = d0 * 0x100_0000 + d1 * 0x1_0000 + d2 * 0x100 + d3;
    lemma_fundamental_div_mod_converse(value, 0x100_0000, d0, d1 * 0x1_0000 + d2 * 0x100 + d3);
    lemma_fundamental_div_mod_converse(value, 0x1_0000, d0 * 0x100 + d1, d2 * 0x100 + d3);
    lemma_fundamental_div_mod_converse(d0 * 0x100 + d1, 0x100, d0, d1);
    lemma_fundamental_div_mod_converse(value, 0x100, d0 * 0x1_0000 + d1 * 0x100 + d2, d3);
    lemma_fundamental_div_mod_converse(d0 * 0x1_0000 + d1 * 0x100 + d2, 0x100, d0 * 0x100 + d1, d2);
}

/// Reading back what was written gives the number that was written.
pub proof fn lemma_value_of_bytes(value: u32)
    ensures
        be_bytes(value).len() == 4,
        be_value(be_bytes(value)) == value,
{
    lemma_digits_make_value(value as int);
}

/// Writing what was read gives the bytes that were read.
pub proof fn lemma_bytes_of_value(bytes: Seq<u8>)
    requires
        bytes.len() == 4,
    ensures
        be_bytes(be_value(bytes)) == bytes,
{
    lemma_value_has_digits(bytes[0] as int, bytes[1] as int, bytes[2] as int, bytes[3] as int);
    let written = be_bytes(be_value(bytes));
    assert(written[0] == bytes[0]);
    assert(written[1] == bytes[1]);
    assert(written[2] == bytes[2]);
    assert(written[3] == bytes[3]);
    assert(written =~= bytes);
}

/// Writes `value` as four bytes.
pub fn to_be_bytes(value: u32) -> (bytes: [u8; 4])
    ensures
        bytes@ == be_bytes(value),
{
    let bytes: [u8; 4] = [
        (value / 0x100_0000) as u8,
        ((value / 0x1_0000) % 0x100) as u8,
        ((value / 0x100) % 0x100) as u8,
        (value % 0x100) as u8,
    ];
    assert(bytes@ =~= be_bytes(value));
    bytes
}

/// Reads the number that the four bytes of `bytes` from `start` on stand for.
pub fn read_be(bytes: &[u8], start: usize) -> (value: u32)
    requires
        start + 4 <= bytes@.len(),
    ensures
        value == be_value(bytes@.subrange(start as int, start + 4)),
{
    let b0: u32 = bytes[start] as u32;
    let b1: u32 = bytes[start + 1] as u32;
    let b2: u32 = bytes[start + 2] as u32;
    let b3: u32 = bytes[start + 3] as u32;
    b0 * 0x100_0000 + b1 * 0x1_0000 + b2 * 0x100 + b3
}

} // verus!
