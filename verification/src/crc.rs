//! The CRC-32 checksum used by PNG and zlib: reflected polynomial
//! `0xEDB88320`, register seeded with all ones, result inverted.
//!
//! The checksum is defined bit by bit, and computed the same way. Because
//! every step of the register is reversible, a message that differs from
//! another in a single byte never has the same checksum.

use vstd::prelude::*;

verus! {

/// The reflected generator polynomial of CRC-32.
pub const POLYNOMIAL: u32 = 0xEDB8_8320;

/// The value the register starts from.
pub const SEED: u32 = 0xFFFF_FFFF;

/// One shift of the checksum register: the low bit leaves, and the polynomial
/// is folded in when that bit was set.
pub open spec fn shift_once(reg: u32) -> u32 {
    if reg & 1 == 1 {
        (reg >> 1) ^ POLYNOMIAL
    } else {
        reg >> 1
    }
}

/// `count` successive shifts of the register.
pub open spec fn shift(reg: u32, count: nat) -> u32
    decreases count,
{
    if count == 0 {
        reg
    } else {
        shift_once(shift(reg, (count - 1) as nat))
    }
}

/// The register after one more message byte has been taken in.
pub open spec fn absorb(reg: u32, byte: u8) -> u32 {
    shift(reg ^ (byte as u32), 8)
}

/// The register after `bytes` have been taken in, one after the other,
/// starting from `reg`.
pub open spec fn feed(reg: u32, bytes: Seq<u8>) -> u32
    decreases bytes.len(),
{
    if bytes.len() == 0 {
        reg
    } else {
        absorb(feed(reg, bytes.drop_last()), bytes.last())
    }
}

/// The CRC-32 of a message: the register after the whole message, inverted.
pub open spec fn checksum(message: Seq<u8>) -> u32 {
    feed(SEED, message) ^ 0xFFFF_FFFF
}

/// A shift of the register can be undone: two registers that shift to the
/// same value were the same.
pub proof fn lemma_shift_once_injective(a: u32, b: u32)
    requires
        shift_once(a) == shift_once(b),
    ensures
        a == b,
{
    assert(shift_once(a) == shift_once(b) ==> a == b) by (bit_vector);
}

/// Any number of shifts can be undone.
pub proof fn lemma_shift_injective(a: u32, b: u32, count: nat)
    requires
        shift(a, count) == shift(b, count),
    ensures
        a == b,
    decreases count,
{
    if count > 0 {
        lemma_shift_once_injective(shift(a, (count - 1) as nat), shift(b, (count - 1) as nat));
        lemma_shift_injective(a, b, (count - 1) as nat);
    }
}

/// Taking in the same byte keeps two different registers different, and
/// taking in two different bytes drives one register apart.
pub proof fn lemma_absorb_injective(reg_a: u32, byte_a: u8, reg_b: u32, byte_b: u8)
    requires
        absorb(reg_a, byte_a) == absorb(reg_b, byte_b),
    ensures
        byte_a == byte_b ==> reg_a == reg_b,
        reg_a == reg_b ==> byte_a == byte_b,
{
    lemma_shift_injective(reg_a ^ (byte_a as u32), reg_b ^ (byte_b as u32), 8);
    assert((reg_a ^ (byte_a as u32)) == (reg_b ^ (byte_b as u32)) ==> (byte_a == byte_b ==> reg_a
        == reg_b) && (reg_a == reg_b ==> byte_a == byte_b)) by (bit_vector);
}

/// Feeding a message in two parts is feeding it whole.
pub proof fn lemma_feed_concat(reg: u32, head: Seq<u8>, tail: Seq<u8>)
    ensures
        feed(reg, head + tail) == feed(feed(reg, head), tail),
    decreases tail.len(),
{
    if tail.len() == 0 {
        assert(head + tail =~= head);
    } else {
        assert((head + tail).drop_last() =~= head + tail.drop_last());
        lemma_feed_concat(reg, head, tail.drop_last());
    }
}

/// Two messages of one length that differ in exactly one byte leave the
/// register in different states.
pub proof fn lemma_feed_single_change(reg: u32, a: Seq<u8>, b: Seq<u8>, at: int)
    requires
        a.len() == b.len(),
        0 <= at < a.len(),
        a[at] != b[at],
        forall|i: int| 0 <= i < a.len() && i != at ==> a[i] == b[i],
    ensures
        feed(reg, a) != feed(reg, b),
    decreases a.len(),
{
    let last = a.len() - 1;
    if at == last {
        assert(a.drop_last() =~= b.drop_last());
    } else {
        lemma_feed_single_change(reg, a.drop_last(), b.drop_last(), at);
    }
    if feed(reg, a) == feed(reg, b) {
        lemma_absorb_injective(feed(reg, a.drop_last()), a[last], feed(reg, b.drop_last()), b[last]);
    }
}

/// CRC-32 detects every change that is confined to one byte: two messages of
/// one length that differ in exactly one byte have different checksums.
pub proof fn lemma_single_byte_change_detected(a: Seq<u8>, b: Seq<u8>, at: int)
    requires
        a.len() == b.len(),
        0 <= at < a.len(),
        a[at] != b[at],
        forall|i: int| 0 <= i < a.len() && i != at ==> a[i] == b[i],
    ensures
        checksum(a) != checksum(b),
{
    lemma_feed_single_change(SEED, a, b, at);
    let x = feed(SEED, a);
    let y = feed(SEED, b);
    assert((x ^ 0xFFFF_FFFFu32) == (y ^ 0xFFFF_FFFFu32) ==> x == y) by (bit_vector);
}

fn absorb_byte(reg: u32, byte: u8) -> (out: u32)
    ensures
        out == absorb(reg, byte),
{
    let mut cur: u32 = reg ^ (byte as u32);
    let mut done: u8 = 0;
    while done < 8
        invariant
            done <= 8,
            cur == shift(reg ^ (byte as u32), done as nat),
        decreases 8 - done,
    {
        cur = if cur & 1 == 1 {
            (cur >> 1) ^ POLYNOMIAL
        } else {
            cur >> 1
        };
        done = done + 1;
    }
    cur
}

/// Takes `bytes` into the register `reg`.
pub fn update(reg: u32, bytes: &[u8]) -> (out: u32)
    ensures
        out == feed(reg, bytes@),
{
    let mut cur: u32 = reg;
    let mut i: usize = 0;
    while i < bytes.len()
        invariant
            i <= bytes.len(),
            cur == feed(reg, bytes@.take(i as int)),
        decreases bytes.len() - i,
    {
        proof {
            assert(bytes@.take(i + 1).drop_last() =~= bytes@.take(i as int));
        }
        cur = absorb_byte(cur, bytes[i]);
        i = i + 1;
    }
    proof {
        assert(bytes@.take(i as int) =~= bytes@);
    }
    cur
}

/// The register value that stands for the finished checksum.
pub fn finish(reg: u32) -> (out: u32)
    ensures
        out == reg ^ 0xFFFF_FFFF,
{
    reg ^ 0xFFFF_FFFF
}

/// The CRC-32 of `bytes`.
pub fn crc32(bytes: &[u8]) -> (out: u32)
    ensures
        out == checksum(bytes@),
{
    finish(update(SEED, bytes))
}

/// The CRC-32 of `head` followed by `tail`, without joining the two.
pub fn crc32_of_parts(head: &[u8], tail: &[u8]) -> (out: u32)
    ensures
        out == checksum(head@ + tail@),
{
    proof {
        lemma_feed_concat(SEED, head@, tail@);
    }
    finish(update(update(SEED, head), tail))
}

} // verus!
