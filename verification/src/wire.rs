//! Little-endian integers, the byte order of everything on the wire and in flash.

use vstd::prelude::*;

verus! {

/// The number spelled by two bytes, least significant first.
pub open spec fn le16(bytes: Seq<u8>) -> int
    recommends
        bytes.len() == 2,
{
    bytes[0] as int + 256 * (bytes[1] as int)
}

/// The number spelled by four bytes, least significant first.
pub open spec fn le32(bytes: Seq<u8>) -> int
    recommends
        bytes.len() == 4,
{
    bytes[0] as int + 256 * (bytes[1] as int) + 65_536 * (bytes[2] as int) + 16_777_216 * (
    bytes[3] as int)
}

/// The four bytes that spell `value`, least significant first.
pub open spec fn le32_bytes(value: int) -> Seq<u8> {
    seq![
        (value % 256) as u8,
        (value / 256 % 256) as u8,
        (value / 65_536 % 256) as u8,
        (value / 16_777_216 % 256) as u8,
    ]
}

/// Reads the 16-bit number stored at `at`.
pub(crate) fn read_le16(bytes: &[u8], at: usize) -> (value: u16)
    requires
        at + 2 <= bytes@.len(),
    ensures
        value == le16(bytes@.subrange(at as int, at + 2)),
{
    let low: u16 = bytes[at] as u16;
    let high: u16 = bytes[at + 1] as u16;
    low + 256 * high
}

/// Reads the 32-bit number stored at `at`.
pub(crate) fn read_le32(bytes: &[u8], at: usize) -> (value: u32)
    requires
        at + 4 <= bytes@.len(),
    ensures
        value == le32(bytes@.subrange(at as int, at + 4)),
{
    let b0: u32 = bytes[at] as u32;
    let b1: u32 = bytes[at + 1] as u32;
    let b2: u32 = bytes[at + 2] as u32;
    let b3: u32 = bytes[at + 3] as u32;
    b0 + 256 * b1 + 65_536 * b2 + 16_777_216 * b3
}

/// Appends the four bytes of `value` to `out`.
pub(crate) fn push_le32(out: &mut Vec<u8>, value: u32)
    ensures
        final(out)@ == old(out)@ + le32_bytes(value as int),
{
    out.push((value % 256) as u8);
    out.push((value / 256 % 256) as u8);
    out.push((value / 65_536 % 256) as u8);
    out.push((value / 16_777_216 % 256) as u8);
}

/// Two bytes always spell a number that fits sixteen bits.
pub proof fn lemma_le16_fits(bytes: Seq<u8>)
    ensures
        0 <= le16(bytes) <= u16::MAX,
{
}

/// Four bytes always spell a number that fits thirty-two bits.
pub proof fn lemma_le32_fits(bytes: Seq<u8>)
    ensures
        0 <= le32(bytes) <= u32::MAX,
{
}

/// Writing a number out and reading it back gives the number again.
pub proof fn lemma_le32_round_trip(value: u32)
    ensures
        le32_bytes(value as int).len() == 4,
        le32(le32_bytes(value as int)) == value,
{
}

/// Four bytes are the only spelling of the number they spell.
pub proof fn lemma_le32_bytes_unique(bytes: Seq<u8>)
    requires
        bytes.len() == 4,
    ensures
        le32_bytes(le32(bytes)) == bytes,
{
    let b0 = bytes[0] as int;
    let b1 = bytes[1] as int;
    let b2 = bytes[2] as int;
    let b3 = bytes[3] as int;
    let value = le32(bytes);
    assert(value == b0 + 256 * (b1 + 256 * (b2 + 256 * b3)));
    assert(value % 256 == b0 && value / 256 == b1 + 256 * (b2 + 256 * b3));
    assert(value / 256 % 256 == b1 && value / 65_536 == b2 + 256 * b3);
    assert(value / 65_536 % 256 == b2 && value / 16_777_216 == b3);
    assert(le32_bytes(value) =~= bytes);
}

} // verus!
