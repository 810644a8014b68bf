//! Big-endian integers as they stand in a DNS packet.

use vstd::prelude::*;

verus! {

/// The two bytes of `n`, most significant first.
pub open spec fn spec_u16_be(n: u16) -> Seq<u8> {
    seq![(n / 256) as u8, (n % 256) as u8]
}

/// The four bytes of `n`, most significant first.
pub open spec fn spec_u32_be(n: u32) -> Seq<u8> {
    seq![
        (n / 0x100_0000) as u8,
        ((n / 0x1_0000) % 256) as u8,
        ((n / 0x100) % 256) as u8,
        (n % 256) as u8,
    ]
}

/// The 16-bit integer whose big-endian bytes stand at `pos` and `pos + 1`.
pub open spec fn spec_read_u16(bytes: Seq<u8>, pos: int) -> u16
    recommends
        0 <= pos,
        pos + 2 <= bytes.len(),
{
    (bytes[pos] * 256 + bytes[pos + 1]) as u16
}

/// The 32-bit integer whose big-endian bytes stand at `pos` to `pos + 3`.
pub open spec fn spec_read_u32(bytes: Seq<u8>, pos: int) -> u32
    recommends
        0 <= pos,
        pos + 4 <= bytes.len(),
{
    (bytes[pos] * 0x100_0000 + bytes[pos + 1] * 0x1_0000 + bytes[pos + 2] * 0x100 + bytes[pos
        + 3]) as u32
}

/// Reads the 16-bit big-endian integer at `pos`.
pub fn read_u16(bytes: &[u8], pos: usize) -> (n: u16)
    requires
        pos + 2 <= bytes@.len(),
    ensures
        n == spec_read_u16(bytes@, pos as int),
{
    (bytes[pos] as u16) * 256 + (bytes[pos + 1] as u16)
}

/// Reads the 32-bit big-endian integer at `pos`.
pub fn read_u32(bytes: &[u8], pos: usize) -> (n: u32)
    requires
        pos + 4 <= bytes@.len(),
    ensures
        n == spec_read_u32(bytes@, pos as int),
{
    (bytes[pos] as u32) * 0x100_0000 + (bytes[pos + 1] as u32) * 0x1_0000 + (bytes[pos
        + 2] as u32) * 0x100 + (bytes[pos + 3] as u32)
}

/// Reading what `spec_u16_be` wrote gives the integer back, wherever the two
/// bytes stand.
pub proof fn lemma_read_u16_of_be(bytes: Seq<u8>, pos: int, n: u16)
    requires
        0 <= pos,
        pos + 2 <= bytes.len(),
        bytes.subrange(pos, pos + 2) == spec_u16_be(n),
    ensures
        spec_read_u16(bytes, pos) == n,
{
    let two = bytes.subrange(pos, pos + 2);
    assert(two[0] == bytes[pos] && two[1] == bytes[pos + 1]);
}

/// Reading what `spec_u32_be` wrote gives the integer back, wherever the four
/// bytes stand.
pub proof fn lemma_read_u32_of_be(bytes: Seq<u8>, pos: int, n: u32)
    requires
        0 <= pos,
        pos + 4 <= bytes.len(),
        bytes.subrange(pos, pos + 4) == spec_u32_be(n),
    ensures
        spec_read_u32(bytes, pos) == n,
{
    let four = bytes.subrange(pos, pos + 4);
    assert(four[0] == bytes[pos] && four[1] == bytes[pos + 1] && four[2] == bytes[pos + 2]
        && four[3] == bytes[pos + 3]);
}

} // verus!
