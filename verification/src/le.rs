//! Little-endian fixed-width field decoding over byte sequences.
//!
//! Every multi-byte field of the container format is little-endian; these
//! spec functions define the value of such a field at a byte position, and
//! the executable readers are proved against them.
use vstd::prelude::*;

verus! {

/// The 16-bit little-endian value at byte position `pos`.
pub open spec fn le16_at(data: Seq<u8>, pos: int) -> u16
    recommends
        0 <= pos,
        pos + 2 <= data.len(),
{
    (data[pos] + data[pos + 1] * 0x100) as u16
}

/// The 32-bit little-endian value at byte position `pos`.
pub open spec fn le32_at(data: Seq<u8>, pos: int) -> u32
    recommends
        0 <= pos,
        pos + 4 <= data.len(),
{
    (data[pos] + data[pos + 1] * 0x100 + data[pos + 2] * 0x1_0000 + data[pos + 3]
        * 0x100_0000) as u32
}

/// The 64-bit little-endian value at byte position `pos`.
pub open spec fn le64_at(data: Seq<u8>, pos: int) -> u64
    recommends
        0 <= pos,
        pos + 8 <= data.len(),
{
    (data[pos] + data[pos + 1] * 0x100 + data[pos + 2] * 0x1_0000 + data[pos + 3] * 0x100_0000
        + data[pos + 4] * 0x1_0000_0000 + data[pos + 5] * 0x100_0000_0000 + data[pos + 6]
        * 0x1_0000_0000_0000 + data[pos + 7] * 0x100_0000_0000_0000) as u64
}

/// Reads the 16-bit little-endian field at `pos` of `b`.
pub fn read_u16_at(b: &Vec<u8>, pos: usize) -> (x: u16)
    requires
        pos + 2 <= b.len(),
    ensures
        x == le16_at(b@, pos as int),
{
    let b0: u16 = b[pos] as u16;
    let b1: u16 = b[pos + 1] as u16;
    b0 + b1 * 0x100
}

/// Reads the 32-bit little-endian field at `pos` of `b`.
pub fn read_u32_at(b: &Vec<u8>, pos: usize) -> (x: u32)
    requires
        pos + 4 <= b.len(),
    ensures
        x == le32_at(b@, pos as int),
{
    let b0: u32 = b[pos] as u32;
    let b1: u32 = b[pos + 1] as u32;
    let b2: u32 = b[pos + 2] as u32;
    let b3: u32 = b[pos + 3] as u32;
    b0 + b1 * 0x100 + b2 * 0x1_0000 + b3 * 0x100_0000
}

/// Reads the 64-bit little-endian field at `pos` of `b`.
pub fn read_u64_at(b: &Vec<u8>, pos: usize) -> (x: u64)
    requires
        pos + 8 <= b.len(),
    ensures
        x == le64_at(b@, pos as int),
{
    let b0: u64 = b[pos] as u64;
    let b1: u64 = b[pos + 1] as u64;
    let b2: u64 = b[pos + 2] as u64;
    let b3: u64 = b[pos + 3] as u64;
    let b4: u64 = b[pos + 4] as u64;
    let b5: u64 = b[pos + 5] as u64;
    let b6: u64 = b[pos + 6] as u64;
    let b7: u64 = b[pos + 7] as u64;
    b0 + b1 * 0x100 + b2 * 0x1_0000 + b3 * 0x100_0000 + b4 * 0x1_0000_0000 + b5 * 0x100_0000_0000
        + b6 * 0x1_0000_0000_0000 + b7 * 0x100_0000_0000_0000
}

/// The value of a little-endian field depends only on the bytes it covers:
/// two sources that agree on `[pos, pos + width)` give the same field.
pub proof fn lemma_le_fields_local(d1: Seq<u8>, d2: Seq<u8>, pos: int)
    requires
        0 <= pos,
    ensures
        pos + 2 <= d1.len() && pos + 2 <= d2.len() && (forall|i: int|
            pos <= i < pos + 2 ==> d1[i] == d2[i]) ==> le16_at(d1, pos) == le16_at(d2, pos),
        pos + 4 <= d1.len() && pos + 4 <= d2.len() && (forall|i: int|
            pos <= i < pos + 4 ==> d1[i] == d2[i]) ==> le32_at(d1, pos) == le32_at(d2, pos),
        pos + 8 <= d1.len() && pos + 8 <= d2.len() && (forall|i: int|
            pos <= i < pos + 8 ==> d1[i] == d2[i]) ==> le64_at(d1, pos) == le64_at(d2, pos),
{
}

} // verus!
