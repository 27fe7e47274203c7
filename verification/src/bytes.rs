//! Little-endian integers and magic tags at a position of a byte sequence.

use vstd::prelude::*;
use crate::error::PfsError;

verus! {

/// The 16-bit value whose little-endian bytes stand at `at`.
pub open spec fn le_u16_at(s: Seq<u8>, at: int) -> u16 {
    (s[at] as int + 0x100 * (s[at + 1] as int)) as u16
}

/// The 32-bit value whose little-endian bytes stand at `at`.
pub open spec fn le_u32_at(s: Seq<u8>, at: int) -> u32 {
    (s[at] as int + 0x100 * (s[at + 1] as int) + 0x1_0000 * (s[at + 2] as int) + 0x100_0000 * (
    s[at + 3] as int)) as u32
}

/// The 64-bit value whose little-endian bytes stand at `at`.
pub open spec fn le_u64_at(s: Seq<u8>, at: int) -> u64 {
    (le_u32_at(s, at) as int + 0x1_0000_0000 * (le_u32_at(s, at + 4) as int)) as u64
}

/// How a magic tag expected at `at` fares: a byte that differs from the tag,
/// among those the buffer still holds, is a malformed magic; a tag that agrees
/// as far as the buffer goes but is cut short is an insufficient length.
pub open spec fn tag_check(s: Seq<u8>, at: int, tag: Seq<u8>) -> Option<PfsError> {
    if exists|i: int| 0 <= i < tag.len() && at + i < s.len() && s[at + i] != #[trigger] tag[i] {
        Some(PfsError::MalformedMagic)
    } else if s.len() < at + tag.len() {
        Some(PfsError::InsufficientLength)
    } else {
        None
    }
}

/// Reads a little-endian `u16`.
pub(crate) fn read_le_u16(input: &[u8], at: usize) -> (v: u16)
    requires
        at + 2 <= input@.len(),
    ensures
        v == le_u16_at(input@, at as int),
{
    let b0: u16 = input[at] as u16;
    let b1: u16 = input[at + 1] as u16;
    b0 + b1 * 0x100
}

/// Reads a little-endian `u32`.
pub(crate) fn read_le_u32(input: &[u8], at: usize) -> (v: u32)
    requires
        at + 4 <= input@.len(),
    ensures
        v == le_u32_at(input@, at as int),
{
    let b0: u32 = input[at] as u32;
    let b1: u32 = input[at + 1] as u32;
    let b2: u32 = input[at + 2] as u32;
    let b3: u32 = input[at + 3] as u32;
    b0 + b1 * 0x100 + b2 * 0x1_0000 + b3 * 0x100_0000
}

/// Reads a little-endian `u64`.
pub(crate) fn read_le_u64(input: &[u8], at: usize) -> (v: u64)
    requires
        at + 8 <= input@.len(),
    ensures
        v == le_u64_at(input@, at as int),
{
    assert(input@.len() == input.len());
    let lo: u64 = read_le_u32(input, at) as u64;
    let hi: u64 = read_le_u32(input, at + 4) as u64;
    lo + hi * 0x1_0000_0000
}

/// Compares the bytes at `at` with a magic tag.
pub(crate) fn check_tag(input: &[u8], at: usize, tag: &[u8]) -> (r: Option<PfsError>)
    requires
        at <= input@.len(),
    ensures
        r == tag_check(input@, at as int, tag@),
{
    let avail: usize = input.len() - at;
    let mut i: usize = 0;
    while i < tag.len() && i < avail
        invariant
            at <= input@.len() <= usize::MAX,
            avail == input@.len() - at,
            i <= tag@.len(),
            i <= avail,
            forall|j: int| 0 <= j < i ==> input@[at + j] == tag@[j],
        decreases tag@.len() - i,
    {
        if input[at + i] != tag[i] {
            return Some(PfsError::MalformedMagic);
        }
        i += 1;
    }
    if i < tag.len() {
        Some(PfsError::InsufficientLength)
    } else {
        None
    }
}

} // verus!
