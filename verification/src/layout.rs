//! Byte layout of a page: where each header field lives and how integers are
//! laid down in the buffer.
//!
//! Every multi-byte field is stored little-endian at a fixed offset, so the
//! image of a page does not depend on how the compiler lays out a struct.

use crate::page_constants::PAGE_SIZE;
use vstd::prelude::*;

verus! {

/// Offset of the log-sequence-number, 8 bytes.
pub const LSN_OFFSET: usize = 0;

/// Offset of the page identifier, 8 bytes.
pub const PAGE_ID_OFFSET: usize = 8;

/// Offset of the checksum, 4 bytes.
pub const CHECKSUM_OFFSET: usize = 16;

/// Offset of the free-space pointer, 4 bytes.
pub const FREE_SPACE_POINTER_OFFSET: usize = 20;

/// Offset of the item count, 4 bytes.
pub const ITEM_COUNT_OFFSET: usize = 24;

/// Offset of the page-type tag, 2 bytes.
pub const PAGE_TYPE_OFFSET: usize = 28;

/// Offset of the padding that rounds the header up to 8-byte alignment, 2 bytes.
pub const PADDING_OFFSET: usize = 30;

/// The two bytes of `s` from `at` on, read as a little-endian number.
pub open spec fn le_u16(s: Seq<u8>, at: int) -> u16 {
    (s[at] as int + 0x100 * (s[at + 1] as int)) as u16
}

/// The four bytes of `s` from `at` on, read as a little-endian number.
pub open spec fn le_u32(s: Seq<u8>, at: int) -> u32 {
    (le_u16(s, at) as int + 0x1_0000 * (le_u16(s, at + 2) as int)) as u32
}

/// The eight bytes of `s` from `at` on, read as a little-endian number.
pub open spec fn le_u64(s: Seq<u8>, at: int) -> u64 {
    (le_u32(s, at) as int + 0x1_0000_0000 * (le_u32(s, at + 4) as int)) as u64
}

/// The two bytes that store `v`, least significant first.
pub open spec fn u16_le_bytes(v: u16) -> Seq<u8> {
    seq![(v % 0x100) as u8, (v / 0x100) as u8]
}

/// The four bytes that store `v`, least significant first.
pub open spec fn u32_le_bytes(v: u32) -> Seq<u8> {
    u16_le_bytes((v % 0x1_0000) as u16) + u16_le_bytes((v / 0x1_0000) as u16)
}

/// The eight bytes that store `v`, least significant first.
pub open spec fn u64_le_bytes(v: u64) -> Seq<u8> {
    u32_le_bytes((v % 0x1_0000_0000) as u32) + u32_le_bytes((v / 0x1_0000_0000) as u32)
}

/// `s` with `part` written over it from index `at` on; the length of `s` is kept.
pub open spec fn overwrite(s: Seq<u8>, at: int, part: Seq<u8>) -> Seq<u8> {
    Seq::new(
        s.len(),
        |i: int|
            if at <= i < at + part.len() {
                part[i - at]
            } else {
                s[i]
            },
    )
}

/// A sequence of `len` zero bytes.
pub open spec fn zeros(len: nat) -> Seq<u8> {
    Seq::new(len, |i: int| 0u8)
}

/// Two writes, one right behind the other, are one write of both parts.
pub proof fn lemma_overwrite_in_order(s: Seq<u8>, at: int, first: Seq<u8>, second: Seq<u8>)
    requires
        0 <= at,
        at + first.len() + second.len() <= s.len(),
    ensures
        overwrite(overwrite(s, at, first), at + first.len(), second) == overwrite(
            s,
            at,
            first + second,
        ),
{
    assert(overwrite(overwrite(s, at, first), at + first.len(), second) =~= overwrite(
        s,
        at,
        first + second,
    ));
}

/// A write at the start of a sequence replaces its head and keeps its tail.
pub proof fn lemma_overwrite_head(s: Seq<u8>, part: Seq<u8>)
    requires
        part.len() <= s.len(),
    ensures
        overwrite(s, 0, part) == part + s.subrange(part.len() as int, s.len() as int),
{
    assert(overwrite(s, 0, part) =~= part + s.subrange(part.len() as int, s.len() as int));
}

/// Reading back two bytes that were written gives the value that was written.
pub proof fn lemma_u16_written_is_read(s: Seq<u8>, at: int, v: u16)
    requires
        0 <= at,
        at + 2 <= s.len(),
    ensures
        le_u16(overwrite(s, at, u16_le_bytes(v)), at) == v,
{
    let t = overwrite(s, at, u16_le_bytes(v));
    assert(t[at] == u16_le_bytes(v)[0]);
    assert(t[at + 1] == u16_le_bytes(v)[1]);
}

/// Reading back four bytes that were written gives the value that was written.
pub proof fn lemma_u32_written_is_read(s: Seq<u8>, at: int, v: u32)
    requires
        0 <= at,
        at + 4 <= s.len(),
    ensures
        le_u32(overwrite(s, at, u32_le_bytes(v)), at) == v,
{
    let part = u32_le_bytes(v);
    let t = overwrite(s, at, part);
    assert(t[at] == part[0]);
    assert(t[at + 1] == part[1]);
    assert(t[at + 2] == part[2]);
    assert(t[at + 3] == part[3]);
}

/// Reading back eight bytes that were written gives the value that was written.
pub proof fn lemma_u64_written_is_read(s: Seq<u8>, at: int, v: u64)
    requires
        0 <= at,
        at + 8 <= s.len(),
    ensures
        le_u64(overwrite(s, at, u64_le_bytes(v)), at) == v,
{
    let part = u64_le_bytes(v);
    let t = overwrite(s, at, part);
    assert(t[at] == part[0]);
    assert(t[at + 1] == part[1]);
    assert(t[at + 2] == part[2]);
    assert(t[at + 3] == part[3]);
    assert(t[at + 4] == part[4]);
    assert(t[at + 5] == part[5]);
    assert(t[at + 6] == part[6]);
    assert(t[at + 7] == part[7]);
}

/// Reads the 2-byte little-endian number stored at `at`.
pub fn read_u16(data: &[u8; PAGE_SIZE], at: usize) -> (v: u16)
    requires
        at + 2 <= PAGE_SIZE,
    ensures
        v == le_u16(data@, at as int),
{
    let b0 = data[at] as u16;
    let b1 = data[at + 1] as u16;
    b0 + 0x100 * b1
}

/// Reads the 4-byte little-endian number stored at `at`.
pub fn read_u32(data: &[u8; PAGE_SIZE], at: usize) -> (v: u32)
    requires
        at + 4 <= PAGE_SIZE,
    ensures
        v == le_u32(data@, at as int),
{
    let lo = read_u16(data, at) as u32;
    let hi = read_u16(data, at + 2) as u32;
    lo + 0x1_0000 * hi
}

/// Reads the 8-byte little-endian number stored at `at`.
pub fn read_u64(data: &[u8; PAGE_SIZE], at: usize) -> (v: u64)
    requires
        at + 8 <= PAGE_SIZE,
    ensures
        v == le_u64(data@, at as int),
{
    let lo = read_u32(data, at) as u64;
    let hi = read_u32(data, at + 4) as u64;
    lo + 0x1_0000_0000 * hi
}

/// Stores `v` at `at` as 2 little-endian bytes and leaves every other byte alone.
pub fn write_u16(data: &mut [u8; PAGE_SIZE], at: usize, v: u16)
    requires
        at + 2 <= PAGE_SIZE,
    ensures
        final(data)@ == overwrite(old(data)@, at as int, u16_le_bytes(v)),
{
    data[at] = (v % 0x100) as u8;
    data[at + 1] = (v / 0x100) as u8;
}

/// Stores `v` at `at` as 4 little-endian bytes and leaves every other byte alone.
pub fn write_u32(data: &mut [u8; PAGE_SIZE], at: usize, v: u32)
    requires
        at + 4 <= PAGE_SIZE,
    ensures
        final(data)@ == overwrite(old(data)@, at as int, u32_le_bytes(v)),
{
    write_u16(data, at, (v % 0x1_0000) as u16);
    write_u16(data, at + 2, (v / 0x1_0000) as u16);
}

/// Stores `v` at `at` as 8 little-endian bytes and leaves every other byte alone.
pub fn write_u64(data: &mut [u8; PAGE_SIZE], at: usize, v: u64)
    requires
        at + 8 <= PAGE_SIZE,
    ensures
        final(data)@ == overwrite(old(data)@, at as int, u64_le_bytes(v)),
{
    write_u32(data, at, (v % 0x1_0000_0000) as u32);
    write_u32(data, at + 4, (v / 0x1_0000_0000) as u32);
}

} // verus!
