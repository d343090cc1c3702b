//! Little-endian scalar reads at a byte offset, whatever the host's byte order.
use vstd::prelude::*;
use crate::buffer::Buffer;

verus! {

/// Number of bytes of an unsigned forward offset.
pub const SIZE_UOFFSET: usize = 4;

/// Number of bytes of a signed backward offset.
pub const SIZE_SOFFSET: usize = 4;

/// Number of bytes of a field-offset table entry.
pub const SIZE_VOFFSET: usize = 2;

/// Number of bytes of a buffer's file identifier.
pub const FILE_IDENTIFIER_LENGTH: usize = 4;

/// The unsigned value of the two bytes at `i`, least significant first.
pub open spec fn le_u16(b: Seq<u8>, i: int) -> int {
    b[i] + 256 * b[i + 1]
}

/// The unsigned value of the four bytes at `i`, least significant first.
pub open spec fn le_u32(b: Seq<u8>, i: int) -> int {
    le_u16(b, i) + 65536 * le_u16(b, i + 2)
}

/// The unsigned value of the eight bytes at `i`, least significant first.
pub open spec fn le_u64(b: Seq<u8>, i: int) -> int {
    le_u32(b, i) + 4294967296 * le_u32(b, i + 4)
}

/// The two's-complement value of the four bytes at `i`.
pub open spec fn le_i32(b: Seq<u8>, i: int) -> int {
    if le_u32(b, i) >= 0x8000_0000 {
        le_u32(b, i) - 0x1_0000_0000
    } else {
        le_u32(b, i)
    }
}

/// The two's-complement value of the eight bytes at `i`.
pub open spec fn le_i64(b: Seq<u8>, i: int) -> int {
    if le_u64(b, i) >= 0x8000_0000_0000_0000 {
        le_u64(b, i) - 0x1_0000_0000_0000_0000
    } else {
        le_u64(b, i)
    }
}

/// Reads the two bytes at `loc` as a little-endian `u16`.
pub fn read_u16_at<B: Buffer>(b: &B, loc: usize) -> (r: u16)
    requires
        loc + 2 <= b.bytes().len(),
    ensures
        r == le_u16(b.bytes(), loc as int),
{
    proof {
        b.lemma_len_fits();
    }
    b.byte_at(loc) as u16 + 256 * (b.byte_at(loc + 1) as u16)
}

/// Reads the four bytes at `loc` as a little-endian `u32`.
pub fn read_u32_at<B: Buffer>(b: &B, loc: usize) -> (r: u32)
    requires
        loc + 4 <= b.bytes().len(),
    ensures
        r == le_u32(b.bytes(), loc as int),
{
    proof {
        b.lemma_len_fits();
    }
    let lo = read_u16_at(b, loc) as u32;
    let hi = read_u16_at(b, loc + 2) as u32;
    lo + 65536 * hi
}

/// Reads the eight bytes at `loc` as a little-endian `u64`.
pub fn read_u64_at<B: Buffer>(b: &B, loc: usize) -> (r: u64)
    requires
        loc + 8 <= b.bytes().len(),
    ensures
        r == le_u64(b.bytes(), loc as int),
{
    proof {
        b.lemma_len_fits();
    }
    let lo = read_u32_at(b, loc) as u64;
    let hi = read_u32_at(b, loc + 4) as u64;
    lo + 4294967296 * hi
}

/// Reads the four bytes at `loc` as a little-endian `i32`.
pub fn read_i32_at<B: Buffer>(b: &B, loc: usize) -> (r: i32)
    requires
        loc + 4 <= b.bytes().len(),
    ensures
        r == le_i32(b.bytes(), loc as int),
{
    let u = read_u32_at(b, loc);
    if u >= 0x8000_0000 {
        ((u - 0x8000_0000) as i32) - 0x7fff_ffff - 1
    } else {
        u as i32
    }
}

/// Reads the eight bytes at `loc` as a little-endian `i64`.
pub fn read_i64_at<B: Buffer>(b: &B, loc: usize) -> (r: i64)
    requires
        loc + 8 <= b.bytes().len(),
    ensures
        r == le_i64(b.bytes(), loc as int),
{
    let u = read_u64_at(b, loc);
    if u >= 0x8000_0000_0000_0000 {
        ((u - 0x8000_0000_0000_0000) as i64) - 0x7fff_ffff_ffff_ffff - 1
    } else {
        u as i64
    }
}

} // verus!
