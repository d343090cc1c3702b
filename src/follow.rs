//! Decoding a value at an offset of a buffer, and the combinators that move
//! the offset before decoding.
use vstd::prelude::*;
use core::marker::PhantomData;
use crate::buffer::Buffer;
use crate::endian::{
    le_i32, le_i64, le_u16, le_u32, le_u64, read_i32_at, read_i64_at, read_u16_at, read_u32_at,
    read_u64_at, FILE_IDENTIFIER_LENGTH, SIZE_SOFFSET, SIZE_UOFFSET,
};

verus! {

/// A structural defect found before any typed access.
#[derive(Clone, Copy, Debug, PartialEq, Eq, Structural)]
pub enum InvalidFlatbuffer {
    /// A read of `start..end` would leave the buffer.
    RangeOutOfBounds { start: usize, end: usize },
    /// The backward offset `soffset` stored at `position` points outside the buffer.
    SignedOffsetOutOfBounds { soffset: i32, position: usize },
    /// The field-offset table at `position` has a malformed header.
    MalformedVTable { position: usize },
    /// The buffer holds `size` bytes, more than the options allow.
    ApparentSizeTooLarge { size: usize },
}

/// Succeeds exactly when the `n` bytes from `loc` lie inside the buffer.
pub fn check_range<B: Buffer>(buf: &B, loc: usize, n: usize) -> (r: Result<(), InvalidFlatbuffer>)
    ensures
        r is Ok <==> loc + n <= buf.bytes().len(),
        r is Err ==> r->Err_0 == (InvalidFlatbuffer::RangeOutOfBounds {
            start: loc,
            end: if loc + n <= usize::MAX { (loc + n) as usize } else { usize::MAX },
        }),
        buf.bytes().len() <= usize::MAX,
{
    let len = buf.len();
    if loc <= len && n <= len - loc {
        Ok(())
    } else {
        let end = if n <= usize::MAX - loc { loc + n } else { usize::MAX };
        Err(InvalidFlatbuffer::RangeOutOfBounds { start: loc, end })
    }
}

/// Interprets the bytes of a buffer at a location as a value.
pub trait Follow<B: Buffer>: Sized {
    /// What decoding produces.
    type Inner;

    /// Bytes that one value takes inline where it is an element of a vector.
    spec fn stride() -> nat;

    /// Holds where the value at `loc` can be decoded without leaving `bytes`.
    spec fn followable(bytes: Seq<u8>, loc: int) -> bool;

    /// Holds where `r` is the value that decoding at `loc` of `bytes` gives.
    spec fn decoded(bytes: Seq<u8>, loc: int, r: Self::Inner) -> bool;

    /// The stride, as a machine integer.
    fn size() -> (r: usize)
        ensures
            r == Self::stride(),
            r > 0,
    ;

    /// Decodes the value at `loc`.
    fn follow(buf: B, loc: usize) -> (r: Self::Inner)
        requires
            Self::followable(buf.bytes(), loc as int),
        ensures
            Self::decoded(buf.bytes(), loc as int, r),
    ;

    /// Checks the structure of the value at `loc` before it is decoded.
    fn run_verifier(buf: &B, loc: usize) -> (r: Result<(), InvalidFlatbuffer>)
        ensures
            r is Ok <==> Self::followable(buf.bytes(), loc as int),
    ;
}

/// Holds where `n` bytes from `loc` lie inside `bytes`.
pub open spec fn in_bounds(bytes: Seq<u8>, loc: int, n: int) -> bool {
    0 <= loc && loc + n <= bytes.len()
}

impl<B: Buffer> Follow<B> for u8 {
    type Inner = u8;

    open spec fn stride() -> nat { 1 }

    open spec fn followable(bytes: Seq<u8>, loc: int) -> bool { in_bounds(bytes, loc, 1) }

    open spec fn decoded(bytes: Seq<u8>, loc: int, r: u8) -> bool { r == bytes[loc] }

    fn size() -> (r: usize) { 1 }

    fn follow(buf: B, loc: usize) -> (r: u8) { buf.byte_at(loc) }

    fn run_verifier(buf: &B, loc: usize) -> (r: Result<(), InvalidFlatbuffer>) {
        check_range(buf, loc, 1)
    }
}

impl<B: Buffer> Follow<B> for bool {
    type Inner = bool;

    open spec fn stride() -> nat { 1 }

    open spec fn followable(bytes: Seq<u8>, loc: int) -> bool { in_bounds(bytes, loc, 1) }

    open spec fn decoded(bytes: Seq<u8>, loc: int, r: bool) -> bool { r == (bytes[loc] != 0) }

    fn size() -> (r: usize) { 1 }

    fn follow(buf: B, loc: usize) -> (r: bool) { buf.byte_at(loc) != 0 }

    fn run_verifier(buf: &B, loc: usize) -> (r: Result<(), InvalidFlatbuffer>) {
        check_range(buf, loc, 1)
    }
}

impl<B: Buffer> Follow<B> for u16 {
    type Inner = u16;

    open spec fn stride() -> nat { 2 }

    open spec fn followable(bytes: Seq<u8>, loc: int) -> bool { in_bounds(bytes, loc, 2) }

    open spec fn decoded(bytes: Seq<u8>, loc: int, r: u16) -> bool { r == le_u16(bytes, loc) }

    fn size() -> (r: usize) { 2 }

    fn follow(buf: B, loc: usize) -> (r: u16) { read_u16_at(&buf, loc) }

    fn run_verifier(buf: &B, loc: usize) -> (r: Result<(), InvalidFlatbuffer>) {
        check_range(buf, loc, 2)
    }
}

impl<B: Buffer> Follow<B> for u32 {
    type Inner = u32;

    open spec fn stride() -> nat { 4 }

    open spec fn followable(bytes: Seq<u8>, loc: int) -> bool { in_bounds(bytes, loc, 4) }

    open spec fn decoded(bytes: Seq<u8>, loc: int, r: u32) -> bool { r == le_u32(bytes, loc) }

    fn size() -> (r: usize) { 4 }

    fn follow(buf: B, loc: usize) -> (r: u32) { read_u32_at(&buf, loc) }

    fn run_verifier(buf: &B, loc: usize) -> (r: Result<(), InvalidFlatbuffer>) {
        check_range(buf, loc, 4)
    }
}

impl<B: Buffer> Follow<B> for i32 {
    type Inner = i32;

    open spec fn stride() -> nat { 4 }

    open spec fn followable(bytes: Seq<u8>, loc: int) -> bool { in_bounds(bytes, loc, 4) }

    open spec fn decoded(bytes: Seq<u8>, loc: int, r: i32) -> bool { r == le_i32(bytes, loc) }

    fn size() -> (r: usize) { 4 }

    fn follow(buf: B, loc: usize) -> (r: i32) { read_i32_at(&buf, loc) }

    fn run_verifier(buf: &B, loc: usize) -> (r: Result<(), InvalidFlatbuffer>) {
        check_range(buf, loc, 4)
    }
}

impl<B: Buffer> Follow<B> for u64 {
    type Inner = u64;

    open spec fn stride() -> nat { 8 }

    open spec fn followable(bytes: Seq<u8>, loc: int) -> bool { in_bounds(bytes, loc, 8) }

    open spec fn decoded(bytes: Seq<u8>, loc: int, r: u64) -> bool { r == le_u64(bytes, loc) }

    fn size() -> (r: usize) { 8 }

    fn follow(buf: B, loc: usize) -> (r: u64) { read_u64_at(&buf, loc) }

    fn run_verifier(buf: &B, loc: usize) -> (r: Result<(), InvalidFlatbuffer>) {
        check_range(buf, loc, 8)
    }
}

impl<B: Buffer> Follow<B> for i64 {
    type Inner = i64;

    open spec fn stride() -> nat { 8 }

    open spec fn followable(bytes: Seq<u8>, loc: int) -> bool { in_bounds(bytes, loc, 8) }

    open spec fn decoded(bytes: Seq<u8>, loc: int, r: i64) -> bool { r == le_i64(bytes, loc) }

    fn size() -> (r: usize) { 8 }

    fn follow(buf: B, loc: usize) -> (r: i64) { read_i64_at(&buf, loc) }

    fn run_verifier(buf: &B, loc: usize) -> (r: Result<(), InvalidFlatbuffer>) {
        check_range(buf, loc, 8)
    }
}

/// A 4-byte unsigned offset at the location; the value sits that far ahead.
pub struct ForwardsUOffset<T>(PhantomData<T>);

/// Where the forward offset stored at `loc` points.
pub open spec fn forward_target(bytes: Seq<u8>, loc: int) -> int {
    loc + le_u32(bytes, loc)
}

impl<B: Buffer, T: Follow<B>> Follow<B> for ForwardsUOffset<T> {
    type Inner = T::Inner;

    open spec fn stride() -> nat { 4 }

    open spec fn followable(bytes: Seq<u8>, loc: int) -> bool {
        &&& in_bounds(bytes, loc, 4)
        &&& forward_target(bytes, loc) <= bytes.len()
        &&& T::followable(bytes, forward_target(bytes, loc))
    }

    open spec fn decoded(bytes: Seq<u8>, loc: int, r: T::Inner) -> bool {
        T::decoded(bytes, forward_target(bytes, loc), r)
    }

    fn size() -> (r: usize) { SIZE_UOFFSET }

    fn follow(buf: B, loc: usize) -> (r: T::Inner) {
        proof {
            buf.lemma_len_fits();
        }
        let off = read_u32_at(&buf, loc) as usize;
        T::follow(buf, loc + off)
    }

    fn run_verifier(buf: &B, loc: usize) -> (r: Result<(), InvalidFlatbuffer>) {
        check_range(buf, loc, SIZE_UOFFSET)?;
        let off = read_u32_at(buf, loc) as usize;
        check_range(buf, loc, off)?;
        T::run_verifier(buf, loc + off)
    }
}

/// A 4-byte signed offset at the location; the value sits that far behind.
pub struct BackwardsSOffset<T>(PhantomData<T>);

/// Where the backward offset stored at `loc` points.
pub open spec fn backward_target(bytes: Seq<u8>, loc: int) -> int {
    loc - le_i32(bytes, loc)
}

impl<B: Buffer, T: Follow<B>> Follow<B> for BackwardsSOffset<T> {
    type Inner = T::Inner;

    open spec fn stride() -> nat { 4 }

    open spec fn followable(bytes: Seq<u8>, loc: int) -> bool {
        &&& in_bounds(bytes, loc, 4)
        &&& 0 <= backward_target(bytes, loc) <= bytes.len()
        &&& T::followable(bytes, backward_target(bytes, loc))
    }

    open spec fn decoded(bytes: Seq<u8>, loc: int, r: T::Inner) -> bool {
        T::decoded(bytes, backward_target(bytes, loc), r)
    }

    fn size() -> (r: usize) { SIZE_SOFFSET }

    fn follow(buf: B, loc: usize) -> (r: T::Inner) {
        let target = backward_location(&buf, loc);
        T::follow(buf, target)
    }

    fn run_verifier(buf: &B, loc: usize) -> (r: Result<(), InvalidFlatbuffer>) {
        check_range(buf, loc, SIZE_SOFFSET)?;
        let soffset = read_i32_at(buf, loc);
        let len = buf.len();
        if soffset >= 0 && soffset as usize > loc {
            return Err(InvalidFlatbuffer::SignedOffsetOutOfBounds { soffset, position: loc });
        }
        if soffset < 0 && (len - loc) < ((-(soffset as i64)) as usize) {
            return Err(InvalidFlatbuffer::SignedOffsetOutOfBounds { soffset, position: loc });
        }
        let target = backward_location(buf, loc);
        T::run_verifier(buf, target)
    }
}

/// The location that the backward offset stored at `loc` points to.
fn backward_location<B: Buffer>(buf: &B, loc: usize) -> (r: usize)
    requires
        in_bounds(buf.bytes(), loc as int, 4),
        0 <= backward_target(buf.bytes(), loc as int) <= buf.bytes().len(),
    ensures
        r == backward_target(buf.bytes(), loc as int),
{
    proof {
        buf.lemma_len_fits();
    }
    let soffset = read_i32_at(buf, loc);
    if soffset >= 0 {
        loc - soffset as usize
    } else {
        loc + (-(soffset as i64)) as usize
    }
}

/// Skips the 4-byte total-size field of a size-prefixed buffer.
pub struct SkipSizePrefix<T>(PhantomData<T>);

impl<B: Buffer, T: Follow<B>> Follow<B> for SkipSizePrefix<T> {
    type Inner = T::Inner;

    open spec fn stride() -> nat { T::stride() }

    open spec fn followable(bytes: Seq<u8>, loc: int) -> bool {
        &&& in_bounds(bytes, loc, 4)
        &&& T::followable(bytes, loc + 4)
    }

    open spec fn decoded(bytes: Seq<u8>, loc: int, r: T::Inner) -> bool {
        T::decoded(bytes, loc + 4, r)
    }

    fn size() -> (r: usize) { T::size() }

    fn follow(buf: B, loc: usize) -> (r: T::Inner) {
        proof {
            buf.lemma_len_fits();
        }
        T::follow(buf, loc + SIZE_UOFFSET)
    }

    fn run_verifier(buf: &B, loc: usize) -> (r: Result<(), InvalidFlatbuffer>) {
        check_range(buf, loc, SIZE_UOFFSET)?;
        T::run_verifier(buf, loc + SIZE_UOFFSET)
    }
}

/// Skips the 4-byte forward offset to a buffer's root.
pub struct SkipRootOffset<T>(PhantomData<T>);

impl<B: Buffer, T: Follow<B>> Follow<B> for SkipRootOffset<T> {
    type Inner = T::Inner;

    open spec fn stride() -> nat { T::stride() }

    open spec fn followable(bytes: Seq<u8>, loc: int) -> bool {
        &&& in_bounds(bytes, loc, 4)
        &&& T::followable(bytes, loc + 4)
    }

    open spec fn decoded(bytes: Seq<u8>, loc: int, r: T::Inner) -> bool {
        T::decoded(bytes, loc + 4, r)
    }

    fn size() -> (r: usize) { T::size() }

    fn follow(buf: B, loc: usize) -> (r: T::Inner) {
        proof {
            buf.lemma_len_fits();
        }
        T::follow(buf, loc + SIZE_UOFFSET)
    }

    fn run_verifier(buf: &B, loc: usize) -> (r: Result<(), InvalidFlatbuffer>) {
        check_range(buf, loc, SIZE_UOFFSET)?;
        T::run_verifier(buf, loc + SIZE_UOFFSET)
    }
}

/// The 4 bytes of a buffer's file identifier, as a window of the same storage.
pub struct FileIdentifier;

impl<B: Buffer> Follow<B> for FileIdentifier {
    type Inner = B;

    open spec fn stride() -> nat { 4 }

    open spec fn followable(bytes: Seq<u8>, loc: int) -> bool { in_bounds(bytes, loc, 4) }

    open spec fn decoded(bytes: Seq<u8>, loc: int, r: B) -> bool {
        r.bytes() == bytes.subrange(loc, loc + 4)
    }

    fn size() -> (r: usize) { FILE_IDENTIFIER_LENGTH }

    fn follow(buf: B, loc: usize) -> (r: B) {
        proof {
            buf.lemma_len_fits();
        }
        buf.slice(loc, loc + FILE_IDENTIFIER_LENGTH).unwrap()
    }

    fn run_verifier(buf: &B, loc: usize) -> (r: Result<(), InvalidFlatbuffer>) {
        check_range(buf, loc, FILE_IDENTIFIER_LENGTH)
    }
}

} // verus!
