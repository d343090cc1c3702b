//! Entry points that turn a buffer into a typed view of its root.
use vstd::prelude::*;
use crate::buffer::Buffer;
use crate::endian::le_u16;
use crate::follow::{
    backward_target, forward_target, Follow, ForwardsUOffset, InvalidFlatbuffer, SkipSizePrefix,
};
use crate::table::Table;

verus! {

/// The size limit that checked access applies unless told otherwise.
pub const DEFAULT_MAX_APPARENT_SIZE: usize = 0x8000_0000;

/// Limits that checked access applies to a buffer.
#[derive(Clone, Copy, Debug, PartialEq, Eq, Structural)]
pub struct VerifierOptions {
    /// The largest buffer, in bytes, that is accepted.
    pub max_apparent_size: usize,
}

impl Default for VerifierOptions {
    fn default() -> (r: Self)
        ensures
            r.max_apparent_size == DEFAULT_MAX_APPARENT_SIZE,
    {
        VerifierOptions { max_apparent_size: DEFAULT_MAX_APPARENT_SIZE }
    }
}

/// The default options, in specifications.
pub open spec fn default_options() -> VerifierOptions {
    VerifierOptions { max_apparent_size: DEFAULT_MAX_APPARENT_SIZE }
}

/// Holds where a buffer of `bytes` is accepted under `opts` with a root of type `T`.
pub open spec fn root_accepted<B: Buffer, T: Follow<B>>(
    opts: VerifierOptions,
    bytes: Seq<u8>,
) -> bool {
    &&& bytes.len() <= opts.max_apparent_size
    &&& <ForwardsUOffset<T> as Follow<B>>::followable(bytes, 0)
}

/// Holds where a size-prefixed buffer of `bytes` is accepted under `opts`
/// with a root of type `T`.
pub open spec fn size_prefixed_root_accepted<B: Buffer, T: Follow<B>>(
    opts: VerifierOptions,
    bytes: Seq<u8>,
) -> bool {
    &&& bytes.len() <= opts.max_apparent_size
    &&& <SkipSizePrefix<ForwardsUOffset<T>> as Follow<B>>::followable(bytes, 0)
}

/// The root of a buffer, checked first under default options.
pub fn root<T: Follow<B>, B: Buffer>(data: B) -> (r: Result<T::Inner, InvalidFlatbuffer>)
    ensures
        r is Ok <==> root_accepted::<B, T>(default_options(), data.bytes()),
        data.bytes().len() > default_options().max_apparent_size ==> r is Err && r->Err_0
            == (InvalidFlatbuffer::ApparentSizeTooLarge { size: data.bytes().len() as usize }),
        r is Ok ==> T::decoded(data.bytes(), forward_target(data.bytes(), 0), r->Ok_0),
{
    let opts = VerifierOptions::default();
    root_with_opts::<T, B>(&opts, data)
}

/// The root of a buffer, checked first under `opts`.
pub fn root_with_opts<T: Follow<B>, B: Buffer>(opts: &VerifierOptions, data: B) -> (r: Result<
    T::Inner,
    InvalidFlatbuffer,
>)
    ensures
        r is Ok <==> root_accepted::<B, T>(*opts, data.bytes()),
        data.bytes().len() > opts.max_apparent_size ==> r is Err && r->Err_0
            == (InvalidFlatbuffer::ApparentSizeTooLarge { size: data.bytes().len() as usize }),
        r is Ok ==> T::decoded(data.bytes(), forward_target(data.bytes(), 0), r->Ok_0),
{
    let size = data.len();
    if size > opts.max_apparent_size {
        return Err(InvalidFlatbuffer::ApparentSizeTooLarge { size });
    }
    <ForwardsUOffset<T>>::run_verifier(&data, 0)?;
    Ok(root_unchecked::<T, B>(data))
}

/// The root of a size-prefixed buffer, checked first under default options.
pub fn size_prefixed_root<T: Follow<B>, B: Buffer>(data: B) -> (r: Result<
    T::Inner,
    InvalidFlatbuffer,
>)
    ensures
        r is Ok <==> size_prefixed_root_accepted::<B, T>(
            default_options(),
            data.bytes(),
        ),
        data.bytes().len() > default_options().max_apparent_size ==> r is Err && r->Err_0
            == (InvalidFlatbuffer::ApparentSizeTooLarge { size: data.bytes().len() as usize }),
        r is Ok ==> T::decoded(data.bytes(), forward_target(data.bytes(), 4), r->Ok_0),
{
    let opts = VerifierOptions::default();
    size_prefixed_root_with_opts::<T, B>(&opts, data)
}

/// The root of a size-prefixed buffer, checked first under `opts`.
pub fn size_prefixed_root_with_opts<T: Follow<B>, B: Buffer>(
    opts: &VerifierOptions,
    data: B,
) -> (r: Result<T::Inner, InvalidFlatbuffer>)
    ensures
        r is Ok <==> size_prefixed_root_accepted::<B, T>(*opts, data.bytes()),
        data.bytes().len() > opts.max_apparent_size ==> r is Err && r->Err_0
            == (InvalidFlatbuffer::ApparentSizeTooLarge { size: data.bytes().len() as usize }),
        r is Ok ==> T::decoded(data.bytes(), forward_target(data.bytes(), 4), r->Ok_0),
{
    let size = data.len();
    if size > opts.max_apparent_size {
        return Err(InvalidFlatbuffer::ApparentSizeTooLarge { size });
    }
    <SkipSizePrefix<ForwardsUOffset<T>>>::run_verifier(&data, 0)?;
    Ok(size_prefixed_root_unchecked::<T, B>(data))
}

/// The root of a buffer that the caller already trusts: nothing is checked,
/// so the caller must know that the root and what it leads to lie inside it.
pub fn root_unchecked<T: Follow<B>, B: Buffer>(data: B) -> (r: T::Inner)
    requires
        <ForwardsUOffset<T> as Follow<B>>::followable(data.bytes(), 0),
    ensures
        T::decoded(data.bytes(), forward_target(data.bytes(), 0), r),
{
    <ForwardsUOffset<T>>::follow(data, 0)
}

/// The root of a size-prefixed buffer that the caller already trusts.
pub fn size_prefixed_root_unchecked<T: Follow<B>, B: Buffer>(data: B) -> (r: T::Inner)
    requires
        <SkipSizePrefix<ForwardsUOffset<T>> as Follow<B>>::followable(data.bytes(), 0),
    ensures
        T::decoded(data.bytes(), forward_target(data.bytes(), 4), r),
{
    <SkipSizePrefix<ForwardsUOffset<T>>>::follow(data, 0)
}

/// A forward offset that points past the end of the buffer is rejected,
/// wherever it stands in a chain of offsets.
pub proof fn lemma_forward_offset_past_end_rejected<B: Buffer, T: Follow<B>>(
    bytes: Seq<u8>,
    loc: int,
)
    requires
        forward_target(bytes, loc) > bytes.len(),
    ensures
        !<ForwardsUOffset<T> as Follow<B>>::followable(bytes, loc),
{
}

/// Checked access rejects a buffer too short for its root offset, or whose
/// root offset points past its end.
pub proof fn lemma_root_offset_out_of_range_rejected<B: Buffer, T: Follow<B>>(
    opts: VerifierOptions,
    bytes: Seq<u8>,
)
    requires
        bytes.len() < 4 || forward_target(bytes, 0) > bytes.len(),
    ensures
        !root_accepted::<B, T>(opts, bytes),
{
}

/// Checked access rejects a root object whose field-offset table declares a
/// size that runs past the end of the buffer.
pub proof fn lemma_oversized_vtable_rejected<B: Buffer>(opts: VerifierOptions, bytes: Seq<u8>)
    requires
        backward_target(bytes, forward_target(bytes, 0)) + le_u16(
            bytes,
            backward_target(bytes, forward_target(bytes, 0)),
        ) > bytes.len(),
    ensures
        !root_accepted::<B, Table<B>>(opts, bytes),
{
}

} // verus!
