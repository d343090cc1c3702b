//! Zero-copy reading of an offset-based binary object format: objects with
//! optional fields behind field-offset tables, length-prefixed sequences and
//! strings, and checked or trusted access to a buffer's root.
use vstd::prelude::*;

pub mod buffer;
pub mod endian;
pub mod follow;
pub mod get_root;
pub mod table;
pub mod vector;

pub use buffer::Buffer;
pub use follow::{
    BackwardsSOffset, FileIdentifier, Follow, ForwardsUOffset, InvalidFlatbuffer,
    SkipRootOffset, SkipSizePrefix,
};
pub use get_root::{
    root, root_unchecked, root_with_opts, size_prefixed_root, size_prefixed_root_unchecked,
    size_prefixed_root_with_opts, VerifierOptions,
};
pub use table::{buffer_has_identifier, Table, VTable};
pub use vector::{SafeSliceAccess, Vector, VectorIter};

verus! {

} // verus!
