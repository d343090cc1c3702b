//! The byte storage that every view of a buffer reads from.
use vstd::prelude::*;
use vstd::utf8::{decode_utf8, valid_utf8};

verus! {

#[verifier::external_type_specification]
#[verifier::external_body]
pub struct ExUtf8Error(core::str::Utf8Error);

/// Relies on std::str::from_utf8: it succeeds exactly on valid UTF-8 and then
/// views the same bytes as the string they encode.
#[verifier::external_body]
fn str_from_utf8<'a>(b: &'a [u8]) -> (r: Result<&'a str, core::str::Utf8Error>)
    ensures
        r is Ok <==> valid_utf8(b@),
        r is Ok ==> r->Ok_0@ == decode_utf8(b@),
{
    core::str::from_utf8(b)
}

/// Storage of no bytes materializes to the empty string, the same as the
/// canonical empty string that `empty_str` gives.
pub proof fn lemma_empty_storage_is_empty_string(bytes: Seq<u8>)
    requires
        bytes.len() == 0,
    ensures
        valid_utf8(bytes),
        decode_utf8(bytes) == Seq::<char>::empty(),
{
    assert(decode_utf8(bytes) =~= Seq::<char>::empty());
}

/// A logically immutable window of bytes that views of a buffer are taken from.
pub trait Buffer: Sized {
    /// A string that lives as long as the storage it was taken from.
    type BufferString: View<V = Seq<char>>;

    /// The bytes of the window.
    spec fn bytes(&self) -> Seq<u8>;

    /// The window is addressable: its length fits a `usize`.
    proof fn lemma_len_fits(&self)
        ensures
            self.bytes().len() <= usize::MAX,
    ;

    /// Number of bytes in the window.
    fn len(&self) -> (r: usize)
        ensures
            r == self.bytes().len(),
    ;

    /// The byte at `i`.
    fn byte_at(&self, i: usize) -> (r: u8)
        requires
            i < self.bytes().len(),
        ensures
            r == self.bytes()[i as int],
    ;

    /// The bytes from `start` up to `end`, or `None` where `start > end` or
    /// `end` is past the window.
    fn slice(&self, start: usize, end: usize) -> (r: Option<Self>)
        ensures
            r is Some <==> start <= end <= self.bytes().len(),
            r is Some ==> r->Some_0.bytes() == self.bytes().subrange(start as int, end as int),
    ;

    /// A duplicate that shares the same window; no byte is copied.
    fn shallow_copy(&self) -> (r: Self)
        ensures
            r.bytes() == self.bytes(),
    {
        let n = self.len();
        let r = self.slice(0, n);
        proof {
            assert(self.bytes().subrange(0, n as int) =~= self.bytes());
        }
        r.unwrap()
    }

    /// Storage built over bytes that live for the whole program.
    fn from_static_slice(slice: &'static [u8]) -> (r: Self)
        ensures
            r.bytes() == slice@,
    ;

    /// Storage of length zero.
    fn empty() -> (r: Self)
        ensures
            r.bytes().len() == 0,
    {
        Self::from_static_slice(&[])
    }

    /// The empty string of this storage.
    fn empty_str() -> (r: Self::BufferString)
        ensures
            r@.len() == 0,
    {
        let e = Self::empty();
        proof {
            lemma_empty_storage_is_empty_string(e.bytes());
        }
        e.buffer_str().unwrap()
    }

    /// The whole window as a string; fails where the bytes are not valid UTF-8.
    fn buffer_str(&self) -> (r: Result<Self::BufferString, core::str::Utf8Error>)
        ensures
            r is Ok <==> valid_utf8(self.bytes()),
            r is Ok ==> r->Ok_0@ == decode_utf8(self.bytes()),
    ;
}

impl<'de> Buffer for &'de [u8] {
    type BufferString = &'de str;

    open spec fn bytes(&self) -> Seq<u8> {
        (*self)@
    }

    proof fn lemma_len_fits(&self) {
        broadcast use vstd::slice::axiom_spec_len;
        assert(vstd::slice::spec_slice_len(*self) == (*self)@.len());
    }

    fn len(&self) -> (r: usize) {
        (**self).len()
    }

    fn byte_at(&self, i: usize) -> (r: u8) {
        self[i]
    }

    fn slice(&self, start: usize, end: usize) -> (r: Option<Self>) {
        if start <= end && end <= (**self).len() {
            let s: &'de [u8] = *self;
            Some(&s[start..end])
        } else {
            None
        }
    }

    fn from_static_slice(slice: &'static [u8]) -> (r: Self) {
        slice
    }

    fn empty() -> (r: Self) {
        &[]
    }

    fn empty_str() -> (r: Self::BufferString) {
        proof {
            reveal_strlit("");
        }
        ""
    }

    fn buffer_str(&self) -> (r: Result<Self::BufferString, core::str::Utf8Error>) {
        str_from_utf8(*self)
    }
}

} // verus!
