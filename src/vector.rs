//! Length-prefixed sequences, their bidirectional cursor, and strings.
use vstd::prelude::*;
use vstd::utf8::{decode_utf8, valid_utf8};
use core::marker::PhantomData;
use crate::buffer::Buffer;
use crate::endian::{le_u32, read_u32_at, SIZE_UOFFSET};
use crate::follow::{check_range, in_bounds, Follow, InvalidFlatbuffer};

verus! {

/// The element count stored at the start of the sequence at `loc`.
pub open spec fn vector_len(bytes: Seq<u8>, loc: int) -> int {
    le_u32(bytes, loc)
}

/// Where element `i` of the sequence at `loc` starts.
pub open spec fn element_loc<B: Buffer, T: Follow<B>>(loc: int, i: int) -> int {
    loc + 4 + i * <T as Follow<B>>::stride()
}

/// Holds where the count, every element, and what each element leads to lie
/// inside `bytes`.
pub open spec fn vector_ok<B: Buffer, T: Follow<B>>(bytes: Seq<u8>, loc: int) -> bool {
    &&& in_bounds(bytes, loc, 4)
    &&& loc + 4 + vector_len(bytes, loc) * <T as Follow<B>>::stride() <= bytes.len()
    &&& forall|i: int|
        0 <= i < vector_len(bytes, loc) ==> #[trigger] <T as Follow<B>>::followable(
            bytes,
            element_loc::<B, T>(loc, i),
        )
}

/// A sequence of `T`: a view of a buffer at the sequence's count field.
pub struct Vector<B, T>(pub B, pub usize, pub PhantomData<T>);

impl<B: Buffer, T> Default for Vector<B, T> {
    /// A sequence of length 0 over its own four zero bytes.
    fn default() -> (r: Self)
        ensures
            r.0.bytes() == seq![0u8, 0, 0, 0],
            r.1 == 0,
    {
        let r = Vector(B::from_static_slice(&[0u8, 0, 0, 0]), 0, PhantomData);
        proof {
            assert(r.0.bytes() =~= seq![0u8, 0, 0, 0]);
        }
        r
    }
}

impl<B: Buffer, T> Clone for Vector<B, T> {
    /// A view of the same window at the same location; no byte is copied.
    fn clone(&self) -> (r: Self)
        ensures
            r.0.bytes() == self.0.bytes(),
            r.1 == self.1,
    {
        Vector(self.0.shallow_copy(), self.1, PhantomData)
    }
}

impl<B: Buffer, T> Vector<B, T> {
    /// The sequence over `buf` at `loc`.
    pub fn new(buf: B, loc: usize) -> (r: Self)
        ensures
            r.0 == buf,
            r.1 == loc,
    {
        Vector(buf, loc, PhantomData)
    }

    /// The element count, read from the buffer.
    pub open spec fn spec_len(&self) -> int {
        vector_len(self.0.bytes(), self.1 as int)
    }

    /// Number of elements.
    pub fn len(&self) -> (r: usize)
        requires
            in_bounds(self.0.bytes(), self.1 as int, 4),
        ensures
            r == self.spec_len(),
    {
        read_u32_at(&self.0, self.1) as usize
    }

    /// Whether the sequence has no element.
    pub fn is_empty(&self) -> (r: bool)
        requires
            in_bounds(self.0.bytes(), self.1 as int, 4),
        ensures
            r == (self.spec_len() == 0),
    {
        self.len() == 0
    }
}

impl<B: Buffer, T: Follow<B>> Vector<B, T> {
    /// Holds where the sequence and its elements lie inside the buffer.
    pub open spec fn wf(&self) -> bool {
        vector_ok::<B, T>(self.0.bytes(), self.1 as int)
    }

    /// Element `idx`, decoded.
    pub fn get(&self, idx: usize) -> (r: T::Inner)
        requires
            self.wf(),
            idx < self.spec_len(),
        ensures
            T::decoded(self.0.bytes(), element_loc::<B, T>(self.1 as int, idx as int), r),
    {
        proof {
            self.0.lemma_len_fits();
        }
        let sz = T::size();
        proof {
            lemma_element_in_bounds::<B, T>(self.0.bytes(), self.1 as int, idx as int);
            assert(T::followable(self.0.bytes(), element_loc::<B, T>(self.1 as int, idx as int)));
        }
        T::follow(self.0.shallow_copy(), self.1 + SIZE_UOFFSET + sz * idx)
    }

    /// A cursor over all the elements.
    pub fn iter(&self) -> (r: VectorIter<B, T>)
        requires
            self.wf(),
        ensures
            r.wf(),
            r.buf.bytes() == self.0.bytes(),
            r.pending() == element_locs::<B, T>(self.0.bytes(), self.1 as int),
    {
        VectorIter::new(self.clone())
    }

    /// A cursor over all the elements, taking the sequence.
    pub fn into_iter(self) -> (r: VectorIter<B, T>)
        requires
            self.wf(),
        ensures
            r.wf(),
            r.buf.bytes() == self.0.bytes(),
            r.pending() == element_locs::<B, T>(self.0.bytes(), self.1 as int),
    {
        self.iter()
    }
}

/// Every element of a well-formed sequence starts inside the buffer.
pub proof fn lemma_element_in_bounds<B: Buffer, T: Follow<B>>(bytes: Seq<u8>, loc: int, i: int)
    requires
        vector_ok::<B, T>(bytes, loc),
        0 <= i <= vector_len(bytes, loc),
    ensures
        loc + 4 + i * <T as Follow<B>>::stride() <= bytes.len(),
        0 <= i * <T as Follow<B>>::stride(),
{
    let s = <T as Follow<B>>::stride();
    let n = vector_len(bytes, loc);
    assert(i * s <= n * s) by (nonlinear_arith)
        requires
            0 <= i <= n,
            0 <= s,
    ;
    assert(0 <= i * s) by (nonlinear_arith)
        requires
            0 <= i,
            0 <= s,
    ;
}

/// The locations that repeated calls of `next` visit, in the order they come:
/// each call takes the front of what is pending and leaves the rest.
pub open spec fn front_order(p: Seq<int>) -> Seq<int>
    decreases p.len(),
{
    if p.len() == 0 {
        Seq::empty()
    } else {
        seq![p[0]] + front_order(p.drop_first())
    }
}

/// The locations that repeated calls of `next_back` visit, in the order they
/// come: each call takes the back of what is pending and leaves the rest.
pub open spec fn back_order(p: Seq<int>) -> Seq<int>
    decreases p.len(),
{
    if p.len() == 0 {
        Seq::empty()
    } else {
        seq![p.last()] + back_order(p.drop_last())
    }
}

/// Draining from the front visits every pending element once, in order.
pub proof fn lemma_front_order(p: Seq<int>)
    ensures
        front_order(p) == p,
    decreases p.len(),
{
    if p.len() > 0 {
        lemma_front_order(p.drop_first());
        assert(seq![p[0]] + p.drop_first() =~= p);
    }
}

/// Draining from the back visits every pending element once, in reverse order.
pub proof fn lemma_back_order(p: Seq<int>)
    ensures
        back_order(p) == p.reverse(),
    decreases p.len(),
{
    if p.len() > 0 {
        lemma_back_order(p.drop_last());
        assert(seq![p.last()] + p.drop_last().reverse() =~= p.reverse());
    }
}

/// The locations of the elements of the sequence at `loc`, in encoding order.
pub open spec fn element_locs<B: Buffer, T: Follow<B>>(bytes: Seq<u8>, loc: int) -> Seq<int> {
    Seq::new(vector_len(bytes, loc) as nat, |i: int| element_loc::<B, T>(loc, i))
}

/// A cursor fresh from `iter` yields, by `next`, exactly the sequence's `len()`
/// elements in encoding order and, by `next_back`, the same in reverse; for an
/// empty sequence both end at once.
pub proof fn lemma_iteration_order<B: Buffer, T: Follow<B>>(v: Vector<B, T>)
    requires
        v.wf(),
    ensures
        front_order(element_locs::<B, T>(v.0.bytes(), v.1 as int)) == element_locs::<B, T>(
            v.0.bytes(),
            v.1 as int,
        ),
        back_order(element_locs::<B, T>(v.0.bytes(), v.1 as int)) == element_locs::<B, T>(
            v.0.bytes(),
            v.1 as int,
        ).reverse(),
        element_locs::<B, T>(v.0.bytes(), v.1 as int).len() == v.spec_len(),
        v.spec_len() == 0 ==> front_order(element_locs::<B, T>(v.0.bytes(), v.1 as int)).len()
            == 0 && back_order(element_locs::<B, T>(v.0.bytes(), v.1 as int)).len() == 0,
{
    let p = element_locs::<B, T>(v.0.bytes(), v.1 as int);
    lemma_front_order(p);
    lemma_back_order(p);
}

/// Moving `n` strides and then `i` more is moving `n + i` strides.
pub proof fn lemma_shifted_stride(loc: int, n: int, i: int, s: int)
    ensures
        (loc + n * s) + i * s == loc + (n + i) * s,
{
    assert((n + i) * s == n * s + i * s) by (nonlinear_arith);
}

/// Marks element types whose bytes may be viewed in place as a slice.
pub trait SafeSliceAccess {}

impl SafeSliceAccess for u8 {}

impl SafeSliceAccess for bool {}

impl<'a> Vector<&'a [u8], u8> {
    /// The elements of a byte sequence, in place.
    pub fn safe_slice(self) -> (r: &'a [u8])
        requires
            self.wf(),
        ensures
            r@ == self.0@.subrange(self.1 + 4, self.1 + 4 + self.spec_len()),
    {
        let buf = self.0;
        let loc = self.1;
        proof {
            buf.lemma_len_fits();
        }
        let len = read_u32_at(&buf, loc) as usize;
        proof {
            let s = <u8 as Follow<&'a [u8]>>::stride();
            assert(len * s == len) by (nonlinear_arith)
                requires
                    s == 1,
            ;
        }
        &buf[loc + SIZE_UOFFSET..loc + SIZE_UOFFSET + len]
    }
}

impl<B: Buffer, T: Follow<B>> Follow<B> for Vector<B, T> {
    type Inner = Vector<B, T>;

    open spec fn stride() -> nat { 4 }

    open spec fn followable(bytes: Seq<u8>, loc: int) -> bool { vector_ok::<B, T>(bytes, loc) }

    open spec fn decoded(bytes: Seq<u8>, loc: int, r: Vector<B, T>) -> bool {
        r.0.bytes() == bytes && r.1 == loc
    }

    fn size() -> (r: usize) { SIZE_UOFFSET }

    fn follow(buf: B, loc: usize) -> (r: Vector<B, T>) {
        Vector::new(buf, loc)
    }

    fn run_verifier(buf: &B, loc: usize) -> (r: Result<(), InvalidFlatbuffer>) {
        check_range(buf, loc, SIZE_UOFFSET)?;
        let n = read_u32_at(buf, loc) as usize;
        let sz = T::size();
        let data = loc + SIZE_UOFFSET;
        if n > usize::MAX / sz {
            proof {
                assert(n * sz > usize::MAX) by (nonlinear_arith)
                    requires
                        n > usize::MAX / sz,
                        sz > 0,
                ;
            }
            return Err(InvalidFlatbuffer::RangeOutOfBounds { start: data, end: usize::MAX });
        }
        proof {
            assert(n * sz <= usize::MAX) by (nonlinear_arith)
                requires
                    n <= usize::MAX / sz,
                    sz > 0,
            ;
        }
        check_range(buf, data, n * sz)?;
        let mut i: usize = 0;
        while i < n
            invariant
                0 <= i <= n,
                n == vector_len(buf.bytes(), loc as int),
                sz == T::stride(),
                sz > 0,
                data == loc + 4,
                data + n * sz <= buf.bytes().len(),
                buf.bytes().len() <= usize::MAX,
                forall|j: int| 0 <= j < i ==> #[trigger] T::followable(
                    buf.bytes(),
                    element_loc::<B, T>(loc as int, j),
                ),
            decreases n - i,
        {
            assert(i * sz <= n * sz) by (nonlinear_arith)
                requires
                    i <= n,
                    sz > 0,
            ;
            let r = T::run_verifier(buf, data + i * sz);
            if r.is_err() {
                proof {
                    assert(!T::followable(buf.bytes(), element_loc::<B, T>(loc as int, i as int)));
                }
                return r;
            }
            i = i + 1;
        }
        Ok(())
    }
}

/// Where the string at `loc` keeps its bytes.
pub open spec fn string_bytes(bytes: Seq<u8>, loc: int) -> Seq<u8> {
    bytes.subrange(loc + 4, loc + 4 + le_u32(bytes, loc))
}

impl<'a, B: Buffer> Follow<B> for &'a str {
    type Inner = Result<B::BufferString, core::str::Utf8Error>;

    open spec fn stride() -> nat { 4 }

    open spec fn followable(bytes: Seq<u8>, loc: int) -> bool {
        &&& in_bounds(bytes, loc, 4)
        &&& loc + 4 + le_u32(bytes, loc) <= bytes.len()
    }

    open spec fn decoded(
        bytes: Seq<u8>,
        loc: int,
        r: Result<B::BufferString, core::str::Utf8Error>,
    ) -> bool {
        &&& r is Ok <==> valid_utf8(string_bytes(bytes, loc))
        &&& r is Ok ==> r->Ok_0@ == decode_utf8(string_bytes(bytes, loc))
    }

    fn size() -> (r: usize) { SIZE_UOFFSET }

    fn follow(buf: B, loc: usize) -> (r: Result<B::BufferString, core::str::Utf8Error>) {
        proof {
            buf.lemma_len_fits();
        }
        let len = read_u32_at(&buf, loc) as usize;
        let bytes = match buf.slice(loc + SIZE_UOFFSET, loc + SIZE_UOFFSET + len) {
            Some(b) => b,
            None => B::empty(),
        };
        bytes.buffer_str()
    }

    fn run_verifier(buf: &B, loc: usize) -> (r: Result<(), InvalidFlatbuffer>) {
        check_range(buf, loc, SIZE_UOFFSET)?;
        let len = read_u32_at(buf, loc) as usize;
        check_range(buf, loc + SIZE_UOFFSET, len)
    }
}

/// A cursor over the elements of a sequence, from both ends.
pub struct VectorIter<B, T> {
    pub buf: B,
    pub loc: usize,
    pub remaining: usize,
    pub phantom: PhantomData<T>,
}

impl<B: Buffer, T: Follow<B>> VectorIter<B, T> {
    /// The locations of the elements not yet produced, front first.
    pub open spec fn pending(&self) -> Seq<int> {
        Seq::new(self.remaining as nat, |i: int| self.loc + i * T::stride())
    }

    /// Holds where every pending element can be decoded inside the buffer.
    pub open spec fn wf(&self) -> bool {
        &&& self.loc + self.remaining * T::stride() <= self.buf.bytes().len()
        &&& forall|i: int|
            0 <= i < self.remaining ==> #[trigger] T::followable(
                self.buf.bytes(),
                self.loc + i * T::stride(),
            )
    }

    /// A cursor over all the elements of `inner`.
    pub fn new(inner: Vector<B, T>) -> (r: Self)
        requires
            inner.wf(),
        ensures
            r.wf(),
            r.buf.bytes() == inner.0.bytes(),
            r.pending() == element_locs::<B, T>(inner.0.bytes(), inner.1 as int),
    {
        proof {
            inner.0.lemma_len_fits();
        }
        let remaining = inner.len();
        let r = VectorIter {
            buf: inner.0.shallow_copy(),
            loc: inner.1 + SIZE_UOFFSET,
            remaining,
            phantom: PhantomData,
        };
        proof {
            assert(r.pending() =~= element_locs::<B, T>(inner.0.bytes(), inner.1 as int));
            assert forall|i: int| 0 <= i < r.remaining implies #[trigger] T::followable(
                r.buf.bytes(),
                r.loc + i * T::stride(),
            ) by {
                assert(T::followable(inner.0.bytes(), element_loc::<B, T>(inner.1 as int, i)));
            }
        }
        r
    }

    /// A cursor over the same window at the same position.
    pub fn clone(&self) -> (r: Self)
        ensures
            r.buf.bytes() == self.buf.bytes(),
            r.loc == self.loc,
            r.remaining == self.remaining,
    {
        VectorIter {
            buf: self.buf.shallow_copy(),
            loc: self.loc,
            remaining: self.remaining,
            phantom: PhantomData,
        }
    }

    /// Number of elements not yet produced.
    pub fn len(&self) -> (r: usize)
        ensures
            r == self.pending().len(),
    {
        self.remaining
    }

    /// Lower and upper bound of the number of elements not yet produced; both exact.
    pub fn size_hint(&self) -> (r: (usize, Option<usize>))
        ensures
            r.0 == self.pending().len(),
            r.1 == Some(self.pending().len() as usize),
    {
        (self.remaining, Some(self.remaining))
    }

    /// Produces the front element, or `None` once no element is left.
    pub fn next(&mut self) -> (r: Option<T::Inner>)
        requires
            old(self).wf(),
        ensures
            final(self).wf(),
            final(self).buf.bytes() == old(self).buf.bytes(),
            old(self).pending().len() == 0 ==> r is None && final(self).pending() == old(
                self,
            ).pending(),
            old(self).pending().len() > 0 ==> {
                &&& r is Some
                &&& T::decoded(old(self).buf.bytes(), old(self).pending()[0], r->Some_0)
                &&& final(self).pending() == old(self).pending().drop_first()
            },
    {
        let sz = T::size();
        if self.remaining == 0 {
            None
        } else {
            proof {
                self.buf.lemma_len_fits();
                assert(T::followable(self.buf.bytes(), self.loc + 0 * T::stride()));
                assert(sz <= self.remaining * sz) by (nonlinear_arith)
                    requires
                        self.remaining >= 1,
                        sz > 0,
                ;
            }
            let result = T::follow(self.buf.shallow_copy(), self.loc);
            let ghost prev = *self;
            self.loc = self.loc + sz;
            self.remaining = self.remaining - 1;
            proof {
                assert forall|i: int| 0 <= i < self.remaining implies #[trigger] T::followable(
                    self.buf.bytes(),
                    self.loc + i * T::stride(),
                ) by {
                    assert(self.loc + i * sz == prev.loc + (i + 1) * sz) by (nonlinear_arith)
                        requires
                            self.loc == prev.loc + sz,
                    ;
                    assert(T::followable(prev.buf.bytes(), prev.loc + (i + 1) * T::stride()));
                }
                assert forall|i: int| 0 <= i < self.remaining implies #[trigger] self.pending()[i]
                    == prev.pending().drop_first()[i] by {
                    assert(self.loc + i * sz == prev.loc + (i + 1) * sz) by (nonlinear_arith)
                        requires
                            self.loc == prev.loc + sz,
                    ;
                }
                assert(self.pending() =~= prev.pending().drop_first());
                assert(self.loc + self.remaining * sz == prev.loc + prev.remaining * sz)
                    by (nonlinear_arith)
                    requires
                        self.loc == prev.loc + sz,
                        self.remaining + 1 == prev.remaining,
                ;
            }
            Some(result)
        }
    }

    /// Skips `n` elements from the front and produces the next one; once `n`
    /// reaches the number left, the cursor is left empty and `None` comes back.
    pub fn nth(&mut self, n: usize) -> (r: Option<T::Inner>)
        requires
            old(self).wf(),
        ensures
            final(self).wf(),
            final(self).buf.bytes() == old(self).buf.bytes(),
            n >= old(self).pending().len() ==> r is None && final(self).pending().len() == 0,
            n < old(self).pending().len() ==> {
                &&& r is Some
                &&& T::decoded(old(self).buf.bytes(), old(self).pending()[n as int], r->Some_0)
                &&& final(self).pending() == old(self).pending().subrange(
                    n + 1,
                    old(self).pending().len() as int,
                )
            },
    {
        if n >= self.remaining {
            self.remaining = 0;
            return None;
        }
        let sz = T::size();
        proof {
            self.buf.lemma_len_fits();
        }
        let ghost prev = *self;
        proof {
            assert(n * sz <= prev.remaining * sz) by (nonlinear_arith)
                requires
                    n <= prev.remaining,
                    sz > 0,
            ;
        }
        self.loc = self.loc + n * sz;
        self.remaining = self.remaining - n;
        proof {
            assert forall|i: int| 0 <= i < self.remaining implies #[trigger] self.pending()[i]
                == prev.pending()[n + i] by {
                lemma_shifted_stride(prev.loc as int, n as int, i, sz as int);
            }
            assert(self.pending() =~= prev.pending().subrange(n as int, prev.remaining as int));
            assert forall|i: int| 0 <= i < self.remaining implies #[trigger] T::followable(
                self.buf.bytes(),
                self.loc + i * T::stride(),
            ) by {
                lemma_shifted_stride(prev.loc as int, n as int, i, sz as int);
                assert(T::followable(prev.buf.bytes(), prev.loc + (n + i) * T::stride()));
            }
            lemma_shifted_stride(prev.loc as int, n as int, self.remaining as int, sz as int);
        }
        let r = self.next();
        proof {
            assert(final(self).pending() =~= prev.pending().subrange(
                n + 1,
                prev.remaining as int,
            ));
        }
        r
    }

    /// Skips `n` elements from the back and produces the one before them; once
    /// `n` reaches the number left, the cursor is left empty and `None` comes back.
    pub fn nth_back(&mut self, n: usize) -> (r: Option<T::Inner>)
        requires
            old(self).wf(),
        ensures
            final(self).wf(),
            final(self).buf.bytes() == old(self).buf.bytes(),
            n >= old(self).pending().len() ==> r is None && final(self).pending().len() == 0,
            n < old(self).pending().len() ==> {
                &&& r is Some
                &&& T::decoded(
                    old(self).buf.bytes(),
                    old(self).pending()[old(self).pending().len() - 1 - n],
                    r->Some_0,
                )
                &&& final(self).pending() == old(self).pending().subrange(
                    0,
                    old(self).pending().len() - 1 - n,
                )
            },
    {
        if n >= self.remaining {
            self.remaining = 0;
            return None;
        }
        let sz = T::size();
        let ghost prev = *self;
        self.remaining = self.remaining - n;
        proof {
            assert(self.remaining * sz <= prev.remaining * sz) by (nonlinear_arith)
                requires
                    self.remaining <= prev.remaining,
                    sz > 0,
            ;
            assert(self.pending() =~= prev.pending().subrange(0, self.remaining as int));
        }
        let r = self.next_back();
        proof {
            assert(final(self).pending() =~= prev.pending().subrange(
                0,
                prev.remaining - 1 - n,
            ));
        }
        r
    }

    /// Produces the back element, or `None` once no element is left.
    pub fn next_back(&mut self) -> (r: Option<T::Inner>)
        requires
            old(self).wf(),
        ensures
            final(self).wf(),
            final(self).buf.bytes() == old(self).buf.bytes(),
            old(self).pending().len() == 0 ==> r is None && final(self).pending() == old(
                self,
            ).pending(),
            old(self).pending().len() > 0 ==> {
                &&& r is Some
                &&& T::decoded(old(self).buf.bytes(), old(self).pending().last(), r->Some_0)
                &&& final(self).pending() == old(self).pending().drop_last()
            },
    {
        let sz = T::size();
        if self.remaining == 0 {
            None
        } else {
            proof {
                self.buf.lemma_len_fits();
            }
            let ghost prev = *self;
            self.remaining = self.remaining - 1;
            proof {
                assert(self.remaining * sz <= prev.remaining * sz) by (nonlinear_arith)
                    requires
                        self.remaining + 1 == prev.remaining,
                        sz > 0,
                ;
                assert(T::followable(prev.buf.bytes(), prev.loc + self.remaining * T::stride()));
                assert(self.pending() =~= prev.pending().drop_last());
            }
            Some(T::follow(self.buf.shallow_copy(), self.loc + self.remaining * sz))
        }
    }
}

} // verus!
