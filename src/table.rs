//! Objects: a location whose first bytes lead back to a field-offset table,
//! which says where each field sits or that it is absent.
use vstd::prelude::*;
use vstd::string::StringSliceAdditionalSpecFns;
use crate::buffer::Buffer;
use crate::endian::{le_u16, read_u16_at, FILE_IDENTIFIER_LENGTH, SIZE_VOFFSET};
use crate::follow::{
    backward_target, check_range, in_bounds, BackwardsSOffset, FileIdentifier, Follow,
    InvalidFlatbuffer, SkipRootOffset, SkipSizePrefix,
};

verus! {

/// Holds where a field-offset table at `vt` lies inside `bytes` with a
/// header whose declared size covers at least the header.
pub open spec fn vtable_ok(bytes: Seq<u8>, vt: int) -> bool {
    &&& in_bounds(bytes, vt, 4)
    &&& le_u16(bytes, vt) >= 4
    &&& in_bounds(bytes, vt, le_u16(bytes, vt))
}

/// The raw entry at byte position `slot` of the field-offset table at `vt`:
/// 0 where the slot lies past the table's declared size.
pub open spec fn vtable_entry(bytes: Seq<u8>, vt: int, slot: int) -> int {
    if slot + 2 <= le_u16(bytes, vt) {
        le_u16(bytes, vt + slot)
    } else {
        0
    }
}

/// A slot past the declared size of a field-offset table reads as absent,
/// whatever bytes follow the table.
pub proof fn lemma_slot_past_table_is_absent(bytes: Seq<u8>, vt: int, slot: int)
    requires
        slot + 2 > le_u16(bytes, vt),
    ensures
        vtable_entry(bytes, vt, slot) == 0,
{
}

/// Holds where the object at `loc` and its field-offset table lie inside `bytes`.
pub open spec fn table_ok(bytes: Seq<u8>, loc: int) -> bool {
    &&& in_bounds(bytes, loc, 4)
    &&& 0 <= backward_target(bytes, loc) <= bytes.len()
    &&& vtable_ok(bytes, backward_target(bytes, loc))
    &&& in_bounds(bytes, loc, le_u16(bytes, backward_target(bytes, loc) + 2))
}

/// A field-offset table: a view of a buffer at the table's location.
pub struct VTable<B> {
    pub buf: B,
    pub loc: usize,
}

impl<B: Buffer> VTable<B> {
    /// Holds where the header and the entries lie inside the buffer.
    pub open spec fn wf(&self) -> bool {
        vtable_ok(self.buf.bytes(), self.loc as int)
    }

    /// The table over `buf` at `loc`.
    pub fn init(buf: B, loc: usize) -> (r: Self)
        ensures
            r.buf == buf,
            r.loc == loc,
    {
        VTable { buf, loc }
    }

    /// The declared size of the table in bytes, header included.
    pub fn num_bytes(&self) -> (r: usize)
        requires
            self.wf(),
        ensures
            r == le_u16(self.buf.bytes(), self.loc as int),
    {
        read_u16_at(&self.buf, self.loc) as usize
    }

    /// The number of field slots that the table declares.
    pub fn num_fields(&self) -> (r: usize)
        requires
            self.wf(),
        ensures
            r == (le_u16(self.buf.bytes(), self.loc as int) - 4) / 2,
    {
        (self.num_bytes() - 4) / 2
    }

    /// The declared size in bytes of the object that owns the table.
    pub fn object_inline_num_bytes(&self) -> (r: usize)
        requires
            self.wf(),
        ensures
            r == le_u16(self.buf.bytes(), self.loc + 2),
    {
        proof {
            self.buf.lemma_len_fits();
        }
        read_u16_at(&self.buf, self.loc + 2) as usize
    }

    /// The raw entry at byte position `byte_loc`: 0 where the field is absent
    /// or the slot lies past the table's declared size.
    pub fn get(&self, byte_loc: u16) -> (r: u16)
        requires
            self.wf(),
        ensures
            r == vtable_entry(self.buf.bytes(), self.loc as int, byte_loc as int),
    {
        proof {
            self.buf.lemma_len_fits();
        }
        let n = self.num_bytes();
        if byte_loc as usize + SIZE_VOFFSET > n {
            0
        } else {
            read_u16_at(&self.buf, self.loc + byte_loc as usize)
        }
    }
}

impl<B: Buffer> Follow<B> for VTable<B> {
    type Inner = VTable<B>;

    open spec fn stride() -> nat { 2 }

    open spec fn followable(bytes: Seq<u8>, loc: int) -> bool { vtable_ok(bytes, loc) }

    open spec fn decoded(bytes: Seq<u8>, loc: int, r: VTable<B>) -> bool {
        r.buf.bytes() == bytes && r.loc == loc
    }

    fn size() -> (r: usize) { SIZE_VOFFSET }

    fn follow(buf: B, loc: usize) -> (r: VTable<B>) {
        VTable::init(buf, loc)
    }

    fn run_verifier(buf: &B, loc: usize) -> (r: Result<(), InvalidFlatbuffer>) {
        check_range(buf, loc, 4)?;
        let n = read_u16_at(buf, loc) as usize;
        if n < 4 {
            return Err(InvalidFlatbuffer::MalformedVTable { position: loc });
        }
        check_range(buf, loc, n)
    }
}

/// An object: a view of a buffer at the object's location.
#[derive(Clone, Debug, PartialEq)]
pub struct Table<B> {
    pub buf: B,
    pub loc: usize,
}

impl<B: Buffer> Table<B> {
    /// Holds where the object and its field-offset table lie inside the buffer.
    pub open spec fn wf(&self) -> bool {
        table_ok(self.buf.bytes(), self.loc as int)
    }

    /// Where the object's field-offset table starts.
    pub open spec fn vtable_loc(&self) -> int {
        backward_target(self.buf.bytes(), self.loc as int)
    }

    /// The raw offset recorded for the field at byte position `slot`.
    pub open spec fn field_offset(&self, slot: int) -> int {
        vtable_entry(self.buf.bytes(), self.vtable_loc(), slot)
    }

    /// The object over `buf` at `loc`.
    pub fn new(buf: B, loc: usize) -> (r: Self)
        ensures
            r.buf == buf,
            r.loc == loc,
    {
        Table { buf, loc }
    }

    /// The object's field-offset table.
    pub fn vtable(&self) -> (r: VTable<B>)
        requires
            self.wf(),
        ensures
            r.buf.bytes() == self.buf.bytes(),
            r.loc == self.vtable_loc(),
            r.wf(),
    {
        <BackwardsSOffset<VTable<B>>>::follow(self.buf.shallow_copy(), self.loc)
    }

    /// The field at byte position `slot_byte_loc` of the field-offset table,
    /// decoded as `T`; `default` where the table marks it absent.
    pub fn get<T: Follow<B>>(&self, slot_byte_loc: u16, default: Option<T::Inner>) -> (r: Option<
        T::Inner,
    >)
        requires
            self.wf(),
            self.field_offset(slot_byte_loc as int) != 0 ==> {
                &&& self.loc + self.field_offset(slot_byte_loc as int) <= self.buf.bytes().len()
                &&& T::followable(
                    self.buf.bytes(),
                    self.loc + self.field_offset(slot_byte_loc as int),
                )
            },
        ensures
            self.field_offset(slot_byte_loc as int) == 0 ==> r == default,
            self.field_offset(slot_byte_loc as int) != 0 ==> {
                &&& r is Some
                &&& T::decoded(
                    self.buf.bytes(),
                    self.loc + self.field_offset(slot_byte_loc as int),
                    r->Some_0,
                )
            },
    {
        proof {
            self.buf.lemma_len_fits();
        }
        let o = self.vtable().get(slot_byte_loc) as usize;
        if o == 0 {
            return default;
        }
        Some(<T>::follow(self.buf.shallow_copy(), self.loc + o))
    }
}

impl<B: Buffer> Follow<B> for Table<B> {
    type Inner = Table<B>;

    open spec fn stride() -> nat { 4 }

    open spec fn followable(bytes: Seq<u8>, loc: int) -> bool { table_ok(bytes, loc) }

    open spec fn decoded(bytes: Seq<u8>, loc: int, r: Table<B>) -> bool {
        r.buf.bytes() == bytes && r.loc == loc
    }

    fn size() -> (r: usize) { 4 }

    fn follow(buf: B, loc: usize) -> (r: Table<B>) {
        Table { buf, loc }
    }

    fn run_verifier(buf: &B, loc: usize) -> (r: Result<(), InvalidFlatbuffer>) {
        <BackwardsSOffset<VTable<B>>>::run_verifier(buf, loc)?;
        let vt = <BackwardsSOffset<VTable<B>>>::follow(buf.shallow_copy(), loc);
        let object_size = vt.object_inline_num_bytes();
        check_range(buf, loc, object_size)
    }
}

/// The location of the file identifier: after the root offset, and after the
/// size prefix where there is one.
pub open spec fn identifier_loc(size_prefixed: bool) -> int {
    if size_prefixed {
        8
    } else {
        4
    }
}

/// Whether the identifier region of `data` holds exactly the bytes of `ident`;
/// false where `data` is too short to hold the region.
pub fn buffer_has_identifier(data: &[u8], ident: &str, size_prefixed: bool) -> (r: bool)
    requires
        ident.spec_bytes().len() == FILE_IDENTIFIER_LENGTH,
    ensures
        r == {
            &&& identifier_loc(size_prefixed) + 4 <= data@.len()
            &&& data@.subrange(
                identifier_loc(size_prefixed),
                identifier_loc(size_prefixed) + 4,
            ) == ident.spec_bytes()
        },
{
    let got: &[u8] = if size_prefixed {
        if <SkipSizePrefix<SkipRootOffset<FileIdentifier>>>::run_verifier(&data, 0).is_err() {
            return false;
        }
        <SkipSizePrefix<SkipRootOffset<FileIdentifier>>>::follow(data, 0)
    } else {
        if <SkipRootOffset<FileIdentifier>>::run_verifier(&data, 0).is_err() {
            return false;
        }
        <SkipRootOffset<FileIdentifier>>::follow(data, 0)
    };
    let expected = ident.as_bytes();
    let mut i: usize = 0;
    while i < FILE_IDENTIFIER_LENGTH
        invariant
            got@ == data@.subrange(
                identifier_loc(size_prefixed),
                identifier_loc(size_prefixed) + 4,
            ),
            expected@ == ident.spec_bytes(),
            got@.len() == 4,
            expected@.len() == 4,
            i <= 4,
            forall|j: int| 0 <= j < i ==> got@[j] == expected@[j],
        decreases 4 - i,
    {
        if got[i] != expected[i] {
            proof {
                assert(got@[i as int] != expected@[i as int]);
            }
            return false;
        }
        i = i + 1;
    }
    proof {
        assert(got@ =~= expected@);
    }
    true
}

} // verus!
