use flatbuffers::endian::{read_i32_at, read_i64_at, read_u16_at, read_u32_at, read_u64_at};
use flatbuffers::{
    buffer_has_identifier, root, root_unchecked, root_with_opts, size_prefixed_root,
    size_prefixed_root_unchecked, Buffer, Follow, ForwardsUOffset, InvalidFlatbuffer, Table,
    Vector, VectorIter, VerifierOptions,
};

/// An object with one `u32` field present in slot 4 (value 7) and slot 6 absent.
fn two_field_object() -> Vec<u8> {
    vec![
        12, 0, 0, 0, // offset to the object
        8, 0, 8, 0, 4, 0, 0, 0, // field-offset table: size 8, object size 8, slots 4 and 0
        8, 0, 0, 0, // the object: back 8 bytes to its table
        7, 0, 0, 0, // field A
    ]
}

/// A sequence of the three `u32` values 10, 20, 30.
fn three_ints() -> Vec<u8> {
    vec![4, 0, 0, 0, 3, 0, 0, 0, 10, 0, 0, 0, 20, 0, 0, 0, 30, 0, 0, 0]
}

fn forward(mut it: VectorIter<&[u8], u32>) -> Vec<u32> {
    let mut out = Vec::new();
    while let Some(x) = it.next() {
        out.push(x);
    }
    out
}

fn backward(mut it: VectorIter<&[u8], u32>) -> Vec<u32> {
    let mut out = Vec::new();
    while let Some(x) = it.next_back() {
        out.push(x);
    }
    out
}

#[test]
fn object_present_field_and_default() {
    let buf = two_field_object();
    let t = root::<Table<&[u8]>, &[u8]>(&buf[..]).unwrap();
    assert_eq!(t.loc, 12);
    assert_eq!(t.get::<u32>(4, Some(0)), Some(7));
    assert_eq!(t.get::<u32>(6, Some(42)), Some(42));
}

#[test]
fn slot_past_table_gives_default() {
    let buf = two_field_object();
    let t = root::<Table<&[u8]>, &[u8]>(&buf[..]).unwrap();
    assert_eq!(t.get::<u32>(8, Some(99)), Some(99));
    assert_eq!(t.get::<u32>(200, None), None);
    assert_eq!(t.vtable().get(200), 0);
}

#[test]
fn vtable_header() {
    let buf = two_field_object();
    let t = Table::new(&buf[..], 12);
    let vt = t.vtable();
    assert_eq!(vt.loc, 4);
    assert_eq!(vt.num_bytes(), 8);
    assert_eq!(vt.num_fields(), 2);
    assert_eq!(vt.object_inline_num_bytes(), 8);
    assert_eq!(vt.get(4), 4);
    assert_eq!(vt.get(6), 0);
}

#[test]
fn sequence_forward_and_backward() {
    let buf = three_ints();
    let v = root::<Vector<&[u8], u32>, &[u8]>(&buf[..]).unwrap();
    assert_eq!(v.len(), 3);
    assert!(!v.is_empty());
    assert_eq!(v.get(0), 10);
    assert_eq!(v.get(2), 30);
    assert_eq!(forward(v.iter()), vec![10, 20, 30]);
    assert_eq!(backward(v.iter()), vec![30, 20, 10]);
}

#[test]
fn empty_sequence_iteration_ends_at_once() {
    let buf: Vec<u8> = vec![4, 0, 0, 0, 0, 0, 0, 0];
    let v = root::<Vector<&[u8], u32>, &[u8]>(&buf[..]).unwrap();
    assert_eq!(v.len(), 0);
    assert!(v.is_empty());
    let mut it = v.iter();
    assert_eq!(it.len(), 0);
    assert_eq!(it.next(), None);
    assert_eq!(it.next_back(), None);
    assert_eq!(it.next(), None);
}

#[test]
fn remaining_count_tracks_every_step() {
    let buf = three_ints();
    let v = Vector::<&[u8], u32>::new(&buf[..], 4);
    let mut it = v.iter();
    assert_eq!(it.len(), 3);
    assert_eq!(it.size_hint(), (3, Some(3)));
    assert_eq!(it.next(), Some(10));
    assert_eq!(it.len(), 2);
    assert_eq!(it.next_back(), Some(30));
    assert_eq!(it.len(), 1);
    assert_eq!(it.next(), Some(20));
    assert_eq!(it.len(), 0);
    assert_eq!(it.next_back(), None);
    assert_eq!(it.size_hint(), (0, Some(0)));
}

#[test]
fn skipping_within_range() {
    let buf = three_ints();
    let v = Vector::<&[u8], u32>::new(&buf[..], 4);
    let mut it = v.iter();
    assert_eq!(it.nth(1), Some(20));
    assert_eq!(it.len(), 1);
    let mut back = v.iter();
    assert_eq!(back.nth_back(1), Some(20));
    assert_eq!(back.len(), 1);
    assert_eq!(back.next(), Some(10));
}

#[test]
fn skipping_past_the_end_exhausts() {
    let buf = three_ints();
    let v = Vector::<&[u8], u32>::new(&buf[..], 4);
    let mut it = v.iter();
    assert_eq!(it.nth(usize::MAX), None);
    assert_eq!(it.len(), 0);
    assert_eq!(it.next(), None);
    assert_eq!(it.next_back(), None);
    let mut back = v.iter();
    assert_eq!(back.nth_back(3), None);
    assert_eq!(back.len(), 0);
    assert_eq!(back.next(), None);
}

#[test]
fn cloned_cursor_is_independent() {
    let buf = three_ints();
    let v = Vector::<&[u8], u32>::new(&buf[..], 4);
    let mut it = v.iter();
    assert_eq!(it.next(), Some(10));
    let copy = it.clone();
    assert_eq!(forward(copy), vec![20, 30]);
    assert_eq!(forward(it), vec![20, 30]);
}

#[test]
fn default_sequence_is_empty() {
    let v: Vector<&[u8], u32> = Vector::default();
    assert_eq!(v.len(), 0);
    assert!(v.is_empty());
}

#[test]
fn byte_sequence_in_place() {
    let buf: Vec<u8> = vec![4, 0, 0, 0, 3, 0, 0, 0, 1, 2, 3, 9];
    let v = root::<Vector<&[u8], u8>, &[u8]>(&buf[..]).unwrap();
    assert_eq!(v.safe_slice(), &[1u8, 2, 3][..]);
}

#[test]
fn string_decodes() {
    let buf: Vec<u8> = vec![4, 0, 0, 0, 3, 0, 0, 0, b'h', 0xc3, 0xa9, 0];
    let s = root::<&str, &[u8]>(&buf[..]).unwrap();
    assert_eq!(s, Ok("hé"));
}

#[test]
fn invalid_utf8_string_is_an_error() {
    let buf: Vec<u8> = vec![4, 0, 0, 0, 2, 0, 0, 0, 0xff, 0xfe];
    let s = root::<&str, &[u8]>(&buf[..]).unwrap();
    assert!(s.is_err());
}

#[test]
fn empty_storage_is_empty_string() {
    let e = <&[u8] as Buffer>::empty();
    assert_eq!(e.len(), 0);
    assert_eq!(e.buffer_str(), Ok(""));
    assert_eq!(<&[u8] as Buffer>::empty_str(), "");
    assert_eq!(e.buffer_str().unwrap(), <&[u8] as Buffer>::empty_str());
}

#[test]
fn storage_slices() {
    let data: Vec<u8> = vec![1, 2, 3, 4];
    let b: &[u8] = &data[..];
    assert_eq!(Buffer::slice(&b, 1, 3), Some(&data[1..3]));
    assert_eq!(Buffer::slice(&b, 3, 1), None);
    assert_eq!(Buffer::slice(&b, 2, 5), None);
    assert_eq!(b.shallow_copy(), &data[..]);
    assert_eq!(b.byte_at(2), 3);
    assert_eq!(<&[u8] as Buffer>::from_static_slice(&[5, 6]), &[5u8, 6][..]);
    assert_eq!(b.buffer_str(), Ok("\u{1}\u{2}\u{3}\u{4}"));
}

#[test]
fn identifier_matches() {
    let buf: Vec<u8> = vec![8, 0, 0, 0, b'M', b'O', b'N', b'S'];
    assert!(buffer_has_identifier(&buf, "MONS", false));
    assert!(!buffer_has_identifier(&buf, "MONT", false));
    let prefixed: Vec<u8> = vec![8, 0, 0, 0, 4, 0, 0, 0, b'M', b'O', b'N', b'S'];
    assert!(buffer_has_identifier(&prefixed, "MONS", true));
    assert!(!buffer_has_identifier(&prefixed, "MONS", false));
}

#[test]
fn identifier_on_short_buffer_is_false() {
    let buf: Vec<u8> = vec![8, 0, 0, 0, b'M', b'O'];
    assert!(!buffer_has_identifier(&buf, "MONS", false));
    assert!(!buffer_has_identifier(&[], "MONS", true));
}

#[test]
fn root_offset_out_of_range_is_rejected() {
    let buf: Vec<u8> = vec![100, 0, 0, 0, 0, 0, 0, 0];
    assert_eq!(
        root::<Table<&[u8]>, &[u8]>(&buf[..]),
        Err(InvalidFlatbuffer::RangeOutOfBounds { start: 0, end: 100 })
    );
    let short: Vec<u8> = vec![1, 0];
    assert_eq!(
        root::<Table<&[u8]>, &[u8]>(&short[..]),
        Err(InvalidFlatbuffer::RangeOutOfBounds { start: 0, end: 4 })
    );
}

#[test]
fn oversized_vtable_is_rejected() {
    let mut buf = two_field_object();
    buf[4] = 200;
    assert_eq!(
        root::<Table<&[u8]>, &[u8]>(&buf[..]),
        Err(InvalidFlatbuffer::RangeOutOfBounds { start: 4, end: 204 })
    );
}

#[test]
fn vtable_smaller_than_header_is_rejected() {
    let mut buf = two_field_object();
    buf[4] = 2;
    assert_eq!(
        root::<Table<&[u8]>, &[u8]>(&buf[..]),
        Err(InvalidFlatbuffer::MalformedVTable { position: 4 })
    );
}

#[test]
fn oversized_object_is_rejected() {
    let mut buf = two_field_object();
    buf[6] = 50;
    assert_eq!(
        root::<Table<&[u8]>, &[u8]>(&buf[..]),
        Err(InvalidFlatbuffer::RangeOutOfBounds { start: 12, end: 62 })
    );
}

#[test]
fn backward_offset_out_of_range_is_rejected() {
    let mut buf = two_field_object();
    buf[12] = 40;
    assert_eq!(
        root::<Table<&[u8]>, &[u8]>(&buf[..]),
        Err(InvalidFlatbuffer::SignedOffsetOutOfBounds { soffset: 40, position: 12 })
    );
    let mut ahead = two_field_object();
    ahead[12..16].copy_from_slice(&(-40i32).to_le_bytes());
    assert_eq!(
        root::<Table<&[u8]>, &[u8]>(&ahead[..]),
        Err(InvalidFlatbuffer::SignedOffsetOutOfBounds { soffset: -40, position: 12 })
    );
}

#[test]
fn truncated_sequence_is_rejected() {
    let buf = three_ints();
    let cut = &buf[..16];
    assert!(root::<Vector<&[u8], u32>, &[u8]>(cut).is_err());
    let mut huge = three_ints();
    huge[7] = 0x40;
    assert!(root::<Vector<&[u8], u32>, &[u8]>(&huge[..]).is_err());
}

#[test]
fn truncated_string_is_rejected() {
    let buf: Vec<u8> = vec![4, 0, 0, 0, 9, 0, 0, 0, b'a'];
    assert_eq!(
        root::<&str, &[u8]>(&buf[..]),
        Err(InvalidFlatbuffer::RangeOutOfBounds { start: 8, end: 17 })
    );
}

#[test]
fn sequence_of_objects_is_checked_through_offsets() {
    let buf: Vec<u8> = vec![
        4, 0, 0, 0, // offset to the sequence
        1, 0, 0, 0, // one element
        12, 0, 0, 0, // offset to the object
        8, 0, 8, 0, 4, 0, 0, 0, // its field-offset table
        8, 0, 0, 0, // the object
        7, 0, 0, 0, // its field
    ];
    let v = root::<Vector<&[u8], ForwardsUOffset<Table<&[u8]>>>, &[u8]>(&buf[..]).unwrap();
    assert_eq!(v.len(), 1);
    let t = v.get(0);
    assert_eq!(t.loc, 20);
    assert_eq!(t.get::<u32>(4, None), Some(7));
    let mut bad = buf.clone();
    bad[8] = 100;
    assert!(root::<Vector<&[u8], ForwardsUOffset<Table<&[u8]>>>, &[u8]>(&bad[..]).is_err());
}

#[test]
fn size_limit_is_applied() {
    let buf = three_ints();
    let opts = VerifierOptions { max_apparent_size: 8 };
    assert_eq!(
        root_with_opts::<Vector<&[u8], u32>, &[u8]>(&opts, &buf[..]).err(),
        Some(InvalidFlatbuffer::ApparentSizeTooLarge { size: 20 })
    );
    assert_eq!(VerifierOptions::default().max_apparent_size, 1 << 31);
}

#[test]
fn size_prefixed_roots() {
    let mut buf: Vec<u8> = vec![20, 0, 0, 0];
    buf.extend_from_slice(&three_ints());
    let v = size_prefixed_root::<Vector<&[u8], u32>, &[u8]>(&buf[..]).unwrap();
    assert_eq!(v.1, 8);
    assert_eq!(forward(v.iter()), vec![10, 20, 30]);
    let u = size_prefixed_root_unchecked::<Vector<&[u8], u32>, &[u8]>(&buf[..]);
    assert_eq!(u.len(), 3);
    assert!(size_prefixed_root::<Vector<&[u8], u32>, &[u8]>(&buf[..6]).is_err());
}

#[test]
fn unchecked_root_of_trusted_buffer() {
    let buf = two_field_object();
    let t = root_unchecked::<Table<&[u8]>, &[u8]>(&buf[..]);
    assert_eq!(t.get::<u32>(4, None), Some(7));
    let v = root_unchecked::<Vector<&[u8], u32>, &[u8]>(&three_ints()[..]).len();
    assert_eq!(v, 3);
}

#[test]
fn scalar_reads_are_little_endian() {
    let b: Vec<u8> = vec![0x01, 0x02, 0x03, 0x04, 0x05, 0x06, 0x07, 0x88];
    let s: &[u8] = &b[..];
    assert_eq!(read_u16_at(&s, 0), 0x0201);
    assert_eq!(read_u32_at(&s, 0), 0x0403_0201);
    assert_eq!(read_u64_at(&s, 0), 0x8807_0605_0403_0201);
    assert_eq!(read_i32_at(&s, 4), 0x8807_0605u32 as i32);
    assert_eq!(read_i64_at(&s, 0), 0x8807_0605_0403_0201u64 as i64);
    assert_eq!(<i32 as Follow<&[u8]>>::follow(s, 4), -2012805627);
    assert_eq!(<bool as Follow<&[u8]>>::follow(s, 0), true);
    assert_eq!(<u8 as Follow<&[u8]>>::follow(s, 7), 0x88);
}

#[test]
fn sequence_into_cursor() {
    let buf = three_ints();
    let v = Vector::<&[u8], u32>::new(&buf[..], 4);
    assert_eq!(forward(v.into_iter()), vec![10, 20, 30]);
}
