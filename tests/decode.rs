use from_bytes::layout::{calculate_field_offsets, FieldOverrides};
use from_bytes::record::{Field, Record, Value};
use from_bytes::text::{BytesArray, InlineCString};
use from_bytes::{FromBytes, ReadFromBytesError};

fn pair_record() -> Record {
    Record::new(vec![
        Field::new("a".to_string(), Value::U32(0)),
        Field::new("b".to_string(), Value::U16(0)),
    ])
    .unwrap()
}

fn field_u32(r: &Record, i: usize) -> u32 {
    match &r.fields()[i].value {
        Value::U32(x) => *x,
        other => panic!("not a u32: {:?}", other),
    }
}

fn field_u16(r: &Record, i: usize) -> u16 {
    match &r.fields()[i].value {
        Value::U16(x) => *x,
        other => panic!("not a u16: {:?}", other),
    }
}

fn is_too_small(r: &Result<(), ReadFromBytesError>, required: usize, actual: usize) -> bool {
    matches!(r, Err(ReadFromBytesError::BytesArrayTooSmall(q, a)) if *q == required && *a == actual)
}

fn is_format_error(r: &Result<(), ReadFromBytesError>) -> bool {
    matches!(r, Err(ReadFromBytesError::BytesFormatError(_)))
}

#[test]
fn two_field_record_decodes() {
    let mut rec = pair_record();
    assert_eq!(rec.layout().unwrap(), vec![(0, 4), (4, 2)]);
    assert_eq!(rec.bytes_size(), 6);
    let r = rec.load_from_bytes(&[1, 0, 0, 0, 7, 0]);
    assert!(r.is_ok());
    assert_eq!(field_u32(&rec, 0), u32::from_ne_bytes([1, 0, 0, 0]));
    assert_eq!(field_u16(&rec, 1), u16::from_ne_bytes([7, 0]));
}

#[test]
fn two_field_record_little_endian_values() {
    let mut rec = pair_record();
    assert!(rec.load_from_bytes(&[1, 0, 0, 0, 7, 0]).is_ok());
    if u16::from_ne_bytes([1, 0]) == 1 {
        assert_eq!(field_u32(&rec, 0), 1);
        assert_eq!(field_u16(&rec, 1), 7);
    }
}

#[test]
fn two_field_record_short_buffer() {
    let mut rec = Record::new(vec![
        Field::new("a".to_string(), Value::U32(42)),
        Field::new("b".to_string(), Value::U16(9)),
    ])
    .unwrap();
    let r = rec.load_from_bytes(&[1, 0, 0, 0, 7]);
    assert!(is_too_small(&r, 6, 5));
    assert_eq!(field_u32(&rec, 0), 42);
    assert_eq!(field_u16(&rec, 1), 9);
}

#[test]
fn text_with_terminator() {
    let mut t = InlineCString::default();
    assert!(t.load_from_bytes(&[72, 105, 0]).is_ok());
    assert_eq!(t.contents, "Hi");
    assert_eq!(t.bytes_size(), 2);
}

#[test]
fn text_without_terminator_takes_whole_slice() {
    let mut t = InlineCString::default();
    assert!(t.load_from_bytes(&[72, 105]).is_ok());
    assert_eq!(t.contents, "Hi");
}

#[test]
fn text_stops_at_first_zero() {
    let mut t = InlineCString::default();
    assert!(t.load_from_bytes(&[65, 0, 66, 0]).is_ok());
    assert_eq!(t.contents, "A");
    let mut e = InlineCString { contents: "old".to_string() };
    assert!(e.load_from_bytes(&[]).is_ok());
    assert_eq!(e.contents, "");
}

#[test]
fn text_multibyte_utf8() {
    let mut t = InlineCString::default();
    assert!(t.load_from_bytes(&[0xc3, 0xa9, 0]).is_ok());
    assert_eq!(t.contents, "\u{e9}");
    assert_eq!(t.bytes_size(), 2);
}

#[test]
fn text_invalid_utf8_is_format_error() {
    let mut t = InlineCString { contents: "keep".to_string() };
    let r = t.load_from_bytes(&[0xff, 0xfe, 0]);
    assert!(is_format_error(&r));
    assert_eq!(t.contents, "keep");
}

#[test]
fn text_into_string() {
    let t = InlineCString { contents: "abc".to_string() };
    let s: String = String::from(t);
    assert_eq!(s, "abc");
}

#[test]
fn integers_exact_width_succeed() {
    let mut a: u8 = 0;
    assert!(a.load_from_bytes(&[200]).is_ok());
    assert_eq!(a, 200);
    let mut b: i8 = 0;
    assert!(b.load_from_bytes(&[0xff]).is_ok());
    assert_eq!(b, -1);
    let mut c: u16 = 0;
    assert!(c.load_from_bytes(&[1, 2]).is_ok());
    assert_eq!(c, u16::from_ne_bytes([1, 2]));
    assert_ne!(c, 0);
    let mut d: i32 = 0;
    assert!(d.load_from_bytes(&[0xfe, 0xff, 0xff, 0xff]).is_ok());
    assert_eq!(d, i32::from_ne_bytes([0xfe, 0xff, 0xff, 0xff]));
    let mut e: u64 = 0;
    assert!(e.load_from_bytes(&[1, 2, 3, 4, 5, 6, 7, 8]).is_ok());
    assert_eq!(e, u64::from_ne_bytes([1, 2, 3, 4, 5, 6, 7, 8]));
    let mut f: i128 = 0;
    assert!(f.load_from_bytes(&[0xff; 16]).is_ok());
    assert_eq!(f, -1);
    let mut g: u128 = 0;
    assert!(g.load_from_bytes(&[0xff; 16]).is_ok());
    assert_eq!(g, u128::MAX);
    let mut h: i16 = 0;
    assert!(h.load_from_bytes(&[0, 0x80]).is_ok());
    assert_eq!(h, i16::from_ne_bytes([0, 0x80]));
    let mut j: i64 = 0;
    assert!(j.load_from_bytes(&[9, 0, 0, 0, 0, 0, 0, 0, 5]).is_ok());
    assert_eq!(j, i64::from_ne_bytes([9, 0, 0, 0, 0, 0, 0, 0]));
    let mut k: u32 = 0;
    assert!(k.load_from_bytes(&[0, 0, 0, 1]).is_ok());
    assert_eq!(k, u32::from_ne_bytes([0, 0, 0, 1]));
}

#[test]
fn integers_one_byte_short_fail() {
    let mut a: u8 = 5;
    assert!(is_too_small(&a.load_from_bytes(&[]), 1, 0));
    assert_eq!(a, 5);
    let mut b: u16 = 5;
    assert!(is_too_small(&b.load_from_bytes(&[1]), 2, 1));
    assert_eq!(b, 5);
    let mut c: i32 = 5;
    assert!(is_too_small(&c.load_from_bytes(&[1, 2, 3]), 4, 3));
    let mut d: u64 = 5;
    assert!(is_too_small(&d.load_from_bytes(&[0; 7]), 8, 7));
    let mut e: i128 = 5;
    assert!(is_too_small(&e.load_from_bytes(&[0; 15]), 16, 15));
    assert_eq!(e, 5);
}

#[test]
fn integer_sizes() {
    assert_eq!(0u8.bytes_size(), 1);
    assert_eq!(0i16.bytes_size(), 2);
    assert_eq!(0u32.bytes_size(), 4);
    assert_eq!(0i64.bytes_size(), 8);
    assert_eq!(0u128.bytes_size(), 16);
}

#[test]
fn sequential_offsets_are_prefix_sums() {
    let no = FieldOverrides { size: None, offset: None };
    let l = calculate_field_offsets(&[no, no, no, no], &[1, 4, 2, 8]).unwrap();
    assert_eq!(l, vec![(0, 1), (1, 4), (5, 2), (7, 8)]);
    let rec = Record::new(vec![
        Field::new("a".to_string(), Value::U8(0)),
        Field::new("b".to_string(), Value::U32(0)),
        Field::new("c".to_string(), Value::I16(0)),
        Field::new("d".to_string(), Value::U64(0)),
    ])
    .unwrap();
    assert_eq!(rec.bytes_size(), 15);
}

#[test]
fn offset_override_moves_later_fields_only() {
    let no = FieldOverrides { size: None, offset: None };
    let moved = FieldOverrides { size: None, offset: Some(10) };
    let base = calculate_field_offsets(&[no, no, no], &[2, 2, 2]).unwrap();
    let over = calculate_field_offsets(&[no, moved, no], &[2, 2, 2]).unwrap();
    assert_eq!(base, vec![(0, 2), (2, 2), (4, 2)]);
    assert_eq!(over, vec![(0, 2), (10, 2), (12, 2)]);
}

#[test]
fn size_override_replaces_own_size() {
    let sized = FieldOverrides { size: Some(5), offset: None };
    let no = FieldOverrides { size: None, offset: None };
    let l = calculate_field_offsets(&[sized, no], &[0, 4]).unwrap();
    assert_eq!(l, vec![(0, 5), (5, 4)]);
}

#[test]
fn layout_that_overflows_is_refused() {
    let huge = FieldOverrides { size: Some(usize::MAX), offset: None };
    let no = FieldOverrides { size: None, offset: None };
    assert_eq!(calculate_field_offsets(&[huge, no], &[0, 1]), None);
    let mut rec = Record::new(vec![
        Field::new("a".to_string(), Value::U8(3)).with_size(usize::MAX),
        Field::new("b".to_string(), Value::U8(4)),
    ])
    .unwrap();
    assert_eq!(rec.bytes_size(), usize::MAX);
    let r = rec.load_from_bytes(&[1, 2, 3]);
    assert!(is_too_small(&r, usize::MAX, 3));
}

#[test]
fn record_without_fields_is_refused() {
    assert!(Record::new(vec![]).is_none());
}

#[test]
fn short_buffer_mutates_nothing() {
    let mut rec = Record::new(vec![
        Field::new("a".to_string(), Value::U8(1)),
        Field::new("t".to_string(), Value::Text(InlineCString { contents: "x".to_string() }))
            .with_size(4),
        Field::new("b".to_string(), Value::U16(2)),
    ])
    .unwrap();
    assert_eq!(rec.bytes_size(), 7);
    let r = rec.load_from_bytes(&[9, 72, 105, 0, 0, 1]);
    assert!(is_too_small(&r, 7, 6));
    assert_eq!(rec.fields()[0].value, Value::U8(1));
    assert_eq!(rec.fields()[1].value, Value::Text(InlineCString { contents: "x".to_string() }));
    assert_eq!(rec.fields()[2].value, Value::U16(2));
}

#[test]
fn decoding_twice_gives_same_value() {
    let mut rec = Record::new(vec![
        Field::new("a".to_string(), Value::U8(0)),
        Field::new("t".to_string(), Value::Text(InlineCString::default())).with_size(3),
        Field::new("blob".to_string(), Value::Bytes(BytesArray::with_size(2))),
    ])
    .unwrap();
    let buf = [5, 72, 105, 0, 8, 9];
    assert!(rec.load_from_bytes(&buf).is_ok());
    let first = format!("{:?}", rec);
    assert!(rec.load_from_bytes(&buf).is_ok());
    assert_eq!(format!("{:?}", rec), first);
    assert_eq!(rec.fields()[0].value, Value::U8(5));
    assert_eq!(rec.fields()[1].value, Value::Text(InlineCString { contents: "Hi".to_string() }));
    assert_eq!(rec.fields()[2].value, Value::Bytes(BytesArray { bytes: vec![8, 9] }));
}

fn inner_record() -> Record {
    Record::new(vec![
        Field::new("x".to_string(), Value::U16(0)),
        Field::new("y".to_string(), Value::U8(0)),
    ])
    .unwrap()
}

#[test]
fn nested_record_decodes_as_alone() {
    let mut outer = Record::new(vec![
        Field::new("head".to_string(), Value::U8(0)),
        Field::new("inner".to_string(), Value::Record(inner_record())),
        Field::new("tail".to_string(), Value::U8(0)),
    ])
    .unwrap();
    assert_eq!(outer.bytes_size(), 5);
    let buf = [1, 2, 3, 4, 5];
    assert!(outer.load_from_bytes(&buf).is_ok());
    let mut alone = inner_record();
    assert!(alone.load_from_bytes(&buf[1..4]).is_ok());
    assert_eq!(outer.fields()[1].value, Value::Record(alone));
    assert_eq!(outer.fields()[0].value, Value::U8(1));
    assert_eq!(outer.fields()[2].value, Value::U8(5));
}

#[test]
fn value_wrapper_decodes_like_its_content() {
    let mut v = Value::Record(pair_record());
    assert_eq!(v.bytes_size(), 6);
    assert!(v.load_from_bytes(&[1, 0, 0, 0, 7, 0]).is_ok());
    let mut direct = pair_record();
    assert!(direct.load_from_bytes(&[1, 0, 0, 0, 7, 0]).is_ok());
    assert_eq!(v, Value::Record(direct));
}

#[test]
fn failing_field_stops_the_decode() {
    let mut rec = Record::new(vec![
        Field::new("a".to_string(), Value::U8(0)),
        Field::new("t".to_string(), Value::Text(InlineCString { contents: "zz".to_string() })),
        Field::new("b".to_string(), Value::U8(7)),
    ])
    .unwrap();
    let r = rec.load_from_bytes(&[3, 0xff, 0xfe, 4]);
    assert!(is_format_error(&r));
    assert_eq!(rec.fields()[0].value, Value::U8(3));
    assert_eq!(rec.fields()[1].value, Value::Text(InlineCString { contents: "zz".to_string() }));
    assert_eq!(rec.fields()[2].value, Value::U8(7));
}

#[test]
fn field_beyond_buffer_with_offsets() {
    let mut rec = Record::new(vec![
        Field::new("a".to_string(), Value::U8(0)).with_offset(8),
        Field::new("b".to_string(), Value::U8(0)).with_offset(0),
    ])
    .unwrap();
    assert_eq!(rec.bytes_size(), 1);
    let r = rec.load_from_bytes(&[1, 2]);
    assert!(is_too_small(&r, 9, 2));
}

#[test]
fn blob_needs_its_configured_length() {
    let mut b = BytesArray::with_size(3);
    assert_eq!(b.bytes_size(), 3);
    assert!(is_too_small(&b.load_from_bytes(&[1, 2]), 3, 2));
    assert!(is_format_error(&b.load_from_bytes(&[1, 2, 3, 4])));
    assert_eq!(b.bytes, vec![0, 0, 0]);
    assert!(b.load_from_bytes(&[1, 2, 3]).is_ok());
    assert_eq!(b.bytes, vec![1, 2, 3]);
}

#[test]
fn blob_in_record_with_size_override() {
    let mut rec = Record::new(vec![
        Field::new("blob".to_string(), Value::Bytes(BytesArray::default())).with_size(2),
        Field::new("n".to_string(), Value::U8(0)),
    ])
    .unwrap();
    assert_eq!(rec.bytes_size(), 3);
    assert!(rec.load_from_bytes(&[1, 2, 3]).is_ok());
    assert_eq!(rec.fields()[0].value, Value::Bytes(BytesArray { bytes: vec![1, 2] }));
    assert_eq!(rec.fields()[1].value, Value::U8(3));
    let mut resized = Record::new(vec![
        Field::new("blob".to_string(), Value::Bytes(BytesArray::with_size(5))).with_size(2),
        Field::new("n".to_string(), Value::U8(0)),
    ])
    .unwrap();
    assert!(resized.load_from_bytes(&[4, 5, 6]).is_ok());
    assert_eq!(resized.fields()[0].value, Value::Bytes(BytesArray { bytes: vec![4, 5] }));
    assert_eq!(resized.fields()[1].value, Value::U8(6));
}

#[test]
fn offsets_rederived_after_earlier_fields_decode() {
    let mut rec = Record::new(vec![
        Field::new("t".to_string(), Value::Text(InlineCString { contents: "abc".to_string() })),
        Field::new("n".to_string(), Value::U8(99)),
    ])
    .unwrap();
    assert_eq!(rec.bytes_size(), 4);
    assert!(rec.load_from_bytes(&[65, 0, 66, 67, 9]).is_ok());
    assert_eq!(rec.fields()[0].value, Value::Text(InlineCString { contents: "A".to_string() }));
    assert_eq!(rec.fields()[1].value, Value::U8(0));
    assert_eq!(rec.bytes_size(), 2);
}

#[test]
fn field_after_offset_override_follows_it() {
    let mut rec = Record::new(vec![
        Field::new("t".to_string(), Value::Text(InlineCString { contents: "ab".to_string() })),
        Field::new("n".to_string(), Value::U16(7)).with_offset(1),
        Field::new("m".to_string(), Value::U8(5)),
    ])
    .unwrap();
    assert_eq!(rec.bytes_size(), 4);
    let r = rec.load_from_bytes(&[72, 105, 1, 2]);
    assert!(r.is_ok());
    assert_eq!(rec.fields()[0].value, Value::Text(InlineCString { contents: "Hi".to_string() }));
    assert_eq!(rec.fields()[1].value, Value::U16(u16::from_ne_bytes([105, 1])));
    assert_eq!(rec.fields()[2].value, Value::U8(2));
}

#[test]
fn field_format_error_comes_back_verbatim() {
    let mut rec = Record::new(vec![
        Field::new("t".to_string(), Value::Text(InlineCString::default())).with_size(2),
    ])
    .unwrap();
    let r = rec.load_from_bytes(&[0xff, 0]);
    match r {
        Err(ReadFromBytesError::BytesFormatError(m)) => assert_eq!(m, "text is not valid UTF-8"),
        other => panic!("unexpected {:?}", other),
    }
    let mut b = BytesArray::with_size(1);
    match b.load_from_bytes(&[1, 2]) {
        Err(ReadFromBytesError::BytesFormatError(m)) => {
            assert_eq!(m, "slice is longer than the byte array")
        },
        other => panic!("unexpected {:?}", other),
    }
}

#[test]
fn word_sized_integers() {
    let w = std::mem::size_of::<usize>();
    let mut a: usize = 0;
    assert_eq!(a.bytes_size(), w);
    let bytes: Vec<u8> = (1..=w as u8).collect();
    assert!(a.load_from_bytes(&bytes).is_ok());
    assert_eq!(a.to_ne_bytes().to_vec(), bytes);
    let mut b: isize = 0;
    assert_eq!(b.bytes_size(), w);
    assert!(b.load_from_bytes(&vec![0xff; w]).is_ok());
    assert_eq!(b, -1);
    let mut c: usize = 3;
    assert!(is_too_small(&c.load_from_bytes(&vec![0; w - 1]), w, w - 1));
    assert_eq!(c, 3);
    let mut rec = Record::new(vec![
        Field::new("n".to_string(), Value::Usize(0)),
        Field::new("m".to_string(), Value::Isize(0)),
    ])
    .unwrap();
    assert_eq!(rec.bytes_size(), 2 * w);
    let mut buf = vec![0u8; 2 * w];
    buf[0] = 1;
    buf[w] = 0xff;
    assert!(rec.load_from_bytes(&buf).is_ok());
    assert_eq!(rec.fields()[0].value, Value::Usize(usize::from_ne_bytes(buf[..w].try_into().unwrap())));
    assert_eq!(rec.fields()[1].value, Value::Isize(isize::from_ne_bytes(buf[w..].try_into().unwrap())));
}
