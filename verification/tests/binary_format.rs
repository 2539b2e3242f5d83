use macroserde::bindings::{deserialize_enum, serialize_enum, Entry};
use macroserde::de::{Cursor, Deserialize, Deserializer as Reader, Reject};
use macroserde::error::{DeserializeError, SerializeError};
use macroserde::msgpack::wire::{push_be, read_be};
use macroserde::msgpack::{Deserializer, Serializer};
use macroserde::number::Float;
use macroserde::ser::{Serialize, Serializer as Sink};

const MONTHS: [Entry; 2] = [Entry { id: 10, name: "October" }, Entry { id: 300, name: "Brumaire" }];

fn write<T: Serialize>(value: &T) -> Vec<u8> {
    let mut writer = Serializer::new();
    value.serialize(&mut writer).unwrap();
    writer.buffer
}

fn read<T: Deserialize<Deserializer>>(bytes: &[u8]) -> Result<T, DeserializeError> {
    let mut de = Deserializer::new(bytes.to_vec());
    T::deserialize(&mut de)
}

#[test]
fn an_unsigned_number_takes_the_narrowest_width() {
    assert_eq!(write(&200u64), vec![0xcc, 0xc8]);
    assert_eq!(write(&70000u64), vec![0xce, 0x00, 0x01, 0x11, 0x70]);
    assert_eq!(write(&0u8), vec![0x00]);
    assert_eq!(write(&127u8), vec![0x7f]);
    assert_eq!(write(&128u8), vec![0xcc, 0x80]);
    assert_eq!(write(&255u16), vec![0xcc, 0xff]);
    assert_eq!(write(&256u16), vec![0xcd, 0x01, 0x00]);
    assert_eq!(write(&65535u32), vec![0xcd, 0xff, 0xff]);
    assert_eq!(write(&65536u32), vec![0xce, 0x00, 0x01, 0x00, 0x00]);
    assert_eq!(write(&u32::MAX), vec![0xce, 0xff, 0xff, 0xff, 0xff]);
    assert_eq!(write(&(u32::MAX as u64 + 1)), vec![0xcf, 0, 0, 0, 1, 0, 0, 0, 0]);
    assert_eq!(write(&u64::MAX), vec![0xcf, 0xff, 0xff, 0xff, 0xff, 0xff, 0xff, 0xff, 0xff]);
    assert_eq!(write(&0x0102030405060708u64), vec![0xcf, 1, 2, 3, 4, 5, 6, 7, 8]);
    assert_eq!(write(&7usize), vec![0x07]);
}

#[test]
fn a_signed_number_takes_the_narrowest_width() {
    assert_eq!(write(&0i8), vec![0x00]);
    assert_eq!(write(&127i64), vec![0x7f]);
    assert_eq!(write(&-1i32), vec![0xff]);
    assert_eq!(write(&-32i32), vec![0xe0]);
    assert_eq!(write(&-33i32), vec![0xd0, 0xdf]);
    assert_eq!(write(&-128i32), vec![0xd0, 0x80]);
    assert_eq!(write(&128i32), vec![0xd1, 0x00, 0x80]);
    assert_eq!(write(&-129i32), vec![0xd1, 0xff, 0x7f]);
    assert_eq!(write(&32767i32), vec![0xd1, 0x7f, 0xff]);
    assert_eq!(write(&-32768i32), vec![0xd1, 0x80, 0x00]);
    assert_eq!(write(&32768i32), vec![0xd2, 0x00, 0x00, 0x80, 0x00]);
    assert_eq!(write(&i32::MIN), vec![0xd2, 0x80, 0x00, 0x00, 0x00]);
    assert_eq!(write(&i32::MAX), vec![0xd2, 0x7f, 0xff, 0xff, 0xff]);
    assert_eq!(write(&(i32::MAX as i64 + 1)), vec![0xd3, 0, 0, 0, 0, 0x80, 0, 0, 0]);
    assert_eq!(write(&i64::MIN), vec![0xd3, 0x80, 0, 0, 0, 0, 0, 0, 0]);
    assert_eq!(write(&i64::MAX), vec![0xd3, 0x7f, 0xff, 0xff, 0xff, 0xff, 0xff, 0xff, 0xff]);
    assert_eq!(write(&-2isize), vec![0xfe]);
}

#[test]
fn the_other_scalars_have_their_tags() {
    assert_eq!(write(&()), vec![0xc0]);
    assert_eq!(write(&false), vec![0xc2]);
    assert_eq!(write(&true), vec![0xc3]);
    assert_eq!(write(&None::<u8>), vec![0xc0]);
    assert_eq!(write(&Some(3u8)), vec![0x03]);
    assert_eq!(write(&String::new()), vec![0xa0]);
    assert_eq!(write(&"abc".to_owned()), vec![0xa3, b'a', b'b', b'c']);
    assert_eq!(write(&"é".to_owned()), vec![0xa2, 0xc3, 0xa9]);

    let text = "x".repeat(31);
    let bytes = write(&text);
    assert_eq!(bytes[0], 0xbf);
    assert_eq!(bytes.len(), 32);
    let text = "x".repeat(32);
    let bytes = write(&text);
    assert_eq!(&bytes[..2], &[0xd9, 32]);
    assert_eq!(bytes.len(), 34);
    let text = "x".repeat(255);
    assert_eq!(&write(&text)[..2], &[0xd9, 255]);
    let text = "x".repeat(256);
    assert_eq!(&write(&text)[..3], &[0xda, 1, 0]);
    let text = "x".repeat(65536);
    let bytes = write(&text);
    assert_eq!(&bytes[..5], &[0xdb, 0, 1, 0, 0]);
    assert_eq!(bytes.len(), 65541);
    assert_eq!(read::<String>(&bytes), Ok(text));
}

#[test]
fn aggregates_open_with_their_count() {
    assert_eq!(write(&Vec::<u8>::new()), vec![0x90]);
    assert_eq!(write(&vec![1u8, 2, 3]), vec![0x93, 1, 2, 3]);
    assert_eq!(write(&vec![0u8; 15])[0], 0x9f);
    assert_eq!(&write(&vec![0u8; 16])[..3], &[0xdc, 0, 16]);
    assert_eq!(&write(&vec![0u8; 65535])[..3], &[0xdc, 0xff, 0xff]);
    assert_eq!(&write(&vec![0u8; 65536])[..5], &[0xdd, 0, 1, 0, 0]);
    assert_eq!(write(&vec![vec![true], vec![]]), vec![0x92, 0x91, 0xc3, 0x90]);

    let mut writer = Serializer::new();
    writer.start_struct(0).unwrap();
    writer.start_struct(15).unwrap();
    writer.start_struct(16).unwrap();
    writer.start_struct(65536).unwrap();
    writer.start_struct_field(200, "name").unwrap();
    writer.end_struct_field().unwrap();
    writer.end_struct().unwrap();
    writer.start_seq_elmt().unwrap();
    writer.end_seq_elmt().unwrap();
    writer.end_seq().unwrap();
    assert_eq!(
        writer.buffer,
        vec![0x80, 0x8f, 0xde, 0, 16, 0xdf, 0, 1, 0, 0, 0xcc, 200]
    );
    if usize::BITS > 32 {
        assert_eq!(writer.start_struct(1 << 32), Err(SerializeError));
        assert_eq!(writer.start_seq(1 << 32), Err(SerializeError));
    }
}

#[test]
fn an_enum_is_written_as_its_number() {
    let mut writer = Serializer::new();
    serialize_enum(&MONTHS, 0, &mut writer).unwrap();
    serialize_enum(&MONTHS, 1, &mut writer).unwrap();
    assert_eq!(writer.buffer, vec![0x0a, 0xcd, 0x01, 0x2c]);
    let mut de = Deserializer::new(writer.buffer);
    assert_eq!(deserialize_enum(&MONTHS, &mut de), Ok(0));
    assert_eq!(deserialize_enum(&MONTHS, &mut de), Ok(1));
    assert_eq!(deserialize_enum(&MONTHS, &mut de), Err(DeserializeError::UnexpectedEof));
    let mut de = Deserializer::new(vec![0x0b]);
    assert_eq!(deserialize_enum(&MONTHS, &mut de), Err(DeserializeError::UnknownEnumVariant));
    let mut de = Deserializer::new(vec![0xa7, b'O', b'c', b't', b'o', b'b', b'e', b'r']);
    assert_eq!(deserialize_enum(&MONTHS, &mut de), Ok(0));
}

#[test]
fn every_tag_is_read() {
    assert_eq!(read::<u64>(&[0x00]), Ok(0));
    assert_eq!(read::<u64>(&[0x7f]), Ok(127));
    assert_eq!(read::<u64>(&[0xcc, 0xc8]), Ok(200));
    assert_eq!(read::<u64>(&[0xcd, 0x01, 0x02]), Ok(0x0102));
    assert_eq!(read::<u64>(&[0xce, 1, 2, 3, 4]), Ok(0x01020304));
    assert_eq!(read::<u64>(&[0xcf, 1, 2, 3, 4, 5, 6, 7, 8]), Ok(0x0102030405060708));
    assert_eq!(read::<i64>(&[0xff]), Ok(-1));
    assert_eq!(read::<i64>(&[0xe0]), Ok(-32));
    assert_eq!(read::<i64>(&[0xd0, 0x80]), Ok(-128));
    assert_eq!(read::<i64>(&[0xd0, 0x7f]), Ok(127));
    assert_eq!(read::<i64>(&[0xd1, 0xff, 0x7f]), Ok(-129));
    assert_eq!(read::<i64>(&[0xd2, 0x80, 0, 0, 0]), Ok(i32::MIN as i64));
    assert_eq!(read::<i64>(&[0xd3, 0x80, 0, 0, 0, 0, 0, 0, 0]), Ok(i64::MIN));
    assert_eq!(read::<i64>(&[0xd3, 0xff, 0xff, 0xff, 0xff, 0xff, 0xff, 0xff, 0xfe]), Ok(-2));
    assert_eq!(read::<()>(&[0xc0]), Ok(()));
    assert_eq!(read::<bool>(&[0xc2]), Ok(false));
    assert_eq!(read::<bool>(&[0xc3]), Ok(true));
    assert_eq!(read::<Float>(&[0xca, 0x3f, 0x80, 0, 0]), Ok(Float::Single(0x3f80_0000)));
    assert_eq!(
        read::<Float>(&[0xcb, 0x3f, 0xf0, 0, 0, 0, 0, 0, 1]),
        Ok(Float::Double(0x3ff0_0000_0000_0001))
    );
    assert_eq!(read::<String>(&[0xa0]), Ok(String::new()));
    assert_eq!(read::<String>(&[0xa2, b'h', b'i']), Ok("hi".to_owned()));
    assert_eq!(read::<String>(&[0xd9, 2, b'h', b'i']), Ok("hi".to_owned()));
    assert_eq!(read::<String>(&[0xda, 0, 2, b'h', b'i']), Ok("hi".to_owned()));
    assert_eq!(read::<String>(&[0xdb, 0, 0, 0, 2, b'h', b'i']), Ok("hi".to_owned()));
    assert_eq!(read::<Vec<u8>>(&[0x90]), Ok(vec![]));
    assert_eq!(read::<Vec<u8>>(&[0x92, 1, 2]), Ok(vec![1, 2]));
    assert_eq!(read::<Vec<u8>>(&[0xdc, 0, 2, 1, 2]), Ok(vec![1, 2]));
    assert_eq!(read::<Vec<u8>>(&[0xdd, 0, 0, 0, 2, 1, 2]), Ok(vec![1, 2]));
    assert_eq!(read::<Option<u8>>(&[0xc0]), Ok(None));
    assert_eq!(read::<Option<u8>>(&[0x05]), Ok(Some(5)));
}

#[test]
fn a_number_is_taken_where_the_destination_holds_it() {
    assert_eq!(read::<i8>(&[0xcc, 0x7f]), Ok(127));
    assert_eq!(read::<i8>(&[0xcc, 0x80]), Err(DeserializeError::IncompatibleNumericType));
    assert_eq!(read::<u8>(&[0xd1, 0x00, 0xff]), Ok(255));
    assert_eq!(read::<u8>(&[0xff]), Err(DeserializeError::IncompatibleNumericType));
    assert_eq!(read::<u64>(&[0x05]), Ok(5));
    assert_eq!(read::<u64>(&[0xd0, 0x05]), Ok(5));
    assert_eq!(
        read::<i64>(&[0xcf, 0x80, 0, 0, 0, 0, 0, 0, 0]),
        Err(DeserializeError::IncompatibleNumericType)
    );
    assert_eq!(read::<bool>(&[0x02]), Ok(true));
    assert_eq!(read::<bool>(&[0x00]), Ok(false));
    assert_eq!(read::<i32>(&[0xc3]), Ok(1));
    assert_eq!(read::<i32>(&[0xca, 0xc3, 0xe4, 0x1a, 0xe1]), Ok(-456));
    assert_eq!(
        read::<Float>(&[0x05]),
        Ok(Float::Decimal { negative: false, mantissa: 5, exponent: 0 })
    );
    assert_eq!(read::<String>(&[0x05]), Err(DeserializeError::UnimplementedVisit));
    assert_eq!(read::<u8>(&[0xa0]), Err(DeserializeError::UnimplementedVisit));
    assert_eq!(read::<u8>(&[0x90]), Err(DeserializeError::UnimplementedVisit));
    assert_eq!(read::<u8>(&[0x80]), Err(DeserializeError::UnimplementedVisit));
    assert_eq!(read::<Vec<u8>>(&[0x80]), Err(DeserializeError::UnimplementedVisit));
}

#[test]
fn bytes_that_end_early_are_an_end_of_input() {
    assert_eq!(read::<u64>(&[]), Err(DeserializeError::UnexpectedEof));
    assert_eq!(read::<u64>(&[0xcc]), Err(DeserializeError::UnexpectedEof));
    assert_eq!(read::<u64>(&[0xcd, 1]), Err(DeserializeError::UnexpectedEof));
    assert_eq!(read::<u64>(&[0xce, 1, 2, 3]), Err(DeserializeError::UnexpectedEof));
    assert_eq!(read::<u64>(&[0xcf, 1, 2, 3, 4, 5, 6, 7]), Err(DeserializeError::UnexpectedEof));
    assert_eq!(read::<i64>(&[0xd3, 1]), Err(DeserializeError::UnexpectedEof));
    assert_eq!(read::<Float>(&[0xca, 1, 2, 3]), Err(DeserializeError::UnexpectedEof));
    assert_eq!(read::<Float>(&[0xcb, 1, 2, 3]), Err(DeserializeError::UnexpectedEof));
    assert_eq!(read::<String>(&[0xa3, b'a']), Err(DeserializeError::UnexpectedEof));
    assert_eq!(read::<String>(&[0xd9]), Err(DeserializeError::UnexpectedEof));
    assert_eq!(read::<String>(&[0xdb, 0xff, 0xff, 0xff, 0xff, 1]), Err(DeserializeError::UnexpectedEof));
    assert_eq!(read::<Vec<u8>>(&[0x92, 1]), Err(DeserializeError::UnexpectedEof));
    assert_eq!(read::<Vec<u8>>(&[0xdc, 0]), Err(DeserializeError::UnexpectedEof));
    assert_eq!(read::<Vec<u8>>(&[0xdd, 0xff, 0xff, 0xff, 0xff]), Err(DeserializeError::UnexpectedEof));
}

#[test]
fn a_tag_that_the_format_does_not_know_is_a_parsing_error() {
    for tag in [0xc1u8, 0xc4, 0xc5, 0xc6, 0xc7, 0xc8, 0xc9, 0xd4, 0xd5, 0xd6, 0xd7, 0xd8] {
        let mut de = Deserializer::new(vec![tag, 0, 0, 0, 0]);
        assert_eq!(de.deserialize(&mut Reject), Err(DeserializeError::ParsingError));
    }
    assert_eq!(read::<String>(&[0xa2, 0xff, 0xfe]), Err(DeserializeError::ParsingError));
    assert_eq!(read::<String>(&[0xa1, 0xc3]), Err(DeserializeError::ParsingError));
    assert_eq!(read::<u8>(&[0xa1, 0xc3]), Err(DeserializeError::ParsingError));
}

#[test]
fn members_are_named_by_their_numbers() {
    let mut de = Deserializer::new(vec![0x82, 0x01, 0x13, 0xcd, 0x01, 0x2c, 0xc3]);
    let mut cursor = Cursor::new(Some(2));
    de.pos = 1;
    let key = de.next_member(&mut cursor).unwrap().unwrap();
    assert_eq!((key.id, key.name), (Some(1), None));
    assert_eq!(u8::deserialize(&mut de), Ok(0x13));
    let key = de.next_member(&mut cursor).unwrap().unwrap();
    assert_eq!((key.id, key.name), (Some(300), None));
    assert_eq!(bool::deserialize(&mut de), Ok(true));
    assert_eq!(de.next_member(&mut cursor), Ok(None));
    assert_eq!(cursor, Cursor { first: false, left: Some(0) });

    let mut de = Deserializer::new(vec![0xcf, 0, 0, 0, 1, 0, 0, 0, 7]);
    let mut cursor = Cursor::new(Some(1));
    assert_eq!(de.next_member(&mut cursor), Err(DeserializeError::IncompatibleNumericType));
    let mut de = Deserializer::new(vec![0xce, 0xff, 0xff, 0xff, 0xff]);
    let mut cursor = Cursor::new(Some(1));
    let key = de.next_member(&mut cursor).unwrap().unwrap();
    assert_eq!(key.id, Some(u32::MAX));

    let mut de = Deserializer::new(vec![0xa1, b'x']);
    let mut cursor = Cursor::new(Some(1));
    assert_eq!(de.next_member(&mut cursor), Err(DeserializeError::ParsingError));
    let mut de = Deserializer::new(vec![]);
    let mut cursor = Cursor::new(Some(1));
    assert_eq!(de.next_member(&mut cursor), Err(DeserializeError::UnexpectedEof));
    let mut cursor = Cursor::new(None);
    assert_eq!(de.next_member(&mut cursor), Err(DeserializeError::UnknownError));
    assert_eq!(de.next_element(&mut cursor), Err(DeserializeError::UnknownError));
}

#[test]
fn what_the_sink_writes_is_read_back() {
    for value in [0i64, 1, -1, 127, 128, -32, -33, -128, -129, 32767, -32768, 1 << 31, i64::MIN, i64::MAX] {
        assert_eq!(read::<i64>(&write(&value)), Ok(value));
    }
    for value in [0u64, 127, 128, 255, 256, 65535, 65536, 1 << 32, u64::MAX] {
        assert_eq!(read::<u64>(&write(&value)), Ok(value));
    }
    assert_eq!(read::<i8>(&write(&i8::MIN)), Ok(i8::MIN));
    assert_eq!(read::<u16>(&write(&u16::MAX)), Ok(u16::MAX));
    assert_eq!(read::<bool>(&write(&true)), Ok(true));
    assert_eq!(read::<()>(&write(&())), Ok(()));
    let text = "with \" and ✓".to_owned();
    assert_eq!(read::<String>(&write(&text)), Ok(text));
    let nested = vec![vec![Some(-5i16), None], vec![], vec![Some(700)]];
    assert_eq!(read::<Vec<Vec<Option<i16>>>>(&write(&nested)), Ok(nested));
    let long: Vec<u32> = (0..70000).collect();
    assert_eq!(read::<Vec<u32>>(&write(&long)), Ok(long));
    assert_eq!(read::<Float>(&write(&Float::Single(0x7fc0_0001))), Ok(Float::Single(0x7fc0_0001)));
    let third = Float::Double((1.0f64 / 3.0).to_bits());
    assert_eq!(read::<Float>(&write(&third)), Ok(third));
    assert_eq!(read::<Option<()>>(&write(&Some(()))), Ok(None));
}

#[test]
fn a_number_is_written_in_single_precision_where_that_is_exact() {
    let exact = [0.0f64, -0.0, 1.0, -2.5, 1.5e10, f64::INFINITY, f64::NEG_INFINITY, 1.0e-40, 1.4e-45];
    for value in exact {
        let narrowed = value as f32;
        let value = narrowed as f64;
        let bytes = write(&Float::Double(value.to_bits()));
        assert_eq!(bytes[0], 0xca);
        assert_eq!(&bytes[1..], &narrowed.to_bits().to_be_bytes());
        assert_eq!(read::<Float>(&bytes), Ok(Float::Single(narrowed.to_bits())));
    }
    let inexact = [0.1f64, 1.0 / 3.0, 1.0e300, -1.0e-300, f64::MIN_POSITIVE, 5e-324, f64::NAN, 16777217.0];
    for value in inexact {
        assert!((value as f32) as f64 != value);
        let bytes = write(&Float::Double(value.to_bits()));
        assert_eq!(bytes[0], 0xcb);
        assert_eq!(&bytes[1..], &value.to_bits().to_be_bytes());
    }
    let mut writer = Serializer::new();
    assert_eq!(
        writer.serialize_float(Float::Decimal { negative: false, mantissa: 1, exponent: 0 }),
        Err(SerializeError)
    );
    assert_eq!(writer.serialize_float(Float::Single(0x3f80_0000)), Ok(()));
    assert_eq!(writer.buffer, vec![0xca, 0x3f, 0x80, 0, 0]);
}

#[test]
fn numbers_are_framed_with_the_most_significant_byte_first() {
    let mut buffer = vec![9u8];
    push_be(&mut buffer, 0x0102, 2);
    push_be(&mut buffer, 0x0102, 4);
    push_be(&mut buffer, 0x0102, 1);
    push_be(&mut buffer, 7, 0);
    assert_eq!(buffer, vec![9, 1, 2, 0, 0, 1, 2, 2]);
    assert_eq!(read_be(&buffer, 1, 2), Some(0x0102));
    assert_eq!(read_be(&buffer, 0, 8), Some(0x0901020000010202));
    assert_eq!(read_be(&buffer, 1, 8), None);
    assert_eq!(read_be(&buffer, 8, 1), None);
    assert_eq!(read_be(&buffer, 9, 1), None);
    assert_eq!(read_be(&buffer, 7, 1), Some(2));
}
