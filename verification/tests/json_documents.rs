use macroserde::bindings::{deserialize_enum, serialize_enum, Entry};
use macroserde::de::{Cursor, Deserialize, Deserializer as Reader, Reject};
use macroserde::error::{DeserializeError, SerializeError};
use macroserde::json::de::{has_short_fractions, Lexeme};
use macroserde::json::ser::composite_key;
use macroserde::json::{Deserializer, Serializer};
use macroserde::number::Float;
use macroserde::ser::{Serialize, Serializer as Sink};

const MONTHS: [Entry; 2] = [Entry { id: 10, name: "October" }, Entry { id: 11, name: "November" }];

fn read<T: Deserialize<Deserializer>>(text: &str) -> Result<T, DeserializeError> {
    let mut de = Deserializer::new(text).unwrap();
    T::deserialize(&mut de)
}

fn dump<T: Serialize>(value: &T) -> String {
    let mut writer = Serializer::new();
    value.serialize(&mut writer).unwrap();
    writer.write()
}

#[test]
fn a_document_is_walked_through_step_by_step() {
    let de = Deserializer::new(" [1, -2, 2.50, \"x\", {\"7:k\": null, \"b\": [true]}, 1e2] ").unwrap();
    assert_eq!(de.pos, 0);
    assert_eq!(
        de.lexemes,
        vec![
            Lexeme::StartArray(6),
            Lexeme::Number { nan: false, positive: true, mantissa: 1, exponent: 0 },
            Lexeme::Number { nan: false, positive: false, mantissa: 2, exponent: 0 },
            Lexeme::Number { nan: false, positive: true, mantissa: 250, exponent: -2 },
            Lexeme::Text("x".to_owned()),
            Lexeme::StartObject(2),
            Lexeme::Key("7:k".to_owned()),
            Lexeme::Null,
            Lexeme::Key("b".to_owned()),
            Lexeme::StartArray(1),
            Lexeme::Boolean(true),
            Lexeme::EndArray,
            Lexeme::EndObject,
            Lexeme::Number { nan: false, positive: true, mantissa: 1, exponent: 2 },
            Lexeme::EndArray,
        ]
    );
    let long = "a string that is longer than the thirty bytes that the crate keeps inline";
    let de = Deserializer::new(&format!("\"{}\"", long)).unwrap();
    assert_eq!(de.lexemes, vec![Lexeme::Text(long.to_owned())]);
}

#[test]
fn a_text_that_is_no_document_gives_no_reader() {
    assert!(Deserializer::new("").is_none());
    assert!(Deserializer::new("[1,").is_none());
    assert!(Deserializer::new("[1,]").is_none());
    assert!(Deserializer::new("nul").is_none());
    assert!(Deserializer::new("{\"a\" 1}").is_none());
    assert!(Deserializer::new("1 2").is_none());
    assert!(Deserializer::new("null").is_some());
}

#[test]
fn scalars_are_read_from_a_document() {
    assert_eq!(read::<i32>("123"), Ok(123));
    assert_eq!(read::<i32>("-123"), Ok(-123));
    assert_eq!(read::<i32>("3000000000"), Err(DeserializeError::IncompatibleNumericType));
    assert_eq!(read::<u32>("3000000000"), Ok(3000000000));
    assert_eq!(read::<i32>("-456.21"), Ok(-456));
    assert_eq!(read::<i32>("1e3"), Ok(1000));
    assert_eq!(read::<i32>("25e-1"), Ok(2));
    assert_eq!(read::<u64>("18446744073709551615"), Ok(u64::MAX));
    assert_eq!(read::<i64>("-9223372036854775808"), Ok(i64::MIN));
    assert_eq!(read::<i64>("-9223372036854775809"), Err(DeserializeError::IncompatibleNumericType));
    assert_eq!(
        read::<Float>("-456.21"),
        Ok(Float::Decimal { negative: true, mantissa: 45621, exponent: -2 })
    );
    assert_eq!(
        read::<Float>("12"),
        Ok(Float::Decimal { negative: false, mantissa: 12, exponent: 0 })
    );
    assert_eq!(read::<bool>("true"), Ok(true));
    assert_eq!(read::<bool>("0"), Ok(false));
    assert_eq!(read::<()>("null"), Ok(()));
    assert_eq!(read::<Option<u8>>("null"), Ok(None));
    assert_eq!(read::<Option<u8>>("7"), Ok(Some(7)));
    assert_eq!(read::<String>("\"a\\\"b\\n\""), Ok("a\"b\n".to_owned()));
    assert_eq!(read::<String>("12"), Err(DeserializeError::UnimplementedVisit));
    assert_eq!(read::<Vec<i32>>("[1, 2, 4, 8]"), Ok(vec![1, 2, 4, 8]));
    assert_eq!(read::<Vec<Vec<u8>>>("[[], [1]]"), Ok(vec![vec![], vec![1]]));
    assert_eq!(read::<Vec<i32>>("{}"), Err(DeserializeError::UnimplementedVisit));
    assert_eq!(read::<Vec<i32>>("[1, \"x\"]"), Err(DeserializeError::UnimplementedVisit));
}

#[test]
fn an_enum_is_read_from_a_document() {
    let month = |text: &str| {
        let mut de = Deserializer::new(text).unwrap();
        deserialize_enum(&MONTHS, &mut de)
    };
    assert_eq!(month("\"10:October\""), Ok(0));
    assert_eq!(month("\"November\""), Ok(1));
    assert_eq!(month("11"), Ok(1));
    assert_eq!(month("12"), Err(DeserializeError::UnknownEnumVariant));
    assert_eq!(month("-11"), Err(DeserializeError::UnknownEnumVariant));
}

#[test]
fn the_members_of_an_object_come_with_split_keys() {
    let mut de = Deserializer::new("{\"12:name\": 1, \"plain\": 2, \"x:y\": 3}").unwrap();
    let mut cursor = Cursor::new(None);
    assert_eq!(de.next_member(&mut cursor), Err(DeserializeError::ParsingError));
    assert_eq!(de.deserialize(&mut Reject), Err(DeserializeError::UnimplementedVisit));
    let key = de.next_member(&mut cursor).unwrap().unwrap();
    assert_eq!((key.id, key.name), (Some(12), Some("name".to_owned())));
    assert_eq!(de.deserialize(&mut Reject), Err(DeserializeError::UnimplementedVisit));
    let key = de.next_member(&mut cursor).unwrap().unwrap();
    assert_eq!((key.id, key.name), (None, Some("plain".to_owned())));
    assert_eq!(de.deserialize(&mut Reject), Err(DeserializeError::UnimplementedVisit));
    let key = de.next_member(&mut cursor).unwrap().unwrap();
    assert_eq!((key.id, key.name), (None, Some("x:y".to_owned())));
    assert_eq!(u8::deserialize(&mut de), Ok(3));
    assert_eq!(de.deserialize(&mut Reject), Err(DeserializeError::ParsingError));
    assert_eq!(de.next_member(&mut cursor), Ok(None));
    assert_eq!(de.next_member(&mut cursor), Err(DeserializeError::UnexpectedEof));
    assert_eq!(de.deserialize(&mut Reject), Err(DeserializeError::UnexpectedEof));
}

#[test]
fn values_are_built_and_dumped() {
    assert_eq!(dump(&()), "null");
    assert_eq!(dump(&true), "true");
    assert_eq!(dump(&-5i8), "-5");
    assert_eq!(dump(&i64::MIN), "-9223372036854775808");
    assert_eq!(dump(&u64::MAX), "18446744073709551615");
    assert_eq!(dump(&"a\"b".to_owned()), "\"a\\\"b\"");
    assert_eq!(dump(&vec![1u8, 2]), "[1,2]");
    assert_eq!(dump(&vec![vec![Some(1u8), None], vec![]]), "[[1,null],[]]");
    assert_eq!(dump(&Float::Decimal { negative: true, mantissa: 45621, exponent: -2 }), "-456.21");
    assert_eq!(dump(&Float::Decimal { negative: false, mantissa: 2500, exponent: -3 }), "2.5");
    assert_eq!(dump(&Float::Decimal { negative: false, mantissa: 3, exponent: 2 }), "300");

    let mut writer = Serializer::new();
    assert_eq!(writer.write(), "null");
    assert_eq!(writer.serialize_float(Float::Double(0)), Err(SerializeError));
    serialize_enum(&MONTHS, 1, &mut writer).unwrap();
    assert_eq!(writer.write(), "\"11:November\"");
    assert_eq!(composite_key(7, "x:y"), "7:x:y");
}

#[test]
fn an_object_takes_its_members_under_composite_keys() {
    let mut writer = Serializer::new();
    writer.start_struct(3).unwrap();
    writer.start_struct_field(1, "day").unwrap();
    writer.serialize_unsigned(19).unwrap();
    writer.end_struct_field().unwrap();
    writer.start_struct_field(2, "tags").unwrap();
    writer.start_seq(2).unwrap();
    writer.start_seq_elmt().unwrap();
    writer.serialize_str("a").unwrap();
    writer.end_seq_elmt().unwrap();
    writer.start_seq_elmt().unwrap();
    writer.serialize_null().unwrap();
    writer.end_seq_elmt().unwrap();
    writer.end_seq().unwrap();
    writer.end_struct_field().unwrap();
    writer.start_struct_field(1, "day").unwrap();
    writer.serialize_unsigned(20).unwrap();
    writer.end_struct_field().unwrap();
    assert_eq!(writer.write(), "null");
    writer.end_struct().unwrap();
    assert_eq!(writer.write(), "{\"1:day\":20,\"2:tags\":[\"a\",null]}");
    assert_eq!(
        writer.write_pretty(2).unwrap(),
        "{\n  \"1:day\": 20,\n  \"2:tags\": [\n    \"a\",\n    null\n  ]\n}"
    );
    assert_eq!(
        writer.write_pretty(0).unwrap(),
        "{\n\"1:day\": 20,\n\"2:tags\": [\n\"a\",\nnull\n]\n}"
    );
    assert!(writer.write_pretty(32767).is_some());
    assert_eq!(writer.write_pretty(32768), None);
    assert_eq!(writer.write_pretty(40000), None);
}

#[test]
fn calls_that_do_not_nest_are_refused_or_passed_over() {
    let mut writer = Serializer::new();
    assert_eq!(writer.end_struct(), Err(SerializeError));
    assert_eq!(writer.end_seq(), Err(SerializeError));
    assert_eq!(writer.end_struct_field(), Err(SerializeError));
    writer.serialize_bool(true).unwrap();
    assert_eq!(writer.end_seq_elmt(), Ok(()));
    assert_eq!(writer.write(), "true");

    writer.start_seq(0).unwrap();
    writer.start_struct_field(1, "a").unwrap();
    assert_eq!(writer.end_struct_field(), Ok(()));
    writer.end_seq().unwrap();
    assert_eq!(writer.write(), "[]");

    writer.start_struct(0).unwrap();
    writer.serialize_bool(false).unwrap();
    assert_eq!(writer.end_seq_elmt(), Ok(()));
    writer.end_struct().unwrap();
    assert_eq!(writer.write(), "{}");
}

#[test]
fn what_is_dumped_is_read_back() {
    let nested = vec![vec![Some(-5i16), None], vec![], vec![Some(7)]];
    assert_eq!(read::<Vec<Vec<Option<i16>>>>(&dump(&nested)), Ok(nested));
    let text = "a \"quoted\" text\n".to_owned();
    assert_eq!(read::<String>(&dump(&text)), Ok(text));
    assert_eq!(read::<u64>(&dump(&u64::MAX)), Ok(u64::MAX));
    assert_eq!(read::<i64>(&dump(&i64::MIN)), Ok(i64::MIN));
    let fraction = Float::Decimal { negative: true, mantissa: 45621, exponent: -2 };
    assert_eq!(read::<Float>(&dump(&fraction)), Ok(fraction));
}

#[test]
fn a_fraction_too_long_for_the_parser_gives_no_reader() {
    let zeros = |count: usize| format!("0.{}", "0".repeat(count));
    assert!(has_short_fractions(&zeros(32767).chars().collect()));
    assert!(!has_short_fractions(&zeros(32768).chars().collect()));
    assert!(!has_short_fractions(&format!("[1,{}]", zeros(40000)).chars().collect()));
    assert!(has_short_fractions(&"0".repeat(40000).chars().collect()));
    assert!(has_short_fractions(&format!("{}.{}", "1".repeat(40000), "2".repeat(7)).chars().collect()));
    assert!(has_short_fractions(&"..".chars().collect()));
    assert!(Deserializer::new(&zeros(32767)).is_some());
    assert!(Deserializer::new(&zeros(32768)).is_none());
    assert!(Deserializer::new(&format!("[1, {}]", zeros(70000))).is_none());
    assert_eq!(read::<bool>(&zeros(300)), Ok(false));
}

#[test]
fn a_value_that_is_no_number_is_read_as_a_nan() {
    let value = json::JsonValue::Number(json::number::NAN);
    let de = Deserializer::of(&value);
    assert_eq!(
        de.lexemes,
        vec![Lexeme::Number { nan: true, positive: false, mantissa: 0, exponent: 0 }]
    );
    let mut de = Deserializer::of(&value);
    assert_eq!(Float::deserialize(&mut de), Ok(Float::Double(0x7ff8_0000_0000_0000)));
    let mut de = Deserializer::of(&value);
    assert_eq!(u8::deserialize(&mut de), Err(DeserializeError::IncompatibleNumericType));
    let mut de = Deserializer::of(&value);
    assert_eq!(bool::deserialize(&mut de), Ok(true));
}
