use macroserde::bindings::{deserialize_enum, serialize_enum, split_key, Entry, EnumPlace};
use macroserde::de::{Cursor, Deserialize, Deserializer, Place, Reject, SeqBuilder, Visitor};
use macroserde::error::{DeserializeError, SerializeError};
use macroserde::number::Float;
use macroserde::ser::{Serialize, Serializer};
use macroserde::text::{JsonDeserializer, JsonSerializer, PrettyJsonSerializer};

const MONTHS: [Entry; 3] = [
    Entry { id: 9, name: "September" },
    Entry { id: 10, name: "October" },
    Entry { id: 11, name: "November" },
];

fn read<T: Deserialize<JsonDeserializer>>(text: &str) -> Result<T, DeserializeError> {
    let mut de = JsonDeserializer::new(text);
    T::deserialize(&mut de)
}

fn write<T: Serialize>(value: &T) -> String {
    let mut writer = JsonSerializer::new();
    value.serialize(&mut writer).unwrap();
    writer.text()
}

fn month(text: &str) -> Result<usize, DeserializeError> {
    let mut de = JsonDeserializer::new(text);
    deserialize_enum(&MONTHS, &mut de)
}

fn chars(text: &str) -> Vec<char> {
    text.chars().collect()
}

#[test]
fn a_number_beyond_the_range_is_incompatible() {
    assert_eq!(read::<i32>("3000000000"), Err(DeserializeError::IncompatibleNumericType));
    assert_eq!(read::<u32>("3000000000"), Ok(3000000000));
    assert_eq!(read::<i32>("2147483647"), Ok(i32::MAX));
    assert_eq!(read::<i32>("2147483648"), Err(DeserializeError::IncompatibleNumericType));
    assert_eq!(read::<i32>("-2147483648"), Ok(i32::MIN));
    assert_eq!(read::<i32>("-2147483649"), Err(DeserializeError::IncompatibleNumericType));
    assert_eq!(read::<u8>("255"), Ok(255));
    assert_eq!(read::<u8>("256"), Err(DeserializeError::IncompatibleNumericType));
    assert_eq!(read::<u8>("-1"), Err(DeserializeError::IncompatibleNumericType));
    assert_eq!(read::<i8>("-128"), Ok(-128));
    assert_eq!(read::<i8>("128"), Err(DeserializeError::IncompatibleNumericType));
    assert_eq!(read::<i16>("-32768"), Ok(i16::MIN));
    assert_eq!(read::<u16>("65535"), Ok(u16::MAX));
    assert_eq!(read::<u16>("65536"), Err(DeserializeError::IncompatibleNumericType));
}

#[test]
fn the_sixty_four_bit_numbers_are_read_to_their_ends() {
    assert_eq!(read::<i64>("9223372036854775807"), Ok(i64::MAX));
    assert_eq!(read::<i64>("9223372036854775808"), Err(DeserializeError::IncompatibleNumericType));
    assert_eq!(read::<i64>("-9223372036854775808"), Ok(i64::MIN));
    assert_eq!(read::<i64>("-9223372036854775809"), Err(DeserializeError::IncompatibleNumericType));
    assert_eq!(read::<u64>("9223372036854775807"), Ok(9223372036854775807));
    assert_eq!(read::<u64>("18446744073709551615"), Ok(u64::MAX));
    assert_eq!(read::<u64>("18446744073709551616"), Err(DeserializeError::IncompatibleNumericType));
    assert_eq!(read::<u64>("5"), Ok(5));
    assert_eq!(read::<usize>("5"), Ok(5));
    assert_eq!(read::<isize>("-5"), Ok(-5));
    assert_eq!(read::<u64>("99999999999999999999999"), Err(DeserializeError::IncompatibleNumericType));
    assert_eq!(read::<bool>("99999999999999999999999"), Err(DeserializeError::IncompatibleNumericType));
    assert_eq!(read::<u64>("00000000000000000000000000012"), Ok(12));
}

#[test]
fn a_fraction_is_cut_off_toward_zero() {
    assert_eq!(read::<i32>("-456.21"), Ok(-456));
    assert_eq!(read::<i32>("456.99"), Ok(456));
    assert_eq!(read::<i32>("-0.99"), Ok(0));
    assert_eq!(read::<u32>("0.5"), Ok(0));
    assert_eq!(read::<u8>("255.0"), Ok(255));
    assert_eq!(read::<u8>("254.9"), Ok(254));
    assert_eq!(read::<u8>("255.9"), Err(DeserializeError::IncompatibleNumericType));
    assert_eq!(read::<u8>("256.0"), Err(DeserializeError::IncompatibleNumericType));
    assert_eq!(read::<u8>("-1.5"), Err(DeserializeError::IncompatibleNumericType));
    assert_eq!(read::<u8>("-0.5"), Err(DeserializeError::IncompatibleNumericType));
    assert_eq!(read::<u8>("-0.0"), Ok(0));
    assert_eq!(read::<i8>("-128.0"), Ok(-128));
    assert_eq!(read::<i8>("-128.5"), Err(DeserializeError::IncompatibleNumericType));
    assert_eq!(read::<i8>("127.000001"), Err(DeserializeError::IncompatibleNumericType));
    assert_eq!(
        read::<Float>("-456.21"),
        Ok(Float::Decimal { negative: true, mantissa: 45621, exponent: -2 })
    );
    assert_eq!(
        read::<Float>("0.005"),
        Ok(Float::Decimal { negative: false, mantissa: 5, exponent: -3 })
    );
    assert_eq!(
        read::<Float>("7"),
        Ok(Float::Decimal { negative: false, mantissa: 7, exponent: 0 })
    );
    assert_eq!(
        read::<Float>("-7"),
        Ok(Float::Decimal { negative: true, mantissa: 7, exponent: 0 })
    );
    assert_eq!(
        read::<Float>("true"),
        Ok(Float::Decimal { negative: false, mantissa: 1, exponent: 0 })
    );
    assert_eq!(
        read::<Float>("1.0"),
        Ok(Float::Decimal { negative: false, mantissa: 10, exponent: -1 })
    );
}

#[test]
fn digits_of_a_fraction_that_do_not_fit_are_dropped() {
    assert_eq!(
        read::<Float>("1.2345678901234567890123"),
        Ok(Float::Decimal { negative: false, mantissa: 12345678901234567890, exponent: -19 })
    );
    assert_eq!(read::<u8>("1.2345678901234567890123"), Ok(1));
    assert_eq!(read::<bool>("0.00000000000000000000000000001"), Ok(true));
    assert_eq!(read::<bool>("0.000"), Ok(false));
}

#[test]
fn a_number_needs_a_digit_before_and_behind_its_point() {
    let mut de = JsonDeserializer::new("12.");
    let mut place: Place<String> = Place::new();
    assert_eq!(de.deserialize(&mut place), Err(DeserializeError::ParsingError));
    assert_eq!(read::<i32>("12."), Err(DeserializeError::ParsingError));
    assert_eq!(read::<Float>("12.x"), Err(DeserializeError::ParsingError));
    assert_eq!(read::<i32>("-"), Err(DeserializeError::ParsingError));
    assert_eq!(read::<i32>("-.5"), Err(DeserializeError::ParsingError));
    assert_eq!(read::<i32>("-x"), Err(DeserializeError::ParsingError));
    assert_eq!(read::<i32>("-0"), Ok(0));
    assert_eq!(read::<i32>("12.0"), Ok(12));
}

#[test]
fn an_enum_is_named_by_number_or_by_name() {
    assert_eq!(month("\"10:October\""), Ok(1));
    assert_eq!(month("\"October\""), Ok(1));
    assert_eq!(month("10"), Ok(1));
    assert_eq!(month("\"10:whatever\""), Ok(1));
    assert_eq!(month("\"77:October\""), Ok(1));
    assert_eq!(month("\"x:November\""), Ok(2));
    assert_eq!(month("\"+9:x\""), Ok(0));
    assert_eq!(month("\"9\""), Err(DeserializeError::UnknownEnumVariant));
    assert_eq!(month("\"12:December\""), Err(DeserializeError::UnknownEnumVariant));
    assert_eq!(month("\"Brumaire\""), Err(DeserializeError::UnknownEnumVariant));
    assert_eq!(month("\"x:10\""), Err(DeserializeError::UnknownEnumVariant));
    assert_eq!(month("12"), Err(DeserializeError::UnknownEnumVariant));
    assert_eq!(month("-10"), Err(DeserializeError::UnknownEnumVariant));
    assert_eq!(month("18446744073709551615"), Err(DeserializeError::UnknownEnumVariant));
    assert_eq!(month("10.0"), Err(DeserializeError::UnimplementedVisit));
    assert_eq!(month("true"), Err(DeserializeError::UnimplementedVisit));
    assert_eq!(month("[10]"), Err(DeserializeError::UnimplementedVisit));
}

#[test]
fn an_enum_is_written_as_its_composite() {
    let mut writer = JsonSerializer::new();
    serialize_enum(&MONTHS, 1, &mut writer).unwrap();
    assert_eq!(writer.text(), "\"10:October\"");
    assert_eq!(month(&writer.text()), Ok(1));
    assert_eq!(serialize_enum(&MONTHS, 3, &mut writer), Err(SerializeError));

    let mut place = EnumPlace::new(&MONTHS);
    assert_eq!(place.visit_signed(11), Ok(()));
    assert_eq!(place.out, Some(2));
    assert_eq!(place.visit_str("9:x"), Ok(()));
    assert_eq!(place.out, Some(0));
    assert_eq!(place.visit_null(), Err(DeserializeError::UnimplementedVisit));
}

#[test]
fn a_comma_may_end_a_sequence() {
    assert_eq!(read::<Vec<i32>>("[1,2,4,8,]"), Ok(vec![1, 2, 4, 8]));
    assert_eq!(read::<Vec<i32>>("[1,2,4,8]"), Ok(vec![1, 2, 4, 8]));
    assert_eq!(read::<Vec<i32>>("[1,2,4,8,]"), read::<Vec<i32>>("[1,2,4,8]"));
    assert_eq!(read::<Vec<i32>>("[]"), Ok(vec![]));
    assert_eq!(read::<Vec<i32>>("[,]"), Err(DeserializeError::ParsingError));
    assert_eq!(read::<Vec<i32>>("[1,,]"), Err(DeserializeError::ParsingError));
    assert_eq!(read::<Vec<i32>>("[1 2]"), Err(DeserializeError::ParsingError));
    assert_eq!(read::<Vec<i32>>("[1;2]"), Err(DeserializeError::ParsingError));
    assert_eq!(read::<Vec<Vec<u8>>>("[[1,2,],[],[3]]"), Ok(vec![vec![1, 2], vec![], vec![3]]));
    assert_eq!(
        read::<Vec<Option<bool>>>("[true,null,0,]"),
        Ok(vec![Some(true), None, Some(false)])
    );
}

#[test]
fn the_blanks_of_the_pretty_writer_are_passed_over() {
    assert_eq!(read::<Vec<i32>>("[\n    1,\n    2,\n]"), Ok(vec![1, 2]));
    assert_eq!(read::<Vec<i32>>("[ 1 , 2 ]"), Ok(vec![1, 2]));
    assert_eq!(read::<Vec<i32>>("[\n]"), Ok(vec![]));
    assert_eq!(read::<i32>(" 1"), Err(DeserializeError::ParsingError));
    assert_eq!(read::<Vec<i32>>("[\t1]"), Err(DeserializeError::ParsingError));
}

#[test]
fn input_that_ends_early_is_an_end_of_input() {
    assert_eq!(read::<i32>(""), Err(DeserializeError::UnexpectedEof));
    assert_eq!(read::<String>("\"abc"), Err(DeserializeError::UnexpectedEof));
    assert_eq!(read::<Vec<i32>>("["), Err(DeserializeError::UnexpectedEof));
    assert_eq!(read::<Vec<i32>>("[1,"), Err(DeserializeError::UnexpectedEof));
    assert_eq!(read::<Vec<i32>>("[1"), Err(DeserializeError::ParsingError));
    assert_eq!(read::<Option<i32>>(""), Err(DeserializeError::UnexpectedEof));
}

#[test]
fn malformed_input_is_a_parsing_error() {
    assert_eq!(read::<i32>("@"), Err(DeserializeError::ParsingError));
    assert_eq!(read::<()>("nul"), Err(DeserializeError::ParsingError));
    assert_eq!(read::<()>("nullx"), Err(DeserializeError::ParsingError));
    assert_eq!(read::<()>("null7"), Err(DeserializeError::ParsingError));
    assert_eq!(read::<()>("nullé"), Err(DeserializeError::ParsingError));
    assert_eq!(read::<bool>("tru"), Err(DeserializeError::ParsingError));
    assert_eq!(read::<bool>("truely"), Err(DeserializeError::ParsingError));
    assert_eq!(read::<bool>("False"), Err(DeserializeError::ParsingError));
    assert_eq!(read::<Option<i32>>("nil"), Err(DeserializeError::ParsingError));
    assert_eq!(read::<()>("null"), Ok(()));
    assert_eq!(read::<()>("null,"), Ok(()));
    assert_eq!(read::<()>("null-"), Ok(()));
}

#[test]
fn a_token_of_a_kind_that_the_destination_does_not_take_is_unimplemented() {
    assert_eq!(read::<i32>("\"12\""), Err(DeserializeError::UnimplementedVisit));
    assert_eq!(read::<i32>("null"), Err(DeserializeError::UnimplementedVisit));
    assert_eq!(read::<i32>("[1]"), Err(DeserializeError::UnimplementedVisit));
    assert_eq!(read::<bool>("\"true\""), Err(DeserializeError::UnimplementedVisit));
    assert_eq!(read::<String>("12"), Err(DeserializeError::UnimplementedVisit));
    assert_eq!(read::<String>("true"), Err(DeserializeError::UnimplementedVisit));
    assert_eq!(read::<()>("0"), Err(DeserializeError::UnimplementedVisit));
    assert_eq!(read::<Vec<i32>>("12"), Err(DeserializeError::UnimplementedVisit));
    assert_eq!(read::<Vec<i32>>("{}"), Err(DeserializeError::UnimplementedVisit));
    assert_eq!(read::<Float>("\"1.5\""), Err(DeserializeError::UnimplementedVisit));
    assert_eq!(read::<i32>("true"), Ok(1));
    assert_eq!(read::<u8>("false"), Ok(0));

    let mut de = JsonDeserializer::new("12");
    assert_eq!(de.deserialize(&mut Reject), Err(DeserializeError::UnimplementedVisit));
    let mut de = JsonDeserializer::new("nul");
    assert_eq!(de.deserialize(&mut Reject), Err(DeserializeError::ParsingError));
}

#[test]
fn a_slot_is_filled_by_the_token_that_its_type_takes() {
    let mut place: Place<i16> = Place::new();
    assert_eq!(place.out, None);
    assert_eq!(place.visit_unsigned(40000), Err(DeserializeError::IncompatibleNumericType));
    assert_eq!(place.out, None);
    assert_eq!(place.visit_signed(-7), Ok(()));
    assert_eq!(place.out, Some(-7));
    assert_eq!(place.visit_bool(true), Ok(()));
    assert_eq!(place.out, Some(1));
    assert_eq!(place.visit_str("x"), Err(DeserializeError::UnimplementedVisit));
    assert_eq!(place.visit_seq(None), Err(DeserializeError::UnimplementedVisit));
    assert_eq!(place.visit_struct(None), Err(DeserializeError::UnimplementedVisit));
    assert_eq!(place.out, Some(1));

    let mut place: Place<String> = Place::new();
    assert_eq!(place.visit_str("hello"), Ok(()));
    assert_eq!(place.out, Some("hello".to_owned()));

    let mut place: Place<bool> = Place::new();
    assert_eq!(place.visit_float(Float::Double(0x8000_0000_0000_0000)), Ok(()));
    assert_eq!(place.out, Some(false));
    assert_eq!(place.visit_float(Float::Single(1)), Ok(()));
    assert_eq!(place.out, Some(true));

    let mut builder: SeqBuilder<u8> = SeqBuilder::new();
    assert_eq!(builder.visit_null(), Err(DeserializeError::UnimplementedVisit));
    assert_eq!(builder.visit_seq(Some(2)), Ok(()));
    assert_eq!(builder.cursor, Some(Cursor { first: true, left: Some(2) }));
    builder.element(4);
    builder.element(5);
    assert_eq!(builder.finish(), Ok(vec![4, 5]));
    let builder: SeqBuilder<u8> = SeqBuilder::new();
    assert_eq!(builder.finish(), Err(DeserializeError::UnknownError));
}

#[test]
fn the_slot_of_an_optional_value_hands_tokens_on() {
    let mut place: Place<Option<u8>> = Place::new();
    assert_eq!(place.visit_null(), Ok(()));
    assert_eq!(place.out, Some(None));
    assert_eq!(place.visit_unsigned(300), Err(DeserializeError::IncompatibleNumericType));
    assert_eq!(place.out, Some(None));
    assert_eq!(place.visit_signed(7), Ok(()));
    assert_eq!(place.out, Some(Some(7)));
    assert_eq!(place.visit_bool(false), Ok(()));
    assert_eq!(place.out, Some(Some(0)));
    assert_eq!(place.visit_float(Float::Double(2.5f64.to_bits())), Ok(()));
    assert_eq!(place.out, Some(Some(2)));
    assert_eq!(place.visit_str("x"), Err(DeserializeError::UnimplementedVisit));
    assert_eq!(place.visit_seq(None), Err(DeserializeError::UnimplementedVisit));
    assert_eq!(place.visit_struct(Some(1)), Err(DeserializeError::UnimplementedVisit));
    assert_eq!(place.out, Some(Some(2)));

    let mut place: Place<Option<Option<String>>> = Place::new();
    assert_eq!(place.visit_str("x"), Ok(()));
    assert_eq!(place.out, Some(Some(Some("x".to_owned()))));
    assert_eq!(place.visit_null(), Ok(()));
    assert_eq!(place.out, Some(None));

    let mut de = JsonDeserializer::new("12");
    let mut place: Place<Option<i64>> = Place::new();
    assert_eq!(de.deserialize(&mut place), Ok(()));
    assert_eq!(place.out, Some(Some(12)));
}

#[test]
fn strings_are_taken_from_between_quotes() {
    assert_eq!(read::<String>("\"hello world :)\""), Ok("hello world :)".to_owned()));
    assert_eq!(read::<String>("\"\""), Ok(String::new()));
    assert_eq!(read::<String>("\"a\\\"b\""), Ok("a\"b".to_owned()));
    assert_eq!(read::<String>("\"a\\\\b\""), Ok("a\\b".to_owned()));
    assert_eq!(read::<String>("\"\\\\\""), Ok("\\".to_owned()));
    assert_eq!(read::<String>("\"\\\"\""), Ok("\"".to_owned()));
    assert_eq!(read::<String>("\"a\\nb\""), Err(DeserializeError::ParsingError));
    assert_eq!(read::<String>("\"a\\"), Err(DeserializeError::UnexpectedEof));
    assert_eq!(read::<String>("\"a\\\""), Err(DeserializeError::UnexpectedEof));
    assert_eq!(read::<String>("\"a"), Err(DeserializeError::UnexpectedEof));
    assert_eq!(write(&"a\"b".to_owned()), "\"a\\\"b\"");
    assert_eq!(write(&"a\\b".to_owned()), "\"a\\\\b\"");
    assert_eq!(write(&"\\\"".to_owned()), "\"\\\\\\\"\"");
    assert_eq!(read::<String>("\"héllo ✓\""), Ok("héllo ✓".to_owned()));
    assert_eq!(write(&"héllo ✓".to_owned()), "\"héllo ✓\"");
    assert_eq!(read::<Option<String>>("\"null\""), Ok(Some("null".to_owned())));
}

#[test]
fn the_reader_steps_through_its_input() {
    let mut de = JsonDeserializer::new("nu");
    assert_eq!(de.peek_char(), Some('n'));
    assert_eq!(de.pos, 0);
    assert_eq!(de.next_char(), Some('n'));
    assert_eq!(de.next_char(), Some('u'));
    assert_eq!(de.peek_char(), None);
    assert_eq!(de.next_char(), None);
    assert_eq!(de.pos, 2);

    let mut de = JsonDeserializer::new("null,");
    assert!(de.check_keywork("null"));
    assert_eq!(de.pos, 4);
    let mut de = JsonDeserializer::new("null");
    assert!(de.check_keywork("null"));
    let mut de = JsonDeserializer::new("nulla");
    assert!(!de.check_keywork("null"));
    let mut de = JsonDeserializer::new("nul");
    assert!(!de.check_keywork("null"));
    let mut de = JsonDeserializer::new("true");
    assert!(!de.check_keywork("null"));
    let mut de = JsonDeserializer::new("nullЖ");
    assert!(!de.check_keywork("null"));
    let mut de = JsonDeserializer::new("null ");
    assert!(de.check_keywork("null"));
}

#[test]
fn the_reader_takes_a_null_only() {
    let mut de = JsonDeserializer::new("null,1");
    assert!(de.take_null());
    assert_eq!(de.pos, 4);
    let mut de = JsonDeserializer::new("nul");
    assert!(!de.take_null());
    assert_eq!(de.pos, 0);
    let mut de = JsonDeserializer::new("12");
    assert!(!de.take_null());
    assert_eq!(de.pos, 0);
    let mut de = JsonDeserializer::new("");
    assert!(!de.take_null());
}

#[test]
fn composite_keys_are_split_at_the_first_colon() {
    assert_eq!(split_key(&chars("12:name")), (Some(12), chars("name")));
    assert_eq!(split_key(&chars("name")), (None, chars("name")));
    assert_eq!(split_key(&chars("12:a:b")), (Some(12), chars("a:b")));
    assert_eq!(split_key(&chars("+5:x")), (Some(5), chars("x")));
    assert_eq!(split_key(&chars("a:b")), (None, chars("a:b")));
    assert_eq!(split_key(&chars(":x")), (None, chars(":x")));
    assert_eq!(split_key(&chars("-1:x")), (None, chars("-1:x")));
    assert_eq!(split_key(&chars("1 :x")), (None, chars("1 :x")));
    assert_eq!(split_key(&chars("4294967295:x")), (Some(u32::MAX), chars("x")));
    assert_eq!(split_key(&chars("4294967296:x")), (None, chars("4294967296:x")));
    assert_eq!(split_key(&chars("0012:")), (Some(12), chars("")));
    assert_eq!(split_key(&chars("")), (None, chars("")));
}

#[test]
fn scalars_are_written_compactly() {
    assert_eq!(write(&()), "null");
    assert_eq!(write(&true), "true");
    assert_eq!(write(&false), "false");
    assert_eq!(write(&0u8), "0");
    assert_eq!(write(&-1i8), "-1");
    assert_eq!(write(&i64::MIN), "-9223372036854775808");
    assert_eq!(write(&i64::MAX), "9223372036854775807");
    assert_eq!(write(&u64::MAX), "18446744073709551615");
    assert_eq!(write(&1000000u32), "1000000");
    assert_eq!(write(&"a b".to_owned()), "\"a b\"");
    assert_eq!(write(&Some(5u16)), "5");
    assert_eq!(write(&None::<u16>), "null");
    assert_eq!(write(&vec![1u8, 2, 4, 8]), "[1,2,4,8,]");
    assert_eq!(write(&Vec::<u8>::new()), "[]");
    assert_eq!(write(&vec![Some(1i32), None]), "[1,null,]");
}

#[test]
fn decimal_literals_are_written_digit_for_digit() {
    let cases = [
        (Float::Decimal { negative: true, mantissa: 45621, exponent: -2 }, "-456.21"),
        (Float::Decimal { negative: false, mantissa: 21, exponent: -2 }, "0.21"),
        (Float::Decimal { negative: false, mantissa: 5, exponent: -3 }, "0.005"),
        (Float::Decimal { negative: false, mantissa: 5, exponent: 2 }, "500"),
        (Float::Decimal { negative: false, mantissa: 5, exponent: 0 }, "5"),
        (Float::Decimal { negative: false, mantissa: 0, exponent: -1 }, "0.0"),
        (Float::Decimal { negative: true, mantissa: 10, exponent: -1 }, "-1.0"),
    ];
    for (value, text) in cases {
        assert_eq!(write(&value), text);
    }
    let mut writer = JsonSerializer::new();
    assert_eq!(writer.serialize_float(Float::Double(0)), Err(SerializeError));
    assert_eq!(writer.serialize_float(Float::Single(0)), Err(SerializeError));
    let mut writer = PrettyJsonSerializer::new();
    assert_eq!(writer.serialize_float(Float::Double(0)), Err(SerializeError));
}

#[test]
fn what_the_compact_writer_writes_is_read_back() {
    assert_eq!(read::<i64>(&write(&i64::MIN)), Ok(i64::MIN));
    assert_eq!(read::<i64>(&write(&i64::MAX)), Ok(i64::MAX));
    assert_eq!(read::<u64>(&write(&u64::MAX)), Ok(u64::MAX));
    assert_eq!(read::<u8>(&write(&0u8)), Ok(0));
    assert_eq!(read::<bool>(&write(&true)), Ok(true));
    assert_eq!(read::<()>(&write(&())), Ok(()));
    let text = "no quote in here: ,]}[{".to_owned();
    assert_eq!(read::<String>(&write(&text)), Ok(text));
    for text in ["a\"b", "\"", "\\", "\\\"", "\"\\", "say \"hi\\there\", twice\\\\", "\\n"] {
        assert_eq!(read::<String>(&write(&text.to_owned())), Ok(text.to_owned()), "{}", text);
        let texts = vec![text.to_owned(), "x".to_owned(), text.to_owned()];
        assert_eq!(read::<Vec<String>>(&write(&texts)), Ok(texts));
    }
    let nested = vec![vec![Some(-5i16), None], vec![], vec![Some(7)]];
    assert_eq!(read::<Vec<Vec<Option<i16>>>>(&write(&nested)), Ok(nested));
    let texts = vec!["a".to_owned(), String::new()];
    assert_eq!(read::<Vec<String>>(&write(&texts)), Ok(texts));
    let fraction = Float::Decimal { negative: true, mantissa: 45621, exponent: -2 };
    assert_eq!(read::<Float>(&write(&fraction)), Ok(fraction));
}

#[test]
fn what_the_format_cannot_tell_apart_is_not_read_back() {
    assert_eq!(read::<Option<()>>(&write(&Some(()))), Ok(None));
    assert_eq!(read::<Option<Option<u8>>>(&write(&Some(None::<u8>))), Ok(None));
    assert_eq!(
        read::<Float>(&write(&Float::Decimal { negative: false, mantissa: 5, exponent: 2 })),
        Ok(Float::Decimal { negative: false, mantissa: 500, exponent: 0 })
    );
    assert_eq!(
        read::<Float>(&write(&Float::Decimal { negative: true, mantissa: 0, exponent: 0 })),
        Ok(Float::Decimal { negative: false, mantissa: 0, exponent: 0 })
    );
    for sound in [
        Float::Decimal { negative: true, mantissa: 0, exponent: -1 },
        Float::Decimal { negative: false, mantissa: u64::MAX, exponent: -1 },
        Float::Decimal { negative: false, mantissa: u64::MAX, exponent: -25 },
        Float::Decimal { negative: false, mantissa: u64::MAX, exponent: 0 },
        Float::Decimal { negative: true, mantissa: 1 << 63, exponent: 0 },
        Float::Decimal { negative: true, mantissa: 120, exponent: -3 },
    ] {
        assert_eq!(read::<Float>(&write(&sound)), Ok(sound));
        assert_eq!(read::<Vec<Float>>(&write(&vec![sound, sound])), Ok(vec![sound, sound]));
    }
}

#[test]
fn the_pretty_writer_indents_by_four_spaces() {
    let mut writer = PrettyJsonSerializer::new();
    assert_eq!(writer.print_indent(), Ok(()));
    assert_eq!(writer.text(), "");
    writer.indent_level = 2;
    assert_eq!(writer.print_indent(), Ok(()));
    assert_eq!(writer.text(), "        ");
    assert_eq!(writer.indent_level, 2);

    let mut writer = PrettyJsonSerializer::new();
    vec![1u8, 2].serialize(&mut writer).unwrap();
    assert_eq!(writer.text(), "[\n    1,\n    2,\n]");

    let mut writer = PrettyJsonSerializer::new();
    assert_eq!(writer.end_seq(), Err(SerializeError));
    assert_eq!(writer.end_struct(), Err(SerializeError));
    writer.indent_level = usize::MAX;
    assert_eq!(writer.start_seq(0), Err(SerializeError));
    assert_eq!(writer.start_struct(0), Err(SerializeError));
}
