use macroserde::de::{Deserialize, Place, Visitor};
use macroserde::error::{DeserializeError, SerializeError};
use macroserde::json;
use macroserde::msgpack;
use macroserde::number::{Float, SingleFloat, SINGLE_MAX};
use macroserde::ser::Serialize;
use macroserde::text::{JsonDeserializer, JsonSerializer};

fn decimal(negative: bool, mantissa: u64, exponent: i16) -> Float {
    Float::Decimal { negative, mantissa, exponent }
}

#[test]
fn a_single_precision_slot_refuses_a_number_beyond_its_range() {
    let mut place: Place<SingleFloat> = Place::new();
    assert_eq!(
        place.visit_float(Float::Double(1e300f64.to_bits())),
        Err(DeserializeError::IncompatibleNumericType)
    );
    assert_eq!(place.out, None);
    assert_eq!(
        place.visit_float(Float::Double((-1e300f64).to_bits())),
        Err(DeserializeError::IncompatibleNumericType)
    );
    assert_eq!(place.out, None);
    assert_eq!(place.visit_float(decimal(false, 1, 39)), Err(DeserializeError::IncompatibleNumericType));
    assert_eq!(place.out, None);
    let greatest = Float::Double((f32::MAX as f64).to_bits());
    assert_eq!(place.visit_float(greatest), Ok(()));
    assert_eq!(place.out, Some(SingleFloat { value: greatest }));
}

#[test]
fn a_single_precision_slot_takes_what_a_float_slot_takes_within_its_range() {
    let mut place: Place<SingleFloat> = Place::new();
    assert_eq!(place.visit_signed(-3), Ok(()));
    assert_eq!(place.out, Some(SingleFloat { value: decimal(true, 3, 0) }));
    assert_eq!(place.visit_unsigned(u64::MAX), Ok(()));
    assert_eq!(place.out, Some(SingleFloat { value: decimal(false, u64::MAX, 0) }));
    assert_eq!(place.visit_bool(true), Ok(()));
    assert_eq!(place.out, Some(SingleFloat { value: decimal(false, 1, 0) }));
    let mut place: Place<SingleFloat> = Place::new();
    assert_eq!(place.visit_null(), Err(DeserializeError::UnimplementedVisit));
    assert_eq!(place.visit_str("1.5"), Err(DeserializeError::UnimplementedVisit));
    assert_eq!(place.visit_seq(None), Err(DeserializeError::UnimplementedVisit));
    assert_eq!(place.visit_struct(None), Err(DeserializeError::UnimplementedVisit));
    assert_eq!(place.out, None);
}

#[test]
fn the_range_of_single_precision_ends_at_its_greatest_number() {
    assert_eq!(SINGLE_MAX, 340282346638528859811704183484516925440);
    let greatest = (f32::MAX as f64).to_bits();
    assert!(Float::Double(greatest).fits_single());
    assert!(Float::Double(greatest | 1 << 63).fits_single());
    assert!(!Float::Double(greatest + 1).fits_single());
    assert!(!Float::Double((greatest + 1) | 1 << 63).fits_single());
    let doubles = [
        0.0f64, -0.0, 1.5, 1e38, 3.4e38, 3.5e38, -3.5e38, 1e39, 1e300, f64::MAX, f64::MIN_POSITIVE,
        5e-324, 3.4028234663852886e38, 3.402823466385289e38, 3.4028235677973366e38,
    ];
    for value in doubles {
        let expected = value.abs() <= f32::MAX as f64;
        assert_eq!(Float::Double(value.to_bits()).fits_single(), expected, "{}", value);
    }
    for value in [f64::INFINITY, f64::NEG_INFINITY, f64::NAN] {
        assert!(Float::Double(value.to_bits()).fits_single());
    }
    for bits in [0u32, 1, 0x7f7f_ffff, 0xff7f_ffff, 0x7f80_0000, 0x7fc0_0000, 0x8000_0000] {
        assert!(Float::Single(bits).fits_single());
    }
    assert!(decimal(false, 0, i16::MAX).fits_single());
    assert!(decimal(true, u64::MAX, 0).fits_single());
    assert!(decimal(true, u64::MAX, -5).fits_single());
    assert!(decimal(false, u64::MAX, 19).fits_single());
    assert!(!decimal(false, u64::MAX, 20).fits_single());
    assert!(decimal(false, 1, 38).fits_single());
    assert!(decimal(false, 3, 38).fits_single());
    assert!(!decimal(false, 4, 38).fits_single());
    assert!(!decimal(true, 1, 39).fits_single());
    assert!(!decimal(false, 1, i16::MAX).fits_single());
    assert!(decimal(false, 3402823466385288598, 20).fits_single());
    assert!(!decimal(false, 3402823466385288599, 20).fits_single());
    assert!(decimal(false, 34028234663852885, 22).fits_single());
    assert!(!decimal(false, 34028234663852886, 22).fits_single());
}

#[test]
fn a_number_is_whole_where_it_has_no_fraction() {
    let doubles = [
        0.0f64, -0.0, 0.5, -0.5, 1.0, 1.5, 255.0, 255.9, 256.0, 4503599627370496.0,
        4503599627370495.5, 9007199254740993.0, 1e300, 1e-300, f64::MAX, f64::MIN_POSITIVE, 5e-324,
        -456.21, 0.1, 3.0,
    ];
    for value in doubles {
        assert_eq!(Float::Double(value.to_bits()).whole(), value.fract() == 0.0, "{}", value);
        let single = value as f32;
        if single.is_finite() {
            assert_eq!(Float::Single(single.to_bits()).whole(), single.fract() == 0.0, "{}", single);
        }
    }
    assert!(decimal(false, 0, 0).whole());
    assert!(decimal(true, 0, -7).whole());
    assert!(decimal(false, 5, 3).whole());
    assert!(decimal(false, 50, -1).whole());
    assert!(!decimal(false, 5, -1).whole());
    assert!(decimal(true, 1200, -2).whole());
    assert!(!decimal(true, 1210, -2).whole());
    assert!(!decimal(false, 1, -300).whole());
    assert!(!decimal(false, u64::MAX, i16::MIN).whole());
    assert!(decimal(false, 10000000000000000000, -19).whole());
    assert!(!decimal(false, 10000000000000000000, -20).whole());
}

#[test]
fn a_single_precision_number_is_read_from_both_formats() {
    let mut bytes = vec![0xcb];
    bytes.extend_from_slice(&1e300f64.to_bits().to_be_bytes());
    let mut de = msgpack::Deserializer::new(bytes);
    assert_eq!(SingleFloat::deserialize(&mut de), Err(DeserializeError::IncompatibleNumericType));
    let mut bytes = vec![0xcb];
    bytes.extend_from_slice(&0.1f64.to_bits().to_be_bytes());
    let mut de = msgpack::Deserializer::new(bytes);
    assert_eq!(
        SingleFloat::deserialize(&mut de),
        Ok(SingleFloat { value: Float::Double(0.1f64.to_bits()) })
    );
    let mut de = JsonDeserializer::new("-456.21");
    assert_eq!(SingleFloat::deserialize(&mut de), Ok(SingleFloat { value: decimal(true, 45621, -2) }));
    let mut de = JsonDeserializer::new("\"x\"");
    assert_eq!(SingleFloat::deserialize(&mut de), Err(DeserializeError::UnimplementedVisit));
    let mut de = json::Deserializer::new("1e39").unwrap();
    assert_eq!(SingleFloat::deserialize(&mut de), Err(DeserializeError::IncompatibleNumericType));
    let mut de = json::Deserializer::new("1e38").unwrap();
    assert_eq!(SingleFloat::deserialize(&mut de), Ok(SingleFloat { value: decimal(false, 1, 38) }));
}

#[test]
fn a_single_precision_number_is_written_as_the_number_it_holds() {
    assert_eq!(SingleFloat::new(Float::Double(1e300f64.to_bits())), None);
    let single = SingleFloat::new(Float::Double(1.5f64.to_bits())).unwrap();
    let mut writer = msgpack::Serializer::new();
    assert_eq!(single.serialize(&mut writer), Ok(()));
    assert_eq!(writer.buffer, vec![0xca, 0x3f, 0xc0, 0, 0]);
    let mut de = msgpack::Deserializer::new(writer.buffer);
    assert_eq!(
        SingleFloat::deserialize(&mut de),
        Ok(SingleFloat { value: Float::Single(1.5f32.to_bits()) })
    );
    let single = SingleFloat::new(decimal(true, 0, 0)).unwrap();
    let mut writer = JsonSerializer::new();
    assert_eq!(single.serialize(&mut writer), Ok(()));
    assert_eq!(writer.text(), "-0");
    let mut de = JsonDeserializer::new("-0");
    assert_eq!(SingleFloat::deserialize(&mut de), Ok(SingleFloat { value: decimal(false, 0, 0) }));
}

#[test]
fn a_vector_stops_at_the_first_call_that_the_sink_refuses() {
    let values = vec![
        Float::Single(1.5f32.to_bits()),
        decimal(false, 15, -1),
        Float::Single(2.5f32.to_bits()),
    ];
    let mut writer = msgpack::Serializer::new();
    assert_eq!(values.serialize(&mut writer), Err(SerializeError));
    assert_eq!(writer.buffer, vec![0x93, 0xca, 0x3f, 0xc0, 0, 0]);
    let values = vec![decimal(false, 15, -1), Float::Single(1.5f32.to_bits()), decimal(false, 7, 0)];
    let mut writer = JsonSerializer::new();
    assert_eq!(values.serialize(&mut writer), Err(SerializeError));
    assert_eq!(writer.text(), "[1.5,");
}

fn written<T: Serialize>(value: &T) -> String {
    let mut writer = JsonSerializer::new();
    value.serialize(&mut writer).unwrap();
    writer.text()
}

fn read_back<T: Deserialize<JsonDeserializer>>(text: &str) -> (Result<T, DeserializeError>, usize) {
    let mut de = JsonDeserializer::new(text);
    let value = T::deserialize(&mut de);
    (value, de.pos)
}

#[test]
fn a_sequence_reads_the_same_without_the_comma_behind_its_last_element() {
    let numbers = vec![1u8, 2, 4, 8];
    let text = written(&numbers);
    assert_eq!(text, "[1,2,4,8,]");
    let plain = format!("{}]", &text[..text.len() - 2]);
    assert_eq!(plain, "[1,2,4,8]");
    assert_eq!(read_back::<Vec<u8>>(&text), (Ok(numbers.clone()), 10));
    assert_eq!(read_back::<Vec<u8>>(&plain), (Ok(numbers), 9));

    let texts = vec!["a,]".to_owned(), "\"".to_owned(), "\\".to_owned()];
    let text = written(&texts);
    let plain = format!("{}]", &text[..text.len() - 2]);
    assert_eq!(read_back::<Vec<String>>(&text).0, Ok(texts.clone()));
    assert_eq!(read_back::<Vec<String>>(&plain), (Ok(texts), text.chars().count() - 1));

    let nested = vec![vec![Some(-5i16), None], vec![], vec![Some(7)]];
    let text = written(&nested);
    assert_eq!(text, "[[-5,null,],[],[7,],]");
    assert_eq!(read_back::<Vec<Vec<Option<i16>>>>(&text).0, Ok(nested.clone()));
    assert_eq!(read_back::<Vec<Vec<Option<i16>>>>("[[-5,null,],[],[7,]]").0, Ok(nested.clone()));
    assert_eq!(read_back::<Vec<Vec<Option<i16>>>>("[[-5,null],[],[7]]").0, Ok(nested));

    let floats = vec![decimal(true, 45621, -2), decimal(false, 7, 0)];
    let text = written(&floats);
    assert_eq!(text, "[-456.21,7,]");
    assert_eq!(read_back::<Vec<Float>>("[-456.21,7]").0, Ok(floats.clone()));
    assert_eq!(read_back::<Vec<Float>>(&text).0, Ok(floats));
    assert_eq!(read_back::<Vec<u8>>("[1,,]").0, Err(DeserializeError::ParsingError));
}

#[test]
fn a_literal_without_a_fraction_comes_back_without_an_exponent() {
    assert_eq!(written(&decimal(false, 15, 2)), "1500");
    assert_eq!(read_back::<Float>("1500").0, Ok(decimal(false, 1500, 0)));
    assert_eq!(written(&decimal(true, 92, 17)), "-9200000000000000000");
    assert_eq!(read_back::<Float>("-9200000000000000000").0, Ok(decimal(true, 9200000000000000000, 0)));
    assert_eq!(written(&decimal(true, 93, 17)), "-9300000000000000000");
    assert_eq!(
        read_back::<Float>("-9300000000000000000").0,
        Err(DeserializeError::IncompatibleNumericType)
    );
    assert_eq!(written(&decimal(false, 18446744073709551615, 0)), "18446744073709551615");
    assert_eq!(read_back::<Float>("18446744073709551615").0, Ok(decimal(false, u64::MAX, 0)));
    assert_eq!(written(&decimal(true, 0, 0)), "-0");
    assert_eq!(read_back::<Float>("-0").0, Ok(decimal(false, 0, 0)));
    assert_eq!(read_back::<Float>("-0.0").0, Ok(decimal(true, 0, -1)));
}
