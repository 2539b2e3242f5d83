use macroserde::bindings::{deserialize_enum, Entry};
use macroserde::de::Deserialize;
use macroserde::error::DeserializeError;
use macroserde::number::Float;
use macroserde::ser::Serializer;
use macroserde::text::{JsonDeserializer, JsonSerializer};

#[derive(Debug, PartialEq, Clone, Copy)]
enum Month {
    January,
    February,
    March,
    April,
    May,
    June,
    July,
    August,
    September,
    October,
    November,
    December,
}

const MONTHS: [Entry; 12] = [
    Entry { id: 1, name: "January" },
    Entry { id: 2, name: "February" },
    Entry { id: 3, name: "March" },
    Entry { id: 4, name: "April" },
    Entry { id: 5, name: "May" },
    Entry { id: 6, name: "June" },
    Entry { id: 7, name: "July" },
    Entry { id: 8, name: "August" },
    Entry { id: 9, name: "September" },
    Entry { id: 10, name: "October" },
    Entry { id: 11, name: "November" },
    Entry { id: 12, name: "December" },
];

const VARIANTS: [Month; 12] = [
    Month::January,
    Month::February,
    Month::March,
    Month::April,
    Month::May,
    Month::June,
    Month::July,
    Month::August,
    Month::September,
    Month::October,
    Month::November,
    Month::December,
];

fn month(de: &mut JsonDeserializer) -> Result<Month, DeserializeError> {
    deserialize_enum(&MONTHS, de).map(|index| VARIANTS[index])
}

fn single(value: Result<Float, DeserializeError>) -> Result<f32, DeserializeError> {
    value.map(|value| match value {
        Float::Single(bits) => f32::from_bits(bits),
        Float::Double(bits) => f64::from_bits(bits) as f32,
        Float::Decimal { .. } => {
            let mut writer = JsonSerializer::new();
            writer.serialize_float(value).unwrap();
            writer.text().parse().unwrap()
        }
    })
}

#[test]
fn de() {
    let mut de = JsonDeserializer::new("123");
    assert_eq!(i32::deserialize(&mut de), Ok(123));

    let mut de = JsonDeserializer::new("-123");
    assert_eq!(i32::deserialize(&mut de), Ok(-123));

    let mut de = JsonDeserializer::new("0");
    assert_eq!(i32::deserialize(&mut de), Ok(0));

    let mut de = JsonDeserializer::new("3000000000");
    assert_eq!(
        i32::deserialize(&mut de),
        Err(DeserializeError::IncompatibleNumericType)
    );

    let mut de = JsonDeserializer::new("-456.21");
    assert_eq!(i32::deserialize(&mut de), Ok(-456));

    let mut de = JsonDeserializer::new("123");
    assert_eq!(u32::deserialize(&mut de), Ok(123));

    let mut de = JsonDeserializer::new("-123");
    assert!(u32::deserialize(&mut de).is_err());

    let mut de = JsonDeserializer::new("0");
    assert_eq!(u32::deserialize(&mut de), Ok(0));

    let mut de = JsonDeserializer::new("3000000000");
    assert_eq!(u32::deserialize(&mut de), Ok(3000000000));

    let mut de = JsonDeserializer::new("456.21");
    assert_eq!(u32::deserialize(&mut de), Ok(456));

    let mut de = JsonDeserializer::new("456.21");
    assert_eq!(single(Float::deserialize(&mut de)), Ok(456.21));

    let mut de = JsonDeserializer::new("-456.21");
    assert_eq!(single(Float::deserialize(&mut de)), Ok(-456.21));

    let mut de = JsonDeserializer::new("0.21");
    assert_eq!(single(Float::deserialize(&mut de)), Ok(0.21));

    let mut de = JsonDeserializer::new("-0.21");
    assert_eq!(single(Float::deserialize(&mut de)), Ok(-0.21));

    let mut de = JsonDeserializer::new("123");
    assert_eq!(single(Float::deserialize(&mut de)), Ok(123.0));

    let mut de = JsonDeserializer::new("-123");
    assert_eq!(single(Float::deserialize(&mut de)), Ok(-123.0));

    let mut de = JsonDeserializer::new("87");
    assert_eq!(Option::<i32>::deserialize(&mut de), Ok(Some(87)));

    let mut de = JsonDeserializer::new("null");
    assert_eq!(Option::<i32>::deserialize(&mut de), Ok(None));

    let mut de = JsonDeserializer::new("84");
    assert_eq!(bool::deserialize(&mut de), Ok(true));

    let mut de = JsonDeserializer::new("0");
    assert_eq!(bool::deserialize(&mut de), Ok(false));

    let mut de = JsonDeserializer::new("true");
    assert_eq!(bool::deserialize(&mut de), Ok(true));

    let mut de = JsonDeserializer::new("false");
    assert_eq!(bool::deserialize(&mut de), Ok(false));

    let mut de = JsonDeserializer::new("\"hello world :)\"");
    assert!(matches!(String::deserialize(&mut de), Ok(ref s) if s == "hello world :)"));

    let mut de = JsonDeserializer::new("\"\"");
    assert!(matches!(String::deserialize(&mut de), Ok(ref s) if s == ""));

    let mut de = JsonDeserializer::new("\"10:October\"");
    assert!(matches!(month(&mut de), Ok(Month::October)));

    let mut de = JsonDeserializer::new("\"October\"");
    assert!(matches!(month(&mut de), Ok(Month::October)));

    let mut de = JsonDeserializer::new("10");
    assert!(matches!(month(&mut de), Ok(Month::October)));

    let mut de = JsonDeserializer::new("[1,2,4,8]");
    assert!(matches!(Vec::<i32>::deserialize(&mut de), Ok(ref s) if s == &[1, 2, 4, 8]));

    let mut de = JsonDeserializer::new("[1,2,4,8,]");
    assert!(matches!(Vec::<i32>::deserialize(&mut de), Ok(ref s) if s == &[1, 2, 4, 8]));

    let mut de = JsonDeserializer::new("[1]");
    assert!(matches!(Vec::<i32>::deserialize(&mut de), Ok(ref s) if s == &[1]));

    let mut de = JsonDeserializer::new("[1,null,2,null]");
    assert!(
        matches!(Vec::<Option<i32>>::deserialize(&mut de), Ok(ref s) if s == &[Some(1), None, Some(2), None])
    );

    let mut de = JsonDeserializer::new("[]");
    let empty: [i32; 0] = [];
    assert!(matches!(Vec::<i32>::deserialize(&mut de), Ok(ref s) if s == &empty));
}
