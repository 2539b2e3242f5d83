use macroserde::de::{Place, Visitor};
use macroserde::error::DeserializeError;
use macroserde::integer::Integer;
use macroserde::number::{narrow, Float};

fn cut<T: Integer + std::fmt::Debug + PartialEq>(value: Float) -> Result<T, DeserializeError> {
    let mut place: Place<T> = Place::new();
    place.visit_float(value)?;
    Ok(place.out.unwrap())
}

#[test]
fn a_pattern_is_cut_to_the_integral_part_of_its_number() {
    let values = [
        0.0f64, -0.0, 0.5, -0.5, 0.999999, 1.0, 1.5, -1.5, 2.0, 255.0, 255.999, 256.0, -456.21,
        1.0e9, 4294967295.0, 4294967296.5, 9007199254740993.0, 1.8446744073709552e19,
        1.8446744073709550e19, 9.223372036854775e18, -9.223372036854776e18, 1.0e30, 5e-324,
        f64::MIN_POSITIVE, f64::MAX,
    ];
    for value in values {
        let double = Float::Double(value.to_bits());
        let expected = if value.trunc() >= 0.0 && value.trunc() < 18446744073709551616.0 {
            Some((value.is_sign_negative(), value.trunc() as u64))
        } else if value.trunc() < 0.0 && value.trunc() > -18446744073709551616.0 {
            Some((true, (-value.trunc()) as u64))
        } else {
            None
        };
        assert_eq!(double.truncate(), expected, "{}", value);

        let narrowed = value as f32;
        let single = Float::Single(narrowed.to_bits());
        let wide = narrowed as f64;
        let expected = if wide.is_finite() && wide.trunc().abs() < 18446744073709551616.0 {
            Some((wide.is_sign_negative(), wide.trunc().abs() as u64))
        } else {
            None
        };
        assert_eq!(single.truncate(), expected, "{}", narrowed);
    }
    for bits in [f64::INFINITY.to_bits(), f64::NEG_INFINITY.to_bits(), f64::NAN.to_bits()] {
        assert_eq!(Float::Double(bits).truncate(), None);
    }
    for bits in [f32::INFINITY.to_bits(), f32::NEG_INFINITY.to_bits(), f32::NAN.to_bits()] {
        assert_eq!(Float::Single(bits).truncate(), None);
    }
}

#[test]
fn a_decimal_literal_is_cut_to_its_integral_part() {
    let cut = |negative, mantissa, exponent| Float::Decimal { negative, mantissa, exponent }.truncate();
    assert_eq!(cut(true, 45621, -2), Some((true, 456)));
    assert_eq!(cut(false, 45621, 0), Some((false, 45621)));
    assert_eq!(cut(false, 45621, 3), Some((false, 45621000)));
    assert_eq!(cut(false, 45621, -5), Some((false, 0)));
    assert_eq!(cut(false, 45621, -32768), Some((false, 0)));
    assert_eq!(cut(false, u64::MAX, -19), Some((false, 1)));
    assert_eq!(cut(false, u64::MAX, -20), Some((false, 0)));
    assert_eq!(cut(false, 1, 19), Some((false, 10000000000000000000)));
    assert_eq!(cut(false, 1, 20), None);
    assert_eq!(cut(false, 2, 19), None);
    assert_eq!(cut(false, 18446744073709551615, 0), Some((false, u64::MAX)));
    assert_eq!(cut(false, 1844674407370955161, 1), Some((false, 18446744073709551610)));
    assert_eq!(cut(false, 1844674407370955162, 1), None);
    assert_eq!(cut(true, 0, 32767), Some((true, 0)));
    assert_eq!(cut(false, 0, -32768), Some((false, 0)));
    assert_eq!(cut(false, 7, 32767), None);
}

#[test]
fn an_integer_destination_takes_the_integral_part_of_a_number_in_its_range() {
    let double = |value: f64| Float::Double(value.to_bits());
    assert_eq!(cut::<i32>(double(-456.21)), Ok(-456));
    assert_eq!(cut::<i32>(double(2147483647.0)), Ok(i32::MAX));
    assert_eq!(cut::<i32>(double(2147483646.9)), Ok(2147483646));
    assert_eq!(cut::<i32>(double(2147483647.9)), Err(DeserializeError::IncompatibleNumericType));
    assert_eq!(cut::<i32>(double(2147483648.0)), Err(DeserializeError::IncompatibleNumericType));
    assert_eq!(cut::<i32>(double(-2147483648.0)), Ok(i32::MIN));
    assert_eq!(cut::<i32>(double(-2147483647.9)), Ok(-2147483647));
    assert_eq!(cut::<i32>(double(-2147483648.9)), Err(DeserializeError::IncompatibleNumericType));
    assert_eq!(cut::<i32>(double(-2147483649.0)), Err(DeserializeError::IncompatibleNumericType));
    assert_eq!(cut::<u8>(double(-0.9)), Err(DeserializeError::IncompatibleNumericType));
    assert_eq!(cut::<u8>(double(-0.0)), Ok(0));
    assert_eq!(cut::<u8>(double(0.9)), Ok(0));
    assert_eq!(cut::<i8>(double(-0.9)), Ok(0));
    assert_eq!(cut::<u8>(double(-1.0)), Err(DeserializeError::IncompatibleNumericType));
    assert_eq!(cut::<u64>(double(1.8446744073709550e19)), Ok(18446744073709549568));
    assert_eq!(cut::<u64>(double(1.8446744073709552e19)), Err(DeserializeError::IncompatibleNumericType));
    assert_eq!(cut::<i64>(double(-9.223372036854776e18)), Ok(i64::MIN));
    assert_eq!(cut::<i64>(double(9.223372036854776e18)), Err(DeserializeError::IncompatibleNumericType));
    assert_eq!(cut::<i64>(double(f64::NAN)), Err(DeserializeError::IncompatibleNumericType));
    assert_eq!(cut::<i64>(double(f64::INFINITY)), Err(DeserializeError::IncompatibleNumericType));
    assert_eq!(cut::<i16>(Float::Single((-456.21f32).to_bits())), Ok(-456));
    assert_eq!(cut::<u8>(Float::Single(255.0f32.to_bits())), Ok(255));
    assert_eq!(cut::<u8>(Float::Single(254.5f32.to_bits())), Ok(254));
    assert_eq!(cut::<u8>(Float::Single(255.5f32.to_bits())), Err(DeserializeError::IncompatibleNumericType));
    assert_eq!(cut::<u8>(Float::Single(256.0f32.to_bits())), Err(DeserializeError::IncompatibleNumericType));
    assert_eq!(cut::<usize>(Float::Decimal { negative: false, mantissa: 99, exponent: -1 }), Ok(9));
    assert_eq!(cut::<isize>(Float::Decimal { negative: true, mantissa: 99, exponent: -1 }), Ok(-9));
}

#[test]
fn a_number_differs_from_zero_unless_it_is_one() {
    for value in [0.0f64, -0.0] {
        assert!(!Float::Double(value.to_bits()).nonzero());
        assert!(!Float::Single((value as f32).to_bits()).nonzero());
    }
    for value in [1.0f64, -1.0, 5e-324, f64::NAN, f64::INFINITY, 0.1] {
        assert!(Float::Double(value.to_bits()).nonzero());
    }
    for value in [1.0f32, -1.0, 1e-45, f32::NAN, f32::NEG_INFINITY] {
        assert!(Float::Single(value.to_bits()).nonzero());
    }
    assert!(!Float::Decimal { negative: true, mantissa: 0, exponent: 7 }.nonzero());
    assert!(Float::Decimal { negative: false, mantissa: 1, exponent: -300 }.nonzero());
}

#[test]
fn an_integer_is_a_number_exactly() {
    assert_eq!(Float::from_signed(0), Float::Decimal { negative: false, mantissa: 0, exponent: 0 });
    assert_eq!(Float::from_signed(-5), Float::Decimal { negative: true, mantissa: 5, exponent: 0 });
    assert_eq!(
        Float::from_signed(i64::MIN),
        Float::Decimal { negative: true, mantissa: 1 << 63, exponent: 0 }
    );
    assert_eq!(
        Float::from_unsigned(u64::MAX),
        Float::Decimal { negative: false, mantissa: u64::MAX, exponent: 0 }
    );
    let mut place: Place<Float> = Place::new();
    place.visit_signed(-9).unwrap();
    assert_eq!(place.out, Some(Float::from_signed(-9)));
    place.visit_bool(false).unwrap();
    assert_eq!(place.out, Some(Float::from_unsigned(0)));
    place.visit_float(Float::Single(7)).unwrap();
    assert_eq!(place.out, Some(Float::Single(7)));
    assert_eq!(place.visit_null(), Err(DeserializeError::UnimplementedVisit));
}

#[test]
fn single_precision_holds_what_survives_the_way_there_and_back() {
    let mut values = vec![
        0.0f64, -0.0, 1.0, -1.0, 0.5, 0.1, 1.0 / 3.0, 16777216.0, 16777217.0, 3.4028234663852886e38,
        3.4028235e38, 3.5e38, 1.1754943508222875e-38, 1.1754942e-38, 1.401298464324817e-45,
        7.006492321624085e-46, 2.802596928649634e-45, 1.0e-40, 5e-324, f64::MIN_POSITIVE, f64::MAX,
        f64::INFINITY, f64::NEG_INFINITY, f64::NAN, -456.21, 456.25,
    ];
    let mut seed: u64 = 0x9e37_79b9_7f4a_7c15;
    for _ in 0..2000 {
        seed ^= seed << 13;
        seed ^= seed >> 7;
        seed ^= seed << 17;
        values.push(f64::from_bits(seed));
        values.push(f32::from_bits((seed >> 32) as u32) as f64);
        values.push(f64::from_bits(seed & 0xffff_ffff_e000_0000));
    }
    for value in values {
        let there = value as f32;
        let expected = if there as f64 == value { Some(there.to_bits()) } else { None };
        assert_eq!(narrow(value.to_bits()), expected, "{:e}", value);
    }
}

#[test]
fn every_width_has_its_range() {
    assert_eq!(i8::from_wide(-128), Some(i8::MIN));
    assert_eq!(i8::from_wide(-129), None);
    assert_eq!(i8::from_wide(128), None);
    assert_eq!(u8::from_wide(255), Some(255));
    assert_eq!(u8::from_wide(256), None);
    assert_eq!(u8::from_wide(-1), None);
    assert_eq!(i16::from_wide(32767), Some(i16::MAX));
    assert_eq!(i16::from_wide(32768), None);
    assert_eq!(u16::from_wide(65536), None);
    assert_eq!(i32::from_wide(i32::MIN as i128), Some(i32::MIN));
    assert_eq!(u32::from_wide(u32::MAX as i128 + 1), None);
    assert_eq!(i64::from_wide(i64::MAX as i128), Some(i64::MAX));
    assert_eq!(i64::from_wide(i64::MAX as i128 + 1), None);
    assert_eq!(u64::from_wide(u64::MAX as i128), Some(u64::MAX));
    assert_eq!(u64::from_wide(u64::MAX as i128 + 1), None);
    assert_eq!(isize::from_wide(isize::MAX as i128 + 1), None);
    assert_eq!(usize::from_wide(usize::MAX as i128), Some(usize::MAX));
    assert_eq!((-5i8).to_wide(), -5);
    assert_eq!(u64::MAX.to_wide(), u64::MAX as i128);
    assert!(i8::is_signed() && i16::is_signed() && i32::is_signed() && i64::is_signed());
    assert!(isize::is_signed());
    assert!(!u8::is_signed() && !u16::is_signed() && !u32::is_signed() && !u64::is_signed());
    assert!(!usize::is_signed());
}
