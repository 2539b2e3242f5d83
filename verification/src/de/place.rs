use crate::de::visitor::Token;
use crate::de::visitor::Visitor;
use crate::error::DeserializeError;
use crate::integer::Integer;
use crate::number::Float;
use crate::number::SingleFloat;
use vstd::prelude::*;

verus! {

/// The slot that one value is read into. It starts empty, and the one token
/// that its type takes fills it.
pub struct Place<T> {
    pub out: Option<T>,
}

impl<T> Place<T> {
    /// An empty slot.
    pub fn new() -> (place: Self)
        ensures
            place.out is None,
    {
        Place { out: None }
    }
}

/// The number if the range holds it, `IncompatibleNumericType` if not.
pub open spec fn within(value: int, lowest: int, highest: int) -> Result<int, DeserializeError> {
    if lowest <= value <= highest {
        Ok(value)
    } else {
        Err(DeserializeError::IncompatibleNumericType)
    }
}

/// What an integer destination with the given range makes of a
/// floating-point number: where the number lies within the range, its
/// integral part; where it lies outside, or is not finite,
/// `IncompatibleNumericType`. The number is no less than `lowest` where its
/// floor is, and no more than `highest` where its ceiling is.
pub open spec fn cut_within(value: Float, lowest: int, highest: int) -> Result<
    int,
    DeserializeError,
> {
    if value.is_finite() && lowest <= value.floor().unwrap() && value.ceiling().unwrap()
        <= highest {
        Ok(value.integral().unwrap())
    } else {
        Err(DeserializeError::IncompatibleNumericType)
    }
}

/// What an integer destination with the given range makes of a token: a
/// number that the range holds is taken, a floating-point number without
/// its fraction, `true` counts as one and `false` as zero.
pub open spec fn integer_of(token: Token, lowest: int, highest: int) -> Result<
    int,
    DeserializeError,
> {
    match token {
        Token::Signed(value) => within(value as int, lowest, highest),
        Token::Unsigned(value) => within(value as int, lowest, highest),
        Token::Float(value) => cut_within(value, lowest, highest),
        Token::Bool(value) => Ok(
            if value {
                1
            } else {
                0
            },
        ),
        _ => Err(DeserializeError::UnimplementedVisit),
    }
}

/// What a boolean destination makes of a token: any number counts as `true`
/// unless it is zero.
pub open spec fn bool_of(token: Token) -> Result<bool, DeserializeError> {
    match token {
        Token::Bool(value) => Ok(value),
        Token::Signed(value) => Ok(value != 0),
        Token::Unsigned(value) => Ok(value != 0),
        Token::Float(value) => Ok(value.is_nonzero()),
        _ => Err(DeserializeError::UnimplementedVisit),
    }
}

/// What a floating-point destination makes of a token: an integer is taken
/// exactly, `true` counts as one and `false` as zero.
pub open spec fn float_of(token: Token) -> Result<Float, DeserializeError> {
    match token {
        Token::Float(value) => Ok(value),
        Token::Signed(value) => Ok(Float::of_integer(value as int)),
        Token::Unsigned(value) => Ok(Float::of_integer(value as int)),
        Token::Bool(value) => Ok(
            Float::of_integer(
                if value {
                    1
                } else {
                    0
                },
            ),
        ),
        _ => Err(DeserializeError::UnimplementedVisit),
    }
}

impl<T: Integer> Place<T> {
    /// Fills the slot with the number, where the type holds it.
    fn put(&mut self, wide: i128) -> (verdict: Result<(), DeserializeError>)
        ensures
            match within(wide as int, T::lowest(), T::highest()) {
                Ok(value) => {
                    &&& verdict is Ok
                    &&& final(self).out is Some
                    &&& final(self).out.unwrap().value() == value
                },
                Err(error) => {
                    &&& verdict == Err::<(), DeserializeError>(error)
                    &&& *final(self) == *old(self)
                },
            },
    {
        match T::from_wide(wide) {
            Some(narrow) => {
                self.out = Some(narrow);
                Ok(())
            },
            None => Err(DeserializeError::IncompatibleNumericType),
        }
    }
}

/// The slot of an integer takes a number that its type holds, whatever
/// the kind of the token, and a boolean as one or zero.
impl<T: Integer> Visitor for Place<T> {
    open spec fn accepts(
        self,
        token: Token,
        after: Self,
        verdict: Result<(), DeserializeError>,
    ) -> bool {
        match integer_of(token, T::lowest(), T::highest()) {
            Ok(value) => verdict is Ok && after.out is Some && after.out.unwrap().value() == value,
            Err(error) => verdict == Err::<(), DeserializeError>(error) && after == self,
        }
    }

    fn visit_null(&mut self) -> (verdict: Result<(), DeserializeError>) {
        Err(DeserializeError::UnimplementedVisit)
    }

    fn visit_bool(&mut self, value: bool) -> (verdict: Result<(), DeserializeError>) {
        proof {
            if let Some(narrow) = self.out {
                narrow.range();
            }
            T::range_of_type();
        }
        self.put(
            if value {
                1
            } else {
                0
            },
        )
    }

    fn visit_signed(&mut self, value: i64) -> (verdict: Result<(), DeserializeError>) {
        self.put(value as i128)
    }

    fn visit_unsigned(&mut self, value: u64) -> (verdict: Result<(), DeserializeError>) {
        self.put(value as i128)
    }

    fn visit_float(&mut self, value: Float) -> (verdict: Result<(), DeserializeError>) {
        proof {
            T::range_of_type();
        }
        match value.truncate() {
            Some((negative, magnitude)) => {
                let cut: i128 = if negative {
                    -(magnitude as i128)
                } else {
                    magnitude as i128
                };
                let reach: i128 = if value.whole() {
                    cut
                } else if negative {
                    cut - 1
                } else {
                    cut + 1
                };
                match T::from_wide(reach) {
                    Some(_) => self.put(cut),
                    None => Err(DeserializeError::IncompatibleNumericType),
                }
            },
            None => Err(DeserializeError::IncompatibleNumericType),
        }
    }

    fn visit_str(&mut self, value: &str) -> (verdict: Result<(), DeserializeError>) {
        Err(DeserializeError::UnimplementedVisit)
    }

    fn visit_seq(&mut self, size_hint: Option<usize>) -> (verdict: Result<(), DeserializeError>) {
        Err(DeserializeError::UnimplementedVisit)
    }

    fn visit_struct(&mut self, size_hint: Option<usize>) -> (verdict: Result<
        (),
        DeserializeError,
    >) {
        Err(DeserializeError::UnimplementedVisit)
    }
}

/// The slot of a boolean takes a boolean, and any number.
impl Visitor for Place<bool> {
    open spec fn accepts(
        self,
        token: Token,
        after: Self,
        verdict: Result<(), DeserializeError>,
    ) -> bool {
        match bool_of(token) {
            Ok(value) => verdict is Ok && after.out == Some(value),
            Err(error) => verdict == Err::<(), DeserializeError>(error) && after == self,
        }
    }

    fn visit_null(&mut self) -> (verdict: Result<(), DeserializeError>) {
        Err(DeserializeError::UnimplementedVisit)
    }

    fn visit_bool(&mut self, value: bool) -> (verdict: Result<(), DeserializeError>) {
        self.out = Some(value);
        Ok(())
    }

    fn visit_signed(&mut self, value: i64) -> (verdict: Result<(), DeserializeError>) {
        self.out = Some(value != 0);
        Ok(())
    }

    fn visit_unsigned(&mut self, value: u64) -> (verdict: Result<(), DeserializeError>) {
        self.out = Some(value != 0);
        Ok(())
    }

    fn visit_float(&mut self, value: Float) -> (verdict: Result<(), DeserializeError>) {
        self.out = Some(value.nonzero());
        Ok(())
    }

    fn visit_str(&mut self, value: &str) -> (verdict: Result<(), DeserializeError>) {
        Err(DeserializeError::UnimplementedVisit)
    }

    fn visit_seq(&mut self, size_hint: Option<usize>) -> (verdict: Result<(), DeserializeError>) {
        Err(DeserializeError::UnimplementedVisit)
    }

    fn visit_struct(&mut self, size_hint: Option<usize>) -> (verdict: Result<
        (),
        DeserializeError,
    >) {
        Err(DeserializeError::UnimplementedVisit)
    }
}

/// What a single-precision destination makes of a token: what a
/// floating-point destination makes of it, where single precision's range
/// holds the number.
pub open spec fn single_of_token(token: Token) -> Result<SingleFloat, DeserializeError> {
    match float_of(token) {
        Ok(value) => if value.single_holds() {
            Ok(SingleFloat { value })
        } else {
            Err(DeserializeError::IncompatibleNumericType)
        },
        Err(error) => Err(error),
    }
}

impl Place<SingleFloat> {
    /// Fills the slot with the number, where single precision's range
    /// holds it.
    fn put_single(&mut self, value: Float) -> (verdict: Result<(), DeserializeError>)
        ensures
            value.single_holds() ==> verdict is Ok && final(self).out == Some(
                SingleFloat { value },
            ),
            !value.single_holds() ==> verdict == Err::<(), DeserializeError>(
                DeserializeError::IncompatibleNumericType,
            ) && *final(self) == *old(self),
    {
        match SingleFloat::new(value) {
            Some(single) => {
                self.out = Some(single);
                Ok(())
            },
            None => Err(DeserializeError::IncompatibleNumericType),
        }
    }
}

/// The slot of a single-precision number takes a number that single
/// precision's range holds, and a boolean as one or zero.
impl Visitor for Place<SingleFloat> {
    open spec fn accepts(
        self,
        token: Token,
        after: Self,
        verdict: Result<(), DeserializeError>,
    ) -> bool {
        match single_of_token(token) {
            Ok(value) => verdict is Ok && after.out == Some(value),
            Err(error) => verdict == Err::<(), DeserializeError>(error) && after == self,
        }
    }

    fn visit_null(&mut self) -> (verdict: Result<(), DeserializeError>) {
        Err(DeserializeError::UnimplementedVisit)
    }

    fn visit_bool(&mut self, value: bool) -> (verdict: Result<(), DeserializeError>) {
        self.put_single(
            Float::from_unsigned(
                if value {
                    1
                } else {
                    0
                },
            ),
        )
    }

    fn visit_signed(&mut self, value: i64) -> (verdict: Result<(), DeserializeError>) {
        self.put_single(Float::from_signed(value))
    }

    fn visit_unsigned(&mut self, value: u64) -> (verdict: Result<(), DeserializeError>) {
        self.put_single(Float::from_unsigned(value))
    }

    fn visit_float(&mut self, value: Float) -> (verdict: Result<(), DeserializeError>) {
        self.put_single(value)
    }

    fn visit_str(&mut self, value: &str) -> (verdict: Result<(), DeserializeError>) {
        Err(DeserializeError::UnimplementedVisit)
    }

    fn visit_seq(&mut self, size_hint: Option<usize>) -> (verdict: Result<(), DeserializeError>) {
        Err(DeserializeError::UnimplementedVisit)
    }

    fn visit_struct(&mut self, size_hint: Option<usize>) -> (verdict: Result<
        (),
        DeserializeError,
    >) {
        Err(DeserializeError::UnimplementedVisit)
    }
}

/// The slot of a floating-point number takes any number, and a boolean as
/// one or zero.
impl Visitor for Place<Float> {
    open spec fn accepts(
        self,
        token: Token,
        after: Self,
        verdict: Result<(), DeserializeError>,
    ) -> bool {
        match float_of(token) {
            Ok(value) => verdict is Ok && after.out == Some(value),
            Err(error) => verdict == Err::<(), DeserializeError>(error) && after == self,
        }
    }

    fn visit_null(&mut self) -> (verdict: Result<(), DeserializeError>) {
        Err(DeserializeError::UnimplementedVisit)
    }

    fn visit_bool(&mut self, value: bool) -> (verdict: Result<(), DeserializeError>) {
        self.out = Some(
            Float::from_unsigned(
                if value {
                    1
                } else {
                    0
                },
            ),
        );
        Ok(())
    }

    fn visit_signed(&mut self, value: i64) -> (verdict: Result<(), DeserializeError>) {
        self.out = Some(Float::from_signed(value));
        Ok(())
    }

    fn visit_unsigned(&mut self, value: u64) -> (verdict: Result<(), DeserializeError>) {
        self.out = Some(Float::from_unsigned(value));
        Ok(())
    }

    fn visit_float(&mut self, value: Float) -> (verdict: Result<(), DeserializeError>) {
        self.out = Some(value);
        Ok(())
    }

    fn visit_str(&mut self, value: &str) -> (verdict: Result<(), DeserializeError>) {
        Err(DeserializeError::UnimplementedVisit)
    }

    fn visit_seq(&mut self, size_hint: Option<usize>) -> (verdict: Result<(), DeserializeError>) {
        Err(DeserializeError::UnimplementedVisit)
    }

    fn visit_struct(&mut self, size_hint: Option<usize>) -> (verdict: Result<
        (),
        DeserializeError,
    >) {
        Err(DeserializeError::UnimplementedVisit)
    }
}

/// The slot of a string takes a string only.
impl Visitor for Place<String> {
    open spec fn accepts(
        self,
        token: Token,
        after: Self,
        verdict: Result<(), DeserializeError>,
    ) -> bool {
        match token {
            Token::Str(text) => verdict is Ok && after.out is Some && after.out.unwrap()@ == text,
            _ => verdict == Err::<(), DeserializeError>(DeserializeError::UnimplementedVisit)
                && after == self,
        }
    }

    fn visit_null(&mut self) -> (verdict: Result<(), DeserializeError>) {
        Err(DeserializeError::UnimplementedVisit)
    }

    fn visit_bool(&mut self, value: bool) -> (verdict: Result<(), DeserializeError>) {
        Err(DeserializeError::UnimplementedVisit)
    }

    fn visit_signed(&mut self, value: i64) -> (verdict: Result<(), DeserializeError>) {
        Err(DeserializeError::UnimplementedVisit)
    }

    fn visit_unsigned(&mut self, value: u64) -> (verdict: Result<(), DeserializeError>) {
        Err(DeserializeError::UnimplementedVisit)
    }

    fn visit_float(&mut self, value: Float) -> (verdict: Result<(), DeserializeError>) {
        Err(DeserializeError::UnimplementedVisit)
    }

    fn visit_str(&mut self, value: &str) -> (verdict: Result<(), DeserializeError>) {
        self.out = Some(value.to_owned());
        Ok(())
    }

    fn visit_seq(&mut self, size_hint: Option<usize>) -> (verdict: Result<(), DeserializeError>) {
        Err(DeserializeError::UnimplementedVisit)
    }

    fn visit_struct(&mut self, size_hint: Option<usize>) -> (verdict: Result<
        (),
        DeserializeError,
    >) {
        Err(DeserializeError::UnimplementedVisit)
    }
}

/// The slot of the unit value takes a null only.
impl Visitor for Place<()> {
    open spec fn accepts(
        self,
        token: Token,
        after: Self,
        verdict: Result<(), DeserializeError>,
    ) -> bool {
        match token {
            Token::Null => verdict is Ok && after.out == Some(()),
            _ => verdict == Err::<(), DeserializeError>(DeserializeError::UnimplementedVisit)
                && after == self,
        }
    }

    fn visit_null(&mut self) -> (verdict: Result<(), DeserializeError>) {
        self.out = Some(());
        Ok(())
    }

    fn visit_bool(&mut self, value: bool) -> (verdict: Result<(), DeserializeError>) {
        Err(DeserializeError::UnimplementedVisit)
    }

    fn visit_signed(&mut self, value: i64) -> (verdict: Result<(), DeserializeError>) {
        Err(DeserializeError::UnimplementedVisit)
    }

    fn visit_unsigned(&mut self, value: u64) -> (verdict: Result<(), DeserializeError>) {
        Err(DeserializeError::UnimplementedVisit)
    }

    fn visit_float(&mut self, value: Float) -> (verdict: Result<(), DeserializeError>) {
        Err(DeserializeError::UnimplementedVisit)
    }

    fn visit_str(&mut self, value: &str) -> (verdict: Result<(), DeserializeError>) {
        Err(DeserializeError::UnimplementedVisit)
    }

    fn visit_seq(&mut self, size_hint: Option<usize>) -> (verdict: Result<(), DeserializeError>) {
        Err(DeserializeError::UnimplementedVisit)
    }

    fn visit_struct(&mut self, size_hint: Option<usize>) -> (verdict: Result<
        (),
        DeserializeError,
    >) {
        Err(DeserializeError::UnimplementedVisit)
    }
}

/// The slot of an optional value takes a null as the absent value, and
/// hands every other token on to the slot of the value itself.
impl<T> Visitor for Place<Option<T>> where Place<T>: Visitor {
    open spec fn accepts(
        self,
        token: Token,
        after: Self,
        verdict: Result<(), DeserializeError>,
    ) -> bool {
        match token {
            Token::Null => verdict is Ok && after.out == Some(None::<T>),
            _ => exists|inner: Place<T>|
                {
                    &&& #[trigger] (Place::<T> { out: None }).accepts(token, inner, verdict)
                    &&& match verdict {
                        Ok(_) => after.out == Some(inner.out),
                        Err(_) => after == self,
                    }
                },
        }
    }

    fn visit_null(&mut self) -> (verdict: Result<(), DeserializeError>) {
        self.out = Some(None);
        Ok(())
    }

    fn visit_bool(&mut self, value: bool) -> (verdict: Result<(), DeserializeError>) {
        let mut place: Place<T> = Place::new();
        place.visit_bool(value)?;
        self.out = Some(place.out);
        Ok(())
    }

    fn visit_signed(&mut self, value: i64) -> (verdict: Result<(), DeserializeError>) {
        let mut place: Place<T> = Place::new();
        place.visit_signed(value)?;
        self.out = Some(place.out);
        Ok(())
    }

    fn visit_unsigned(&mut self, value: u64) -> (verdict: Result<(), DeserializeError>) {
        let mut place: Place<T> = Place::new();
        place.visit_unsigned(value)?;
        self.out = Some(place.out);
        Ok(())
    }

    fn visit_float(&mut self, value: Float) -> (verdict: Result<(), DeserializeError>) {
        let mut place: Place<T> = Place::new();
        place.visit_float(value)?;
        self.out = Some(place.out);
        Ok(())
    }

    fn visit_str(&mut self, value: &str) -> (verdict: Result<(), DeserializeError>) {
        let mut place: Place<T> = Place::new();
        place.visit_str(value)?;
        self.out = Some(place.out);
        Ok(())
    }

    fn visit_seq(&mut self, size_hint: Option<usize>) -> (verdict: Result<(), DeserializeError>) {
        let mut place: Place<T> = Place::new();
        place.visit_seq(size_hint)?;
        self.out = Some(place.out);
        Ok(())
    }

    fn visit_struct(&mut self, size_hint: Option<usize>) -> (verdict: Result<
        (),
        DeserializeError,
    >) {
        let mut place: Place<T> = Place::new();
        place.visit_struct(size_hint)?;
        self.out = Some(place.out);
        Ok(())
    }
}

} // verus!
