use crate::de::place::bool_of;
use crate::de::place::float_of;
use crate::de::place::integer_of;
use crate::de::place::single_of_token;
use crate::de::place::Place;
use crate::de::seq::SeqBuilder;
use crate::de::traits::Cursor;
use crate::de::traits::Deserialize;
use crate::de::traits::Deserializer;
use crate::de::visitor::Token;
use crate::error::DeserializeError;
use crate::integer::Integer;
use crate::model::models;
use crate::model::Modeled;
use crate::number::Float;
use crate::number::SingleFloat;
use vstd::prelude::*;

verus! {

/// An integer is read from the token at the head of the input, where the
/// token is a number that the type holds.
impl<T: Integer, D: Deserializer> Deserialize<D> for T {
    open spec fn parsed(de: D) -> Result<(int, D), DeserializeError> {
        match de.head() {
            Ok((token, next)) => match integer_of(token, T::lowest(), T::highest()) {
                Ok(value) => Ok((value, next)),
                Err(error) => Err(error),
            },
            Err(error) => Err(error),
        }
    }

    proof fn parsed_advances(de: D) {
        de.head_advances();
    }

    fn deserialize(de: &mut D) -> (value: Result<Self, DeserializeError>) {
        let mut place: Place<T> = Place::new();
        de.deserialize(&mut place)?;
        match place.out {
            Some(value) => Ok(value),
            None => Err(DeserializeError::UnknownError),
        }
    }
}

/// A boolean is read from the token at the head of the input: from a
/// boolean, or from a number, which counts as `true` unless it is zero.
impl<D: Deserializer> Deserialize<D> for bool {
    open spec fn parsed(de: D) -> Result<(bool, D), DeserializeError> {
        match de.head() {
            Ok((token, next)) => match bool_of(token) {
                Ok(value) => Ok((value, next)),
                Err(error) => Err(error),
            },
            Err(error) => Err(error),
        }
    }

    proof fn parsed_advances(de: D) {
        de.head_advances();
    }

    fn deserialize(de: &mut D) -> (value: Result<Self, DeserializeError>) {
        let mut place: Place<bool> = Place::new();
        de.deserialize(&mut place)?;
        match place.out {
            Some(value) => Ok(value),
            None => Err(DeserializeError::UnknownError),
        }
    }
}

/// A floating-point number is read from the token at the head of the
/// input, in the form in which the format carries it; an integer is taken
/// exactly.
impl<D: Deserializer> Deserialize<D> for Float {
    open spec fn parsed(de: D) -> Result<(Float, D), DeserializeError> {
        match de.head() {
            Ok((token, next)) => match float_of(token) {
                Ok(value) => Ok((value, next)),
                Err(error) => Err(error),
            },
            Err(error) => Err(error),
        }
    }

    proof fn parsed_advances(de: D) {
        de.head_advances();
    }

    fn deserialize(de: &mut D) -> (value: Result<Self, DeserializeError>) {
        let mut place: Place<Float> = Place::new();
        de.deserialize(&mut place)?;
        match place.out {
            Some(value) => Ok(value),
            None => Err(DeserializeError::UnknownError),
        }
    }
}

/// A single-precision number is read like a floating-point number, where
/// single precision's range holds what the token carries.
impl<D: Deserializer> Deserialize<D> for SingleFloat {
    open spec fn parsed(de: D) -> Result<(SingleFloat, D), DeserializeError> {
        match de.head() {
            Ok((token, next)) => match single_of_token(token) {
                Ok(value) => Ok((value, next)),
                Err(error) => Err(error),
            },
            Err(error) => Err(error),
        }
    }

    proof fn parsed_advances(de: D) {
        de.head_advances();
    }

    fn deserialize(de: &mut D) -> (value: Result<Self, DeserializeError>) {
        let mut place: Place<SingleFloat> = Place::new();
        de.deserialize(&mut place)?;
        match place.out {
            Some(value) => Ok(value),
            None => Err(DeserializeError::UnknownError),
        }
    }
}

/// A string is read from a string token only.
impl<D: Deserializer> Deserialize<D> for String {
    open spec fn parsed(de: D) -> Result<(Seq<char>, D), DeserializeError> {
        match de.head() {
            Ok((Token::Str(text), next)) => Ok((text, next)),
            Ok(_) => Err(DeserializeError::UnimplementedVisit),
            Err(error) => Err(error),
        }
    }

    proof fn parsed_advances(de: D) {
        de.head_advances();
    }

    fn deserialize(de: &mut D) -> (value: Result<Self, DeserializeError>) {
        let mut place: Place<String> = Place::new();
        de.deserialize(&mut place)?;
        match place.out {
            Some(value) => Ok(value),
            None => Err(DeserializeError::UnknownError),
        }
    }
}

/// The unit value is read from a null only.
impl<D: Deserializer> Deserialize<D> for () {
    open spec fn parsed(de: D) -> Result<((), D), DeserializeError> {
        match de.head() {
            Ok((Token::Null, next)) => Ok(((), next)),
            Ok(_) => Err(DeserializeError::UnimplementedVisit),
            Err(error) => Err(error),
        }
    }

    proof fn parsed_advances(de: D) {
        de.head_advances();
    }

    fn deserialize(de: &mut D) -> (value: Result<Self, DeserializeError>) {
        let mut place: Place<()> = Place::new();
        de.deserialize(&mut place)?;
        match place.out {
            Some(value) => Ok(value),
            None => Err(DeserializeError::UnknownError),
        }
    }
}

/// An optional value is absent where a null arrives; anything else is read
/// as the value itself.
impl<D: Deserializer, T: Deserialize<D>> Deserialize<D> for Option<T> {
    open spec fn parsed(de: D) -> Result<(Option<T::Model>, D), DeserializeError> {
        match de.head() {
            Ok((Token::Null, next)) => Ok((None, next)),
            _ => match T::parsed(de) {
                Ok((value, next)) => Ok((Some(value), next)),
                Err(error) => Err(error),
            },
        }
    }

    proof fn parsed_advances(de: D) {
        de.head_advances();
        T::parsed_advances(de);
    }

    fn deserialize(de: &mut D) -> (value: Result<Self, DeserializeError>) {
        if de.take_null() {
            Ok(None)
        } else {
            Ok(Some(T::deserialize(de)?))
        }
    }
}

/// The elements that a reader inside a sequence yields, up to the
/// sequence's end, and the state behind it.
pub open spec fn parsed_elements<T: Deserialize<D>, D: Deserializer>(de: D, cursor: Cursor) -> Result<
    (Seq<T::Model>, D),
    DeserializeError,
>
    decreases de.remaining(),
    when de.well_formed()
{
    match de.element(cursor) {
        Ok((true, at, moved)) => match T::parsed(at) {
            Ok((value, behind)) => {
                proof {
                    de.element_advances(cursor);
                    T::parsed_advances(at);
                }
                match parsed_elements::<T, D>(behind, moved) {
                    Ok((rest, end)) => Ok((seq![value] + rest, end)),
                    Err(error) => Err(error),
                }
            },
            Err(error) => Err(error),
        },
        Ok((false, end, _)) => Ok((Seq::empty(), end)),
        Err(error) => Err(error),
    }
}

/// A vector is read from a sequence: the token that opens it, and its
/// elements up to its end.
impl<D: Deserializer, T: Deserialize<D>> Deserialize<D> for Vec<T> {
    open spec fn parsed(de: D) -> Result<(Seq<T::Model>, D), DeserializeError> {
        match de.head() {
            Ok((Token::Sequence(size_hint), next)) => parsed_elements::<T, D>(
                next,
                Cursor { first: true, left: size_hint },
            ),
            Ok(_) => Err(DeserializeError::UnimplementedVisit),
            Err(error) => Err(error),
        }
    }

    proof fn parsed_advances(de: D) {
        de.head_advances();
        if let Ok((Token::Sequence(size_hint), next)) = de.head() {
            lemma_elements_advance::<T, D>(next, Cursor { first: true, left: size_hint });
        }
    }

    fn deserialize(de: &mut D) -> (value: Result<Self, DeserializeError>) {
        let mut builder: SeqBuilder<T> = SeqBuilder::new();
        de.deserialize(&mut builder)?;
        let mut cursor = match builder.cursor {
            Some(cursor) => cursor,
            None => {
                return Err(DeserializeError::UnknownError);
            },
        };
        let ghost whole = parsed_elements::<T, D>(*de, cursor);
        proof {
            old(de).head_advances();
            assert(models(builder.vec@) =~= Seq::<T::Model>::empty());
        }
        loop
            invariant_except_break
                match parsed_elements::<T, D>(*de, cursor) {
                    Ok((rest, end)) => whole == Ok::<(Seq<T::Model>, D), DeserializeError>(
                        (models(builder.vec@) + rest, end),
                    ),
                    Err(error) => whole == Err::<(Seq<T::Model>, D), DeserializeError>(error),
                },
            invariant
                de.well_formed(),
                builder.cursor is Some,
                whole == Self::parsed(*old(de)),
            ensures
                de.well_formed(),
                builder.cursor is Some,
                whole == Self::parsed(*old(de)),
                whole matches Ok((all, end)) && all == models(builder.vec@) && end == *de,
            decreases de.remaining(),
        {
            let ghost before = *de;
            let ghost at_cursor = cursor;
            let ghost so_far = builder.vec@;
            proof {
                before.element_advances(at_cursor);
            }
            if !de.next_element(&mut cursor)? {
                proof {
                    assert(models(so_far) + Seq::<T::Model>::empty() =~= models(so_far));
                }
                break ;
            }
            let ghost at = *de;
            proof {
                T::parsed_advances(at);
            }
            let value = T::deserialize(de)?;
            builder.element(value);
            proof {
                let rest = parsed_elements::<T, D>(*de, cursor);
                if let Ok((tail, end)) = rest {
                    assert(models(so_far) + (seq![value.model()] + tail) =~= models(
                        so_far.push(value),
                    ) + tail);
                }
            }
        }
        builder.finish()
    }
}

/// Reading the rest of a sequence gives no input back.
pub proof fn lemma_elements_advance<T: Deserialize<D>, D: Deserializer>(de: D, cursor: Cursor)
    requires
        de.well_formed(),
    ensures
        parsed_elements::<T, D>(de, cursor) matches Ok((_, end)) ==> end.well_formed()
            && end.remaining() <= de.remaining(),
    decreases de.remaining(),
{
    de.element_advances(cursor);
    if let Ok((true, at, moved)) = de.element(cursor) {
        T::parsed_advances(at);
        if let Ok((_, behind)) = T::parsed(at) {
            lemma_elements_advance::<T, D>(behind, moved);
        }
    }
}

} // verus!
