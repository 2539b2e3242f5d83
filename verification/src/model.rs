use crate::integer::Integer;
use crate::number::Float;
use crate::number::SingleFloat;
use vstd::prelude::*;

verus! {

/// A value that the contracts speak of through a mathematical model: an
/// integer through the number it stands for, a string through its
/// characters, a vector through the sequence of its elements' models.
pub trait Modeled {
    type Model;

    spec fn model(&self) -> Self::Model;
}

/// An integer stands for its number.
impl<T: Integer> Modeled for T {
    type Model = int;

    open spec fn model(&self) -> int {
        self.value()
    }
}

/// A boolean is its own model.
impl Modeled for bool {
    type Model = bool;

    open spec fn model(&self) -> bool {
        *self
    }
}

/// A floating-point number is its own model, in the form in which it is
/// held.
impl Modeled for Float {
    type Model = Float;

    open spec fn model(&self) -> Float {
        *self
    }
}

/// A single-precision number is its own model.
impl Modeled for SingleFloat {
    type Model = SingleFloat;

    open spec fn model(&self) -> SingleFloat {
        *self
    }
}

/// A string stands for its characters.
impl Modeled for String {
    type Model = Seq<char>;

    open spec fn model(&self) -> Seq<char> {
        self@
    }
}

/// The unit value is its own model.
impl Modeled for () {
    type Model = ();

    open spec fn model(&self) -> () {
        ()
    }
}

/// An optional value stands for the model of what it holds, if anything.
impl<T: Modeled> Modeled for Option<T> {
    type Model = Option<T::Model>;

    open spec fn model(&self) -> Option<T::Model> {
        match self {
            Some(value) => Some(value.model()),
            None => None,
        }
    }
}

/// The models of the values of a sequence, in order.
pub open spec fn models<T: Modeled>(values: Seq<T>) -> Seq<T::Model> {
    values.map_values(|value: T| value.model())
}

/// A vector stands for the models of its elements, in order.
impl<T: Modeled> Modeled for Vec<T> {
    type Model = Seq<T::Model>;

    open spec fn model(&self) -> Seq<T::Model> {
        models(self@)
    }
}

} // verus!
