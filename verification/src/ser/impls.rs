use crate::error::SerializeError;
use crate::integer::Integer;
use crate::number::Float;
use crate::number::SingleFloat;
use crate::ser::traits::emit_all;
use crate::ser::traits::emitted_all;
use crate::ser::traits::lemma_emit_all_concat;
use crate::ser::traits::lemma_emit_all_one;
use crate::ser::traits::Event;
use crate::ser::traits::Serialize;
use crate::ser::traits::Serializer;
use vstd::prelude::*;

verus! {

/// An integer is written as a signed or an unsigned number of 64 bits, as
/// its type is signed or not.
impl<T: Integer> Serialize for T {
    open spec fn events(&self) -> Seq<Event> {
        if T::signed() {
            seq![Event::Signed(self.value() as i64)]
        } else {
            seq![Event::Unsigned(self.value() as u64)]
        }
    }

    fn serialize<S: Serializer>(&self, serializer: &mut S) -> (verdict: Result<
        (),
        SerializeError,
    >) {
        proof {
            self.range();
            T::range_of_type();
            lemma_emit_all_one::<S>(serializer.state(), Event::Signed(self.value() as i64));
            lemma_emit_all_one::<S>(serializer.state(), Event::Unsigned(self.value() as u64));
        }
        if T::is_signed() {
            serializer.serialize_signed(self.to_wide() as i64)
        } else {
            serializer.serialize_unsigned(self.to_wide() as u64)
        }
    }
}

/// A boolean is written as itself.
impl Serialize for bool {
    open spec fn events(&self) -> Seq<Event> {
        seq![Event::Bool(*self)]
    }

    fn serialize<S: Serializer>(&self, serializer: &mut S) -> (verdict: Result<
        (),
        SerializeError,
    >) {
        proof {
            lemma_emit_all_one::<S>(serializer.state(), Event::Bool(*self));
        }
        serializer.serialize_bool(*self)
    }
}

/// A floating-point number is written in the form in which it is held; a
/// sink refuses a form that its format does not carry.
impl Serialize for Float {
    open spec fn events(&self) -> Seq<Event> {
        seq![Event::Float(*self)]
    }

    fn serialize<S: Serializer>(&self, serializer: &mut S) -> (verdict: Result<
        (),
        SerializeError,
    >) {
        proof {
            lemma_emit_all_one::<S>(serializer.state(), Event::Float(*self));
        }
        serializer.serialize_float(*self)
    }
}

/// A single-precision number is written as the floating-point number
/// that it holds.
impl Serialize for SingleFloat {
    open spec fn events(&self) -> Seq<Event> {
        seq![Event::Float(self.value)]
    }

    fn serialize<S: Serializer>(&self, serializer: &mut S) -> (verdict: Result<
        (),
        SerializeError,
    >) {
        proof {
            lemma_emit_all_one::<S>(serializer.state(), Event::Float(self.value));
        }
        serializer.serialize_float(self.value)
    }
}

/// A string is written as itself.
impl Serialize for String {
    open spec fn events(&self) -> Seq<Event> {
        seq![Event::Str(self@)]
    }

    fn serialize<S: Serializer>(&self, serializer: &mut S) -> (verdict: Result<
        (),
        SerializeError,
    >) {
        proof {
            lemma_emit_all_one::<S>(serializer.state(), Event::Str(self@));
        }
        serializer.serialize_str(self.as_str())
    }
}

/// The unit value is written as a null.
impl Serialize for () {
    open spec fn events(&self) -> Seq<Event> {
        seq![Event::Null]
    }

    fn serialize<S: Serializer>(&self, serializer: &mut S) -> (verdict: Result<
        (),
        SerializeError,
    >) {
        proof {
            lemma_emit_all_one::<S>(serializer.state(), Event::Null);
        }
        serializer.serialize_null()
    }
}

/// An absent value is written as a null, a present one as itself.
impl<T: Serialize> Serialize for Option<T> {
    open spec fn events(&self) -> Seq<Event> {
        match self {
            Some(value) => value.events(),
            None => seq![Event::Null],
        }
    }

    fn serialize<S: Serializer>(&self, serializer: &mut S) -> (verdict: Result<
        (),
        SerializeError,
    >) {
        match self {
            Some(value) => value.serialize(serializer),
            None => {
                proof {
                    lemma_emit_all_one::<S>(serializer.state(), Event::Null);
                }
                serializer.serialize_null()
            },
        }
    }
}

/// The calls that one element of a sequence makes: the announcement of
/// an element, the value's own calls, and the element's close.
pub open spec fn elmt_events<T: Serialize>(value: &T) -> Seq<Event> {
    seq![Event::StartSeqElmt] + value.events() + seq![Event::EndSeqElmt]
}

/// The calls that one member of a record makes: the announcement of the
/// member, the value's own calls, and the member's close.
pub open spec fn field_events<T: Serialize>(
    field_id: u32,
    field_name: Seq<char>,
    value: &T,
) -> Seq<Event> {
    seq![Event::StartStructField(field_id, field_name)] + value.events() + seq![
        Event::EndStructField,
    ]
}

/// Writes one element of a sequence that has been opened.
pub fn serialize_seq_elmt<S: Serializer, T: Serialize>(serializer: &mut S, value: &T) -> (verdict:
    Result<(), SerializeError>)
    ensures
        emitted_all::<S>(
            old(serializer).state(),
            elmt_events(value),
            final(serializer).state(),
            verdict,
        ),
{
    let ghost start = serializer.state();
    proof {
        lemma_emit_all_one::<S>(start, Event::StartSeqElmt);
        lemma_emit_all_concat::<S>(
            start,
            seq![Event::StartSeqElmt],
            value.events() + seq![Event::EndSeqElmt],
        );
        assert(elmt_events(value) =~= seq![Event::StartSeqElmt] + (value.events() + seq![
            Event::EndSeqElmt,
        ]));
    }
    serializer.start_seq_elmt()?;
    proof {
        lemma_emit_all_concat::<S>(serializer.state(), value.events(), seq![Event::EndSeqElmt]);
    }
    value.serialize(serializer)?;
    proof {
        lemma_emit_all_one::<S>(serializer.state(), Event::EndSeqElmt);
    }
    serializer.end_seq_elmt()
}

/// Writes one member of a record that has been opened.
pub fn serialize_struct_field<S: Serializer, T: Serialize>(
    serializer: &mut S,
    field_id: u32,
    field_name: &'static str,
    value: &T,
) -> (verdict: Result<(), SerializeError>)
    ensures
        emitted_all::<S>(
            old(serializer).state(),
            field_events(field_id, field_name@, value),
            final(serializer).state(),
            verdict,
        ),
{
    let ghost start = serializer.state();
    let ghost opening = seq![Event::StartStructField(field_id, field_name@)];
    proof {
        lemma_emit_all_one::<S>(start, Event::StartStructField(field_id, field_name@));
        lemma_emit_all_concat::<S>(start, opening, value.events() + seq![Event::EndStructField]);
        assert(field_events(field_id, field_name@, value) =~= opening + (value.events() + seq![
            Event::EndStructField,
        ]));
    }
    serializer.start_struct_field(field_id, field_name)?;
    proof {
        lemma_emit_all_concat::<S>(
            serializer.state(),
            value.events(),
            seq![Event::EndStructField],
        );
    }
    value.serialize(serializer)?;
    proof {
        lemma_emit_all_one::<S>(serializer.state(), Event::EndStructField);
    }
    serializer.end_struct_field()
}

/// The calls that the elements of a sequence make, each between the
/// announcement of an element and its close.
pub open spec fn element_events<T: Serialize>(values: Seq<T>) -> Seq<Event>
    decreases values.len(),
{
    if values.len() == 0 {
        Seq::empty()
    } else {
        element_events(values.drop_last()) + elmt_events(&values.last())
    }
}

/// A vector is written as a sequence: its length, its elements in order,
/// and its end.
impl<T: Serialize> Serialize for Vec<T> {
    open spec fn events(&self) -> Seq<Event> {
        seq![Event::StartSeq(self@.len() as usize)] + element_events(self@) + seq![Event::EndSeq]
    }

    fn serialize<S: Serializer>(&self, serializer: &mut S) -> (verdict: Result<
        (),
        SerializeError,
    >) {
        let ghost start = serializer.state();
        let ghost opening = seq![Event::StartSeq(self@.len() as usize)];
        proof {
            lemma_emit_all_one::<S>(start, Event::StartSeq(self@.len() as usize));
            lemma_emit_all_concat::<S>(start, opening, element_events(self@) + seq![Event::EndSeq]);
            assert(self.events() =~= opening + (element_events(self@) + seq![Event::EndSeq]));
        }
        serializer.start_seq(self.len())?;
        let ghost opened = serializer.state();
        proof {
            lemma_emit_all_concat::<S>(opened, element_events(self@), seq![Event::EndSeq]);
        }
        let mut index: usize = 0;
        while index < self.len()
            invariant
                index <= self@.len(),
                emit_all::<S>(opened, element_events(self@.take(index as int))) == Ok::<
                    S::State,
                    SerializeError,
                >(serializer.state()),
                emit_all::<S>(opened, element_events(self@)) is Err ==> emit_all::<S>(
                    old(serializer).state(),
                    self.events(),
                ) is Err,
                start == old(serializer).state(),
                emit_all::<S>(start, opening) == Ok::<S::State, SerializeError>(opened),
                opening == seq![Event::StartSeq(self@.len() as usize)],
            decreases self@.len() - index,
        {
            proof {
                let upto = self@.take(index as int + 1);
                assert(upto.drop_last() =~= self@.take(index as int));
                assert(upto.last() == self@[index as int]);
                let taken = element_events(self@.take(index as int));
                let element = elmt_events(&self@[index as int]);
                let rest = element_events(self@.skip(index as int + 1)) + seq![Event::EndSeq];
                lemma_emit_all_concat::<S>(opened, taken, element);
                lemma_refusal_spreads::<S, T>(opened, self@, index as int);
                lemma_element_events_split(self@, index as int + 1);
                assert(self.events() =~= opening + (taken + (element + rest)));
                lemma_emit_all_concat::<S>(start, opening, taken + (element + rest));
                lemma_emit_all_concat::<S>(opened, taken, element + rest);
                lemma_emit_all_concat::<S>(serializer.state(), element, rest);
            }
            serialize_seq_elmt(serializer, &self[index])?;
            index = index + 1;
        }
        proof {
            assert(self@.take(index as int) =~= self@);
            lemma_emit_all_one::<S>(serializer.state(), Event::EndSeq);
        }
        serializer.end_seq()
    }
}

/// The calls of a sequence's elements are those of its first elements and
/// then those of the others.
pub proof fn lemma_element_events_split<T: Serialize>(values: Seq<T>, count: int)
    requires
        0 <= count <= values.len(),
    ensures
        element_events(values) == element_events(values.take(count)) + element_events(
            values.skip(count),
        ),
    decreases values.len(),
{
    if count == values.len() {
        assert(values.take(count) =~= values);
        assert(element_events(values.skip(count)) =~= Seq::<Event>::empty());
        assert(element_events(values) =~= element_events(values) + Seq::<Event>::empty());
    } else {
        let shorter = values.drop_last();
        lemma_element_events_split(shorter, count);
        assert(shorter.take(count) =~= values.take(count));
        assert(shorter.skip(count) =~= values.skip(count).drop_last());
        assert(values.skip(count).last() == values.last());
        assert(element_events(values) =~= element_events(values.take(count)) + element_events(
            values.skip(count),
        ));
    }
}

/// If a sink refuses a call among the first elements of a sequence, it
/// refuses the sequence.
pub proof fn lemma_refusal_spreads<S: Serializer, T: Serialize>(
    state: S::State,
    values: Seq<T>,
    index: int,
)
    requires
        0 <= index < values.len(),
    ensures
        emit_all::<S>(state, element_events(values.take(index + 1))) is Err ==> emit_all::<S>(
            state,
            element_events(values),
        ) is Err,
    decreases values.len(),
{
    if index + 1 == values.len() {
        assert(values.take(index + 1) =~= values);
    } else {
        let shorter = values.drop_last();
        assert(shorter.take(index + 1) =~= values.take(index + 1));
        lemma_refusal_spreads::<S, T>(state, shorter, index);
        lemma_emit_all_concat::<S>(state, element_events(shorter), elmt_events(&values.last()));
    }
}

} // verus!
