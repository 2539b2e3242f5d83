use crate::error::SerializeError;
use crate::number::Float;
use vstd::prelude::*;

verus! {

/// One call that a value makes on a sink while it is written.
pub enum Event {
    Null,
    Bool(bool),
    Signed(i64),
    Unsigned(u64),
    Float(Float),
    Str(Seq<char>),
    /// An enum's variant, by the binding's number and name.
    Enum(u32, Seq<char>),
    /// A record of so many members opens.
    StartStruct(usize),
    /// A member's value follows, under the binding's number and name.
    StartStructField(u32, Seq<char>),
    /// The member's value is complete.
    EndStructField,
    EndStruct,
    /// A sequence of so many elements opens.
    StartSeq(usize),
    /// An element follows.
    StartSeqElmt,
    /// The element is complete.
    EndSeqElmt,
    EndSeq,
}

/// A sink that a value is written into, call by call. A value opens and
/// closes every aggregate, member and element that it starts, so that the
/// calls nest; what the sink makes of them is the wire format's matter.
///
/// A sink's state has a model, and what a call does is a function of the
/// model: `emit` says which model follows, or that the sink refuses. The
/// state is what the calls that the sink took have built: a call that it
/// refuses leaves the state as it was.
pub trait Serializer: Sized {
    /// What the contracts take the sink's state to be.
    type State;

    /// The sink's state.
    spec fn state(&self) -> Self::State;

    /// The state that follows when `event` arrives in `state`.
    spec fn emit(state: Self::State, event: Event) -> Result<Self::State, SerializeError>;

    fn serialize_null(&mut self) -> (verdict: Result<(), SerializeError>)
        ensures
            match Self::emit(old(self).state(), Event::Null) {
                Ok(next) => verdict is Ok && final(self).state() == next,
                Err(_) => verdict is Err && final(self).state() == old(self).state(),
            },
    ;

    fn serialize_bool(&mut self, value: bool) -> (verdict: Result<(), SerializeError>)
        ensures
            match Self::emit(old(self).state(), Event::Bool(value)) {
                Ok(next) => verdict is Ok && final(self).state() == next,
                Err(_) => verdict is Err && final(self).state() == old(self).state(),
            },
    ;

    fn serialize_signed(&mut self, value: i64) -> (verdict: Result<(), SerializeError>)
        ensures
            match Self::emit(old(self).state(), Event::Signed(value)) {
                Ok(next) => verdict is Ok && final(self).state() == next,
                Err(_) => verdict is Err && final(self).state() == old(self).state(),
            },
    ;

    fn serialize_unsigned(&mut self, value: u64) -> (verdict: Result<(), SerializeError>)
        ensures
            match Self::emit(old(self).state(), Event::Unsigned(value)) {
                Ok(next) => verdict is Ok && final(self).state() == next,
                Err(_) => verdict is Err && final(self).state() == old(self).state(),
            },
    ;

    fn serialize_float(&mut self, value: Float) -> (verdict: Result<(), SerializeError>)
        ensures
            match Self::emit(old(self).state(), Event::Float(value)) {
                Ok(next) => verdict is Ok && final(self).state() == next,
                Err(_) => verdict is Err && final(self).state() == old(self).state(),
            },
    ;

    fn serialize_str(&mut self, value: &str) -> (verdict: Result<(), SerializeError>)
        ensures
            match Self::emit(old(self).state(), Event::Str(value@)) {
                Ok(next) => verdict is Ok && final(self).state() == next,
                Err(_) => verdict is Err && final(self).state() == old(self).state(),
            },
    ;

    fn serialize_enum(&mut self, value: u32, name: &'static str) -> (verdict: Result<
        (),
        SerializeError,
    >)
        ensures
            match Self::emit(old(self).state(), Event::Enum(value, name@)) {
                Ok(next) => verdict is Ok && final(self).state() == next,
                Err(_) => verdict is Err && final(self).state() == old(self).state(),
            },
    ;

    fn start_struct(&mut self, len: usize) -> (verdict: Result<(), SerializeError>)
        ensures
            match Self::emit(old(self).state(), Event::StartStruct(len)) {
                Ok(next) => verdict is Ok && final(self).state() == next,
                Err(_) => verdict is Err && final(self).state() == old(self).state(),
            },
    ;

    /// Announces the member whose value the caller writes next.
    fn start_struct_field(&mut self, field_id: u32, field_name: &'static str) -> (verdict:
        Result<(), SerializeError>)
        ensures
            match Self::emit(old(self).state(), Event::StartStructField(field_id, field_name@)) {
                Ok(next) => verdict is Ok && final(self).state() == next,
                Err(_) => verdict is Err && final(self).state() == old(self).state(),
            },
    ;

    /// Closes the member whose value has been written.
    fn end_struct_field(&mut self) -> (verdict: Result<(), SerializeError>)
        ensures
            match Self::emit(old(self).state(), Event::EndStructField) {
                Ok(next) => verdict is Ok && final(self).state() == next,
                Err(_) => verdict is Err && final(self).state() == old(self).state(),
            },
    ;

    fn end_struct(&mut self) -> (verdict: Result<(), SerializeError>)
        ensures
            match Self::emit(old(self).state(), Event::EndStruct) {
                Ok(next) => verdict is Ok && final(self).state() == next,
                Err(_) => verdict is Err && final(self).state() == old(self).state(),
            },
    ;

    fn start_seq(&mut self, len: usize) -> (verdict: Result<(), SerializeError>)
        ensures
            match Self::emit(old(self).state(), Event::StartSeq(len)) {
                Ok(next) => verdict is Ok && final(self).state() == next,
                Err(_) => verdict is Err && final(self).state() == old(self).state(),
            },
    ;

    /// Announces the element that the caller writes next.
    fn start_seq_elmt(&mut self) -> (verdict: Result<(), SerializeError>)
        ensures
            match Self::emit(old(self).state(), Event::StartSeqElmt) {
                Ok(next) => verdict is Ok && final(self).state() == next,
                Err(_) => verdict is Err && final(self).state() == old(self).state(),
            },
    ;

    /// Closes the element that has been written.
    fn end_seq_elmt(&mut self) -> (verdict: Result<(), SerializeError>)
        ensures
            match Self::emit(old(self).state(), Event::EndSeqElmt) {
                Ok(next) => verdict is Ok && final(self).state() == next,
                Err(_) => verdict is Err && final(self).state() == old(self).state(),
            },
    ;

    fn end_seq(&mut self) -> (verdict: Result<(), SerializeError>)
        ensures
            match Self::emit(old(self).state(), Event::EndSeq) {
                Ok(next) => verdict is Ok && final(self).state() == next,
                Err(_) => verdict is Err && final(self).state() == old(self).state(),
            },
    ;
}

/// The state that follows when `events` arrive one after the other, or the
/// refusal of the first that the sink does not take.
pub open spec fn emit_all<S: Serializer>(state: S::State, events: Seq<Event>) -> Result<
    S::State,
    SerializeError,
>
    decreases events.len(),
{
    if events.len() == 0 {
        Ok(state)
    } else {
        match S::emit(state, events[0]) {
            Ok(next) => emit_all::<S>(next, events.drop_first()),
            Err(error) => Err(error),
        }
    }
}

/// The state in which the events leave a sink that gets them one after the
/// other up to the first that it refuses, and none after that one.
pub open spec fn settled<S: Serializer>(state: S::State, events: Seq<Event>) -> S::State
    decreases events.len(),
{
    if events.len() == 0 {
        state
    } else {
        match S::emit(state, events[0]) {
            Ok(next) => settled::<S>(next, events.drop_first()),
            Err(_) => state,
        }
    }
}

/// Whether a sink that was in state `before` when `events` arrived is in
/// state `after` and has answered `verdict`: it has taken them all, or it
/// has refused one and got none after that one.
pub open spec fn emitted_all<S: Serializer>(
    before: S::State,
    events: Seq<Event>,
    after: S::State,
    verdict: Result<(), SerializeError>,
) -> bool {
    match emit_all::<S>(before, events) {
        Ok(next) => verdict is Ok && after == next,
        Err(_) => verdict is Err && after == settled::<S>(before, events),
    }
}

/// Events that arrive in two runs do what they do in one, and settle as
/// they do in one: the second run counts only where the sink took all of
/// the first.
pub proof fn lemma_emit_all_concat<S: Serializer>(
    state: S::State,
    first: Seq<Event>,
    second: Seq<Event>,
)
    ensures
        emit_all::<S>(state, first + second) == match emit_all::<S>(state, first) {
            Ok(next) => emit_all::<S>(next, second),
            Err(error) => Err(error),
        },
        settled::<S>(state, first + second) == match emit_all::<S>(state, first) {
            Ok(next) => settled::<S>(next, second),
            Err(_) => settled::<S>(state, first),
        },
    decreases first.len(),
{
    if first.len() == 0 {
        assert(first + second =~= second);
    } else {
        assert((first + second)[0] == first[0]);
        assert((first + second).drop_first() =~= first.drop_first() + second);
        if let Ok(next) = S::emit(state, first[0]) {
            lemma_emit_all_concat::<S>(next, first.drop_first(), second);
        }
    }
}

/// One event alone does what it does.
pub proof fn lemma_emit_all_one<S: Serializer>(state: S::State, event: Event)
    ensures
        emit_all::<S>(state, seq![event]) == S::emit(state, event),
        settled::<S>(state, seq![event]) == match S::emit(state, event) {
            Ok(next) => next,
            Err(_) => state,
        },
{
    reveal_with_fuel(emit_all, 2);
    reveal_with_fuel(settled, 2);
    assert(seq![event].drop_first() =~= Seq::<Event>::empty());
}

/// A type that can be written into any sink.
pub trait Serialize {
    /// The calls that the value makes on a sink, in order.
    spec fn events(&self) -> Seq<Event>;

    /// Writes the value into `serializer`. The first call that the sink
    /// refuses ends the writing.
    fn serialize<S: Serializer>(&self, serializer: &mut S) -> (verdict: Result<(), SerializeError>)
        ensures
            emitted_all::<S>(old(serializer).state(), self.events(), final(serializer).state(), verdict),
    ;
}

} // verus!
