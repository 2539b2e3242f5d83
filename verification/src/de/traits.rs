use crate::de::visitor::Token;
use crate::de::visitor::Visitor;
use crate::error::DeserializeError;
use crate::model::Modeled;
use vstd::prelude::*;

verus! {

/// Where the reading of one aggregate stands: whether anything has been read
/// of it yet, and how many elements or members are still due where the
/// format counts them.
#[derive(Debug, Clone, Copy, PartialEq, Eq, Structural)]
pub struct Cursor {
    pub first: bool,
    pub left: Option<usize>,
}

impl Cursor {
    /// The cursor of an aggregate that has just been opened.
    pub fn new(size_hint: Option<usize>) -> (cursor: Cursor)
        ensures
            cursor == (Cursor { first: true, left: size_hint }),
    {
        Cursor { first: true, left: size_hint }
    }
}

/// How a wire format names a record's member: by the binding's number, by
/// its name, or by both.
#[derive(Debug, Clone, PartialEq, Eq)]
pub struct MemberKey {
    pub id: Option<u32>,
    pub name: Option<String>,
}

/// A member's name as the contracts speak of it.
pub type Name = Option<Seq<char>>;

impl View for MemberKey {
    type V = (Option<u32>, Name);

    open spec fn view(&self) -> (Option<u32>, Name) {
        (
            self.id,
            match self.name {
                Some(name) => Some(name@),
                None => None,
            },
        )
    }
}

/// A reader of one wire format. It hands the token at the head of its input
/// to a destination, and steps through the elements of a sequence and the
/// members of a record for whoever fills an aggregate.
///
/// What a reader does is a function of its state: the spec functions say
/// what follows from a state, and each method's contract refers to them.
pub trait Deserializer: Sized {
    /// The reader's invariant.
    spec fn well_formed(&self) -> bool;

    /// A bound on the input that is left; reading a token lowers it.
    spec fn remaining(&self) -> nat;

    /// The token at the head of the input and the state behind it, or the
    /// reason why no token can be read.
    spec fn head(&self) -> Result<(Token, Self), DeserializeError>;

    /// Inside a sequence: whether another element follows, with the state in
    /// front of it, or the sequence closes, with the state behind it.
    spec fn element(&self, cursor: Cursor) -> Result<(bool, Self, Cursor), DeserializeError>;

    /// Inside a record: the key of the next member, with the state in front
    /// of its value, or `None` where the record closes, with the state behind
    /// it.
    spec fn member(&self, cursor: Cursor) -> Result<
        (Option<(Option<u32>, Name)>, Self, Cursor),
        DeserializeError,
    >;

    /// Reading a token uses input up.
    proof fn head_advances(&self)
        requires
            self.well_formed(),
        ensures
            self.head() matches Ok((_, next)) ==> next.well_formed() && next.remaining()
                < self.remaining(),
    ;

    /// Stepping to an element gives no input back.
    proof fn element_advances(&self, cursor: Cursor)
        requires
            self.well_formed(),
        ensures
            self.element(cursor) matches Ok((_, next, _)) ==> next.well_formed()
                && next.remaining() <= self.remaining(),
    ;

    /// Stepping to a member gives no input back.
    proof fn member_advances(&self, cursor: Cursor)
        requires
            self.well_formed(),
        ensures
            self.member(cursor) matches Ok((_, next, _)) ==> next.well_formed() && next.remaining()
                <= self.remaining(),
    ;

    /// Reads the token at the head of the input and hands it to `visitor`
    /// through the method of its kind. Where no token can be read the visitor
    /// is left alone.
    fn deserialize<V: Visitor>(&mut self, visitor: &mut V) -> (verdict: Result<
        (),
        DeserializeError,
    >)
        requires
            old(self).well_formed(),
        ensures
            final(self).well_formed(),
            match old(self).head() {
                Ok((token, next)) => {
                    &&& old(visitor).accepts(token, *final(visitor), verdict)
                    &&& verdict is Ok ==> *final(self) == next
                },
                Err(error) => {
                    &&& verdict == Err::<(), DeserializeError>(error)
                    &&& *final(visitor) == *old(visitor)
                },
            },
    ;

    /// Reads the token at the head of the input if it is a null, and says
    /// whether it did. Anything else stays where it is.
    fn take_null(&mut self) -> (taken: bool)
        requires
            old(self).well_formed(),
        ensures
            final(self).well_formed(),
            match old(self).head() {
                Ok((Token::Null, next)) => taken && *final(self) == next,
                _ => !taken && *final(self) == *old(self),
            },
    ;

    /// Steps to the next element of the sequence that `cursor` follows.
    /// `Ok(true)`: an element is at the head of the input. `Ok(false)`: the
    /// sequence has been closed.
    fn next_element(&mut self, cursor: &mut Cursor) -> (more: Result<bool, DeserializeError>)
        requires
            old(self).well_formed(),
        ensures
            final(self).well_formed(),
            match old(self).element(*old(cursor)) {
                Ok((follows, next, moved)) => {
                    &&& more == Ok::<bool, DeserializeError>(follows)
                    &&& *final(self) == next
                    &&& *final(cursor) == moved
                },
                Err(error) => more == Err::<bool, DeserializeError>(error),
            },
    ;

    /// Steps to the next member of the record that `cursor` follows.
    /// `Ok(Some(key))`: the member's value is at the head of the input.
    /// `Ok(None)`: the record has been closed.
    fn next_member(&mut self, cursor: &mut Cursor) -> (key: Result<
        Option<MemberKey>,
        DeserializeError,
    >)
        requires
            old(self).well_formed(),
        ensures
            final(self).well_formed(),
            match old(self).member(*old(cursor)) {
                Ok((found, next, moved)) => {
                    &&& key is Ok
                    &&& match key.unwrap() {
                        Some(k) => found == Some(k@),
                        None => found is None,
                    }
                    &&& *final(self) == next
                    &&& *final(cursor) == moved
                },
                Err(error) => key == Err::<Option<MemberKey>, DeserializeError>(error),
            },
    ;
}

/// A type that can be read from the wire format that `D` reads.
pub trait Deserialize<D: Deserializer>: Sized + Modeled {
    /// The value that a reader in state `de` yields and the state behind it,
    /// or the reason why it yields none.
    spec fn parsed(de: D) -> Result<(Self::Model, D), DeserializeError>;

    /// Reading a value uses input up.
    proof fn parsed_advances(de: D)
        requires
            de.well_formed(),
        ensures
            Self::parsed(de) matches Ok((_, next)) ==> next.well_formed() && next.remaining()
                < de.remaining(),
    ;

    /// Reads one value from `de`.
    fn deserialize(de: &mut D) -> (value: Result<Self, DeserializeError>)
        requires
            old(de).well_formed(),
        ensures
            final(de).well_formed(),
            match Self::parsed(*old(de)) {
                Ok((model, next)) => {
                    &&& value is Ok
                    &&& value.unwrap().model() == model
                    &&& *final(de) == next
                },
                Err(error) => value == Err::<Self, DeserializeError>(error),
            },
    ;
}

} // verus!
