use crate::error::DeserializeError;
use crate::number::Float;
use vstd::prelude::*;

verus! {

/// One token of a wire format, as a destination sees it: one of the six
/// scalar kinds, or the opening of an aggregate.
pub enum Token {
    Null,
    Bool(bool),
    Signed(i64),
    Unsigned(u64),
    Float(Float),
    Str(Seq<char>),
    /// A sequence opens; the format may know how many elements follow.
    Sequence(Option<usize>),
    /// A record opens; the format may know how many members follow.
    Record(Option<usize>),
}

/// A destination that a wire format hands tokens to. Each method takes the
/// token of one kind; a destination that has no use for a kind answers
/// `UnimplementedVisit`.
pub trait Visitor: Sized {
    /// Whether a destination in state `self` that is handed `token` may end
    /// in state `after` with `verdict`.
    spec fn accepts(
        self,
        token: Token,
        after: Self,
        verdict: Result<(), DeserializeError>,
    ) -> bool;

    fn visit_null(&mut self) -> (verdict: Result<(), DeserializeError>)
        ensures
            old(self).accepts(Token::Null, *final(self), verdict),
    ;

    fn visit_bool(&mut self, value: bool) -> (verdict: Result<(), DeserializeError>)
        ensures
            old(self).accepts(Token::Bool(value), *final(self), verdict),
    ;

    fn visit_signed(&mut self, value: i64) -> (verdict: Result<(), DeserializeError>)
        ensures
            old(self).accepts(Token::Signed(value), *final(self), verdict),
    ;

    fn visit_unsigned(&mut self, value: u64) -> (verdict: Result<(), DeserializeError>)
        ensures
            old(self).accepts(Token::Unsigned(value), *final(self), verdict),
    ;

    fn visit_float(&mut self, value: Float) -> (verdict: Result<(), DeserializeError>)
        ensures
            old(self).accepts(Token::Float(value), *final(self), verdict),
    ;

    fn visit_str(&mut self, value: &str) -> (verdict: Result<(), DeserializeError>)
        ensures
            old(self).accepts(Token::Str(value@), *final(self), verdict),
    ;

    /// A sequence opens. A destination that answers `Ok` is then given the
    /// elements by whoever drives the format.
    fn visit_seq(&mut self, size_hint: Option<usize>) -> (verdict: Result<(), DeserializeError>)
        ensures
            old(self).accepts(Token::Sequence(size_hint), *final(self), verdict),
    ;

    /// A record opens. A destination that answers `Ok` is then given the
    /// members by whoever drives the format.
    fn visit_struct(&mut self, size_hint: Option<usize>) -> (verdict: Result<
        (),
        DeserializeError,
    >)
        ensures
            old(self).accepts(Token::Record(size_hint), *final(self), verdict),
    ;
}

/// A destination that takes nothing: every token is answered with
/// `UnimplementedVisit`.
pub struct Reject;

impl Visitor for Reject {
    open spec fn accepts(
        self,
        token: Token,
        after: Self,
        verdict: Result<(), DeserializeError>,
    ) -> bool {
        verdict == Err::<(), DeserializeError>(DeserializeError::UnimplementedVisit)
    }

    fn visit_null(&mut self) -> (verdict: Result<(), DeserializeError>) {
        Err(DeserializeError::UnimplementedVisit)
    }

    fn visit_bool(&mut self, value: bool) -> (verdict: Result<(), DeserializeError>) {
        Err(DeserializeError::UnimplementedVisit)
    }

    fn visit_signed(&mut self, value: i64) -> (verdict: Result<(), DeserializeError>) {
        Err(DeserializeError::UnimplementedVisit)
    }

    fn visit_unsigned(&mut self, value: u64) -> (verdict: Result<(), DeserializeError>) {
        Err(DeserializeError::UnimplementedVisit)
    }

    fn visit_float(&mut self, value: Float) -> (verdict: Result<(), DeserializeError>) {
        Err(DeserializeError::UnimplementedVisit)
    }

    fn visit_str(&mut self, value: &str) -> (verdict: Result<(), DeserializeError>) {
        Err(DeserializeError::UnimplementedVisit)
    }

    fn visit_seq(&mut self, size_hint: Option<usize>) -> (verdict: Result<(), DeserializeError>) {
        Err(DeserializeError::UnimplementedVisit)
    }

    fn visit_struct(&mut self, size_hint: Option<usize>) -> (verdict: Result<
        (),
        DeserializeError,
    >) {
        Err(DeserializeError::UnimplementedVisit)
    }
}

} // verus!
