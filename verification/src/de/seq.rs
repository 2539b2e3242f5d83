use crate::de::traits::Cursor;
use crate::de::visitor::Token;
use crate::de::visitor::Visitor;
use crate::error::DeserializeError;
use crate::number::Float;
use vstd::prelude::*;

verus! {

/// The destination of a sequence. It takes the token that opens a sequence,
/// then the elements one by one, and gives the whole up when it is finished.
pub struct SeqBuilder<T> {
    /// The cursor of the sequence, once it has been opened.
    pub cursor: Option<Cursor>,
    /// The elements that have arrived.
    pub vec: Vec<T>,
}

impl<T> SeqBuilder<T> {
    /// A destination that waits for a sequence to open.
    pub fn new() -> (builder: Self)
        ensures
            builder.cursor is None,
            builder.vec@ == Seq::<T>::empty(),
    {
        SeqBuilder { cursor: None, vec: Vec::new() }
    }

    /// Takes the next element.
    pub fn element(&mut self, value: T)
        ensures
            final(self).cursor == old(self).cursor,
            final(self).vec@ == old(self).vec@.push(value),
    {
        self.vec.push(value);
    }

    /// Gives the sequence up. A destination that no sequence was opened for
    /// has none to give.
    pub fn finish(self) -> (out: Result<Vec<T>, DeserializeError>)
        ensures
            match self.cursor {
                Some(_) => out == Ok::<Vec<T>, DeserializeError>(self.vec),
                None => out == Err::<Vec<T>, DeserializeError>(DeserializeError::UnknownError),
            },
    {
        match self.cursor {
            Some(_) => Ok(self.vec),
            None => Err(DeserializeError::UnknownError),
        }
    }
}

/// Of all tokens the destination takes the one that opens a sequence, and
/// keeps the cursor that follows the sequence.
impl<T> Visitor for SeqBuilder<T> {
    open spec fn accepts(
        self,
        token: Token,
        after: Self,
        verdict: Result<(), DeserializeError>,
    ) -> bool {
        match token {
            Token::Sequence(size_hint) => {
                &&& verdict is Ok
                &&& after.cursor == Some(Cursor { first: true, left: size_hint })
                &&& after.vec == self.vec
            },
            _ => verdict == Err::<(), DeserializeError>(DeserializeError::UnimplementedVisit)
                && after == self,
        }
    }

    fn visit_null(&mut self) -> (verdict: Result<(), DeserializeError>) {
        Err(DeserializeError::UnimplementedVisit)
    }

    fn visit_bool(&mut self, value: bool) -> (verdict: Result<(), DeserializeError>) {
        Err(DeserializeError::UnimplementedVisit)
    }

    fn visit_signed(&mut self, value: i64) -> (verdict: Result<(), DeserializeError>) {
        Err(DeserializeError::UnimplementedVisit)
    }

    fn visit_unsigned(&mut self, value: u64) -> (verdict: Result<(), DeserializeError>) {
        Err(DeserializeError::UnimplementedVisit)
    }

    fn visit_float(&mut self, value: Float) -> (verdict: Result<(), DeserializeError>) {
        Err(DeserializeError::UnimplementedVisit)
    }

    fn visit_str(&mut self, value: &str) -> (verdict: Result<(), DeserializeError>) {
        Err(DeserializeError::UnimplementedVisit)
    }

    fn visit_seq(&mut self, size_hint: Option<usize>) -> (verdict: Result<(), DeserializeError>) {
        self.cursor = Some(Cursor::new(size_hint));
        Ok(())
    }

    fn visit_struct(&mut self, size_hint: Option<usize>) -> (verdict: Result<
        (),
        DeserializeError,
    >) {
        Err(DeserializeError::UnimplementedVisit)
    }
}

} // verus!
