use crate::bindings::key::id_literal;
use crate::bindings::key::parse_id;
use crate::bindings::table::find_id;
use crate::bindings::table::find_name;
use crate::bindings::table::id_at;
use crate::bindings::table::lemma_id_at;
use crate::bindings::table::lemma_name_at;
use crate::bindings::table::lemma_resolved;
use crate::bindings::table::name_at;
use crate::bindings::table::resolve;
use crate::bindings::table::resolved;
use crate::bindings::table::Entry;
use crate::de::traits::Deserializer;
use crate::de::visitor::Token;
use crate::de::visitor::Visitor;
use crate::error::DeserializeError;
use crate::error::SerializeError;
use crate::number::Float;
use crate::ser::traits::emitted_all;
use crate::ser::traits::lemma_emit_all_one;
use crate::ser::traits::Event;
use crate::ser::traits::Serializer;
use crate::text::chars::chars_of;
use crate::text::chars::first_of;
use vstd::prelude::*;
use vstd::slice::slice_subrange;

verus! {

/// The variant that a text names. A composite `id:name` names the variant
/// with that number, or else the one with that name; a text without a colon
/// is a name as a whole.
pub open spec fn variant_of_text(variants: Seq<Entry>, text: Seq<char>) -> Option<int> {
    let colon = first_of(text, 0, ':');
    if colon < text.len() {
        resolved(variants, id_literal(text.take(colon)), Some(text.skip(colon + 1)))
    } else {
        name_at(variants, text, 0)
    }
}

/// What the destination of an enum makes of a token: a string names a
/// variant by number or by name, a number that is not negative names it by
/// number.
pub open spec fn variant_of(variants: Seq<Entry>, token: Token) -> Result<int, DeserializeError> {
    match token {
        Token::Str(text) => match variant_of_text(variants, text) {
            Some(index) => Ok(index),
            None => Err(DeserializeError::UnknownEnumVariant),
        },
        Token::Signed(value) => match id_at(variants, value as int, 0) {
            Some(index) => Ok(index),
            None => Err(DeserializeError::UnknownEnumVariant),
        },
        Token::Unsigned(value) => match id_at(variants, value as int, 0) {
            Some(index) => Ok(index),
            None => Err(DeserializeError::UnknownEnumVariant),
        },
        _ => Err(DeserializeError::UnimplementedVisit),
    }
}

/// The slot that an enum's variant is read into: it holds the variant's
/// position in the binding's table.
pub struct EnumPlace<'a> {
    pub variants: &'a [Entry],
    pub out: Option<usize>,
}

impl<'a> EnumPlace<'a> {
    /// An empty slot for a variant of the table.
    pub fn new(variants: &'a [Entry]) -> (place: Self)
        ensures
            place.variants == variants,
            place.out is None,
    {
        EnumPlace { variants, out: None }
    }

    /// Fills the slot with the variant that has the number.
    fn put(&mut self, id: u64) -> (verdict: Result<(), DeserializeError>)
        ensures
            final(self).variants == old(self).variants,
            match id_at(old(self).variants@, id as int, 0) {
                Some(index) => verdict is Ok && final(self).out == Some(index as usize),
                None => {
                    &&& verdict == Err::<(), DeserializeError>(
                        DeserializeError::UnknownEnumVariant,
                    )
                    &&& *final(self) == *old(self)
                },
            },
    {
        match find_id(self.variants, id) {
            Some(index) => {
                self.out = Some(index);
                Ok(())
            },
            None => Err(DeserializeError::UnknownEnumVariant),
        }
    }
}

/// The slot of an enum takes a string and a number.
impl<'a> Visitor for EnumPlace<'a> {
    open spec fn accepts(
        self,
        token: Token,
        after: Self,
        verdict: Result<(), DeserializeError>,
    ) -> bool {
        match variant_of(self.variants@, token) {
            Ok(index) => {
                &&& verdict is Ok
                &&& after.out == Some(index as usize)
                &&& after.variants == self.variants
            },
            Err(error) => verdict == Err::<(), DeserializeError>(error) && after == self,
        }
    }

    fn visit_null(&mut self) -> (verdict: Result<(), DeserializeError>) {
        Err(DeserializeError::UnimplementedVisit)
    }

    fn visit_bool(&mut self, value: bool) -> (verdict: Result<(), DeserializeError>) {
        Err(DeserializeError::UnimplementedVisit)
    }

    fn visit_signed(&mut self, value: i64) -> (verdict: Result<(), DeserializeError>) {
        if value < 0 {
            proof {
                lemma_id_at(self.variants@, value as int, 0);
            }
            Err(DeserializeError::UnknownEnumVariant)
        } else {
            self.put(value as u64)
        }
    }

    fn visit_unsigned(&mut self, value: u64) -> (verdict: Result<(), DeserializeError>) {
        self.put(value)
    }

    fn visit_float(&mut self, value: Float) -> (verdict: Result<(), DeserializeError>) {
        Err(DeserializeError::UnimplementedVisit)
    }

    fn visit_str(&mut self, value: &str) -> (verdict: Result<(), DeserializeError>) {
        let text = chars_of(value);
        let mut colon: usize = 0;
        while colon < text.len() && text[colon] != ':'
            invariant
                colon <= text@.len(),
                first_of(text@, 0, ':') == first_of(text@, colon as int, ':'),
            decreases text@.len() - colon,
        {
            colon = colon + 1;
        }
        let found = if colon < text.len() {
            let prefix = slice_subrange(text.as_slice(), 0, colon);
            let name = slice_subrange(text.as_slice(), colon + 1, text.len());
            assert(prefix@ =~= text@.take(colon as int));
            assert(name@ =~= text@.skip(colon + 1));
            resolve(self.variants, parse_id(prefix), Some(name))
        } else {
            find_name(self.variants, text.as_slice())
        };
        match found {
            Some(index) => {
                self.out = Some(index);
                Ok(())
            },
            None => Err(DeserializeError::UnknownEnumVariant),
        }
    }

    fn visit_seq(&mut self, size_hint: Option<usize>) -> (verdict: Result<(), DeserializeError>) {
        Err(DeserializeError::UnimplementedVisit)
    }

    fn visit_struct(&mut self, size_hint: Option<usize>) -> (verdict: Result<
        (),
        DeserializeError,
    >) {
        Err(DeserializeError::UnimplementedVisit)
    }
}

/// The variant that a reader in state `de` yields, as its position in the
/// table, and the state behind it.
pub open spec fn parsed_enum<D: Deserializer>(variants: Seq<Entry>, de: D) -> Result<
    (int, D),
    DeserializeError,
> {
    match de.head() {
        Ok((token, next)) => match variant_of(variants, token) {
            Ok(index) => Ok((index, next)),
            Err(error) => Err(error),
        },
        Err(error) => Err(error),
    }
}

/// Reads a variant of the enum whose table is `variants`, and returns its
/// position in the table.
pub fn deserialize_enum<D: Deserializer>(variants: &[Entry], de: &mut D) -> (index: Result<
    usize,
    DeserializeError,
>)
    requires
        old(de).well_formed(),
    ensures
        final(de).well_formed(),
        match parsed_enum(variants@, *old(de)) {
            Ok((found, next)) => {
                &&& index == Ok::<usize, DeserializeError>(found as usize)
                &&& found < variants@.len()
                &&& *final(de) == next
            },
            Err(error) => index == Err::<usize, DeserializeError>(error),
        },
{
    let mut place = EnumPlace::new(variants);
    proof {
        if let Ok((token, _)) = de.head() {
            match token {
                Token::Str(text) => {
                    let colon = first_of(text, 0, ':');
                    lemma_resolved(
                        variants@,
                        id_literal(text.take(colon)),
                        Some(text.skip(colon + 1)),
                    );
                    lemma_name_at(variants@, text, 0);
                },
                Token::Signed(value) => {
                    lemma_id_at(variants@, value as int, 0);
                },
                Token::Unsigned(value) => {
                    lemma_id_at(variants@, value as int, 0);
                },
                _ => {},
            }
        }
    }
    de.deserialize(&mut place)?;
    match place.out {
        Some(index) => Ok(index),
        None => Err(DeserializeError::UnknownError),
    }
}

/// Writes the variant at `index` of the enum whose table is `variants`: one
/// call that carries the variant's number and name. A position outside the
/// table is refused.
pub fn serialize_enum<S: Serializer>(variants: &[Entry], index: usize, serializer: &mut S) -> (verdict:
    Result<(), SerializeError>)
    ensures
        if index < variants@.len() {
            emitted_all::<S>(
                old(serializer).state(),
                seq![Event::Enum(variants@[index as int].id, variants@[index as int].name@)],
                final(serializer).state(),
                verdict,
            )
        } else {
            verdict is Err && final(serializer).state() == old(serializer).state()
        },
{
    if index < variants.len() {
        proof {
            lemma_emit_all_one::<S>(
                serializer.state(),
                Event::Enum(variants@[index as int].id, variants@[index as int].name@),
            );
        }
        serializer.serialize_enum(variants[index].id, variants[index].name)
    } else {
        Err(SerializeError)
    }
}

} // verus!
