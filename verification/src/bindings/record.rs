use crate::bindings::table::lemma_resolved;
use crate::bindings::table::resolve;
use crate::bindings::table::resolved;
use crate::bindings::table::Entry;
use crate::de::traits::Cursor;
use crate::de::traits::MemberKey;
use crate::de::visitor::Token;
use crate::de::visitor::Visitor;
use crate::error::DeserializeError;
use crate::number::Float;
use crate::text::chars::chars_of;
use vstd::prelude::*;

verus! {

/// The position of the first member at or behind `from` that has not
/// arrived.
pub open spec fn missing_at(filled: Seq<bool>, from: int) -> Option<int>
    decreases filled.len() - from,
{
    if from < 0 || from >= filled.len() {
        None
    } else if !filled[from] {
        Some(from)
    } else {
        missing_at(filled, from + 1)
    }
}

/// A member that is missing lies within the table.
pub proof fn lemma_missing_at(filled: Seq<bool>, from: int)
    requires
        0 <= from,
    ensures
        missing_at(filled, from) matches Some(index) ==> from <= index < filled.len()
            && !filled[index],
        missing_at(filled, from) is None ==> forall|i: int|
            from <= i < filled.len() ==> #[trigger] filled[i],
    decreases filled.len() - from,
{
    if from < filled.len() && filled[from] {
        lemma_missing_at(filled, from + 1);
    }
}

/// A member that has not arrived is missed at the end: the first of those
/// that have not arrived is found, and it stands no later than the member.
pub proof fn lemma_missing_member(filled: Seq<bool>, index: int)
    requires
        0 <= index < filled.len(),
        !filled[index],
    ensures
        missing_at(filled, 0) matches Some(first) && 0 <= first <= index && !filled[first]
            && forall|i: int| 0 <= i < first ==> filled[i],
{
    lemma_missing_at(filled, 0);
    lemma_first_missing(filled, 0);
}

/// Every member before the first that is missing has arrived.
proof fn lemma_first_missing(filled: Seq<bool>, from: int)
    requires
        0 <= from,
    ensures
        missing_at(filled, from) matches Some(first) ==> forall|i: int|
            from <= i < first ==> filled[i],
    decreases filled.len() - from,
{
    if from < filled.len() && filled[from] {
        lemma_first_missing(filled, from + 1);
    }
}

/// The name of an optional key, as the contracts speak of it.
pub open spec fn name_of(name: Option<&str>) -> Option<Seq<char>> {
    match name {
        Some(name) => Some(name@),
        None => None,
    }
}

/// The destination of a record. It takes the token that opens a record,
/// resolves the key of each member that arrives to the member's position in
/// the binding's table, and knows at the end which members have not come.
pub struct StructBuilder<'a> {
    /// The binding's table.
    pub fields: &'a [Entry],
    /// For each member, whether it has arrived.
    pub filled: Vec<bool>,
    /// The cursor of the record, once it has been opened.
    pub cursor: Option<Cursor>,
}

impl<'a> StructBuilder<'a> {
    /// The builder keeps one mark for each member of the table.
    pub open spec fn well_formed(&self) -> bool {
        self.filled@.len() == self.fields@.len()
    }

    /// A destination for a record of the table, of which no member has
    /// arrived.
    pub fn new(fields: &'a [Entry]) -> (builder: Self)
        ensures
            builder.well_formed(),
            builder.fields == fields,
            builder.cursor is None,
            forall|i: int| 0 <= i < fields@.len() ==> !builder.filled@[i],
    {
        let mut filled: Vec<bool> = Vec::new();
        let mut index: usize = 0;
        while index < fields.len()
            invariant
                index <= fields@.len(),
                filled@.len() == index,
                forall|i: int| 0 <= i < index ==> !filled@[i],
            decreases fields@.len() - index,
        {
            filled.push(false);
            index = index + 1;
        }
        StructBuilder { fields, filled, cursor: None }
    }

    /// Resolves the key of a member that arrives: by its number first, by
    /// its name where no member has the number. Returns the member's
    /// position in the table and marks it as arrived. A key that names no
    /// member is `UnknownField`.
    pub fn member(&mut self, id: Option<u32>, name: Option<&str>) -> (index: Result<
        usize,
        DeserializeError,
    >)
        requires
            old(self).well_formed(),
        ensures
            final(self).well_formed(),
            final(self).fields == old(self).fields,
            final(self).cursor == old(self).cursor,
            match resolved(old(self).fields@, id, name_of(name)) {
                Some(found) => {
                    &&& index == Ok::<usize, DeserializeError>(found as usize)
                    &&& 0 <= found < old(self).fields@.len()
                    &&& final(self).filled@ == old(self).filled@.update(found, true)
                },
                None => {
                    &&& index == Err::<usize, DeserializeError>(DeserializeError::UnknownField)
                    &&& final(self).filled@ == old(self).filled@
                },
            },
    {
        proof {
            lemma_resolved(self.fields@, id, name_of(name));
        }
        let found = match name {
            Some(name) => {
                let chars = chars_of(name);
                resolve(self.fields, id, Some(chars.as_slice()))
            },
            None => resolve(self.fields, id, None),
        };
        match found {
            Some(index) => {
                self.filled.set(index, true);
                Ok(index)
            },
            None => Err(DeserializeError::UnknownField),
        }
    }

    /// Resolves the key that a reader has given.
    pub fn member_of(&mut self, key: &MemberKey) -> (index: Result<usize, DeserializeError>)
        requires
            old(self).well_formed(),
        ensures
            final(self).well_formed(),
            final(self).fields == old(self).fields,
            final(self).cursor == old(self).cursor,
            match resolved(old(self).fields@, key@.0, key@.1) {
                Some(found) => {
                    &&& index == Ok::<usize, DeserializeError>(found as usize)
                    &&& 0 <= found < old(self).fields@.len()
                    &&& final(self).filled@ == old(self).filled@.update(found, true)
                },
                None => {
                    &&& index == Err::<usize, DeserializeError>(DeserializeError::UnknownField)
                    &&& final(self).filled@ == old(self).filled@
                },
            },
    {
        match &key.name {
            Some(name) => self.member(key.id, Some(name.as_str())),
            None => self.member(key.id, None),
        }
    }

    /// Closes the record. Where a member of the table has not arrived, the
    /// first such member is named in `MissingField`.
    pub fn finish(&self) -> (verdict: Result<(), DeserializeError>)
        requires
            self.well_formed(),
        ensures
            match missing_at(self.filled@, 0) {
                Some(index) => verdict == Err::<(), DeserializeError>(
                    DeserializeError::MissingField(self.fields@[index].name),
                ),
                None => verdict is Ok,
            },
    {
        let mut index: usize = 0;
        while index < self.filled.len()
            invariant
                self.well_formed(),
                index <= self.filled@.len(),
                missing_at(self.filled@, 0) == missing_at(self.filled@, index as int),
            decreases self.filled@.len() - index,
        {
            if !self.filled[index] {
                return Err(DeserializeError::MissingField(self.fields[index].name));
            }
            index = index + 1;
        }
        Ok(())
    }
}

/// Of all tokens the destination takes the one that opens a record, and
/// keeps the cursor that follows the record.
impl<'a> Visitor for StructBuilder<'a> {
    open spec fn accepts(
        self,
        token: Token,
        after: Self,
        verdict: Result<(), DeserializeError>,
    ) -> bool {
        match token {
            Token::Record(size_hint) => {
                &&& verdict is Ok
                &&& after.cursor == Some(Cursor { first: true, left: size_hint })
                &&& after.fields == self.fields
                &&& after.filled == self.filled
            },
            _ => verdict == Err::<(), DeserializeError>(DeserializeError::UnimplementedVisit)
                && after == self,
        }
    }

    fn visit_null(&mut self) -> (verdict: Result<(), DeserializeError>) {
        Err(DeserializeError::UnimplementedVisit)
    }

    fn visit_bool(&mut self, value: bool) -> (verdict: Result<(), DeserializeError>) {
        Err(DeserializeError::UnimplementedVisit)
    }

    fn visit_signed(&mut self, value: i64) -> (verdict: Result<(), DeserializeError>) {
        Err(DeserializeError::UnimplementedVisit)
    }

    fn visit_unsigned(&mut self, value: u64) -> (verdict: Result<(), DeserializeError>) {
        Err(DeserializeError::UnimplementedVisit)
    }

    fn visit_float(&mut self, value: Float) -> (verdict: Result<(), DeserializeError>) {
        Err(DeserializeError::UnimplementedVisit)
    }

    fn visit_str(&mut self, value: &str) -> (verdict: Result<(), DeserializeError>) {
        Err(DeserializeError::UnimplementedVisit)
    }

    fn visit_seq(&mut self, size_hint: Option<usize>) -> (verdict: Result<(), DeserializeError>) {
        Err(DeserializeError::UnimplementedVisit)
    }

    fn visit_struct(&mut self, size_hint: Option<usize>) -> (verdict: Result<
        (),
        DeserializeError,
    >) {
        self.cursor = Some(Cursor::new(size_hint));
        Ok(())
    }
}

/// The destination of a union: a record of one member, whose key names the
/// variant and whose value is the variant's payload.
pub struct UnionBuilder<'a> {
    /// The binding's table.
    pub variants: &'a [Entry],
    /// The position of the variant that the last member named.
    pub chosen: Option<usize>,
    /// The cursor of the record, once it has been opened.
    pub cursor: Option<Cursor>,
}

impl<'a> UnionBuilder<'a> {
    /// A destination for a union of the table, for which no variant has
    /// been named.
    pub fn new(variants: &'a [Entry]) -> (builder: Self)
        ensures
            builder.variants == variants,
            builder.chosen is None,
            builder.cursor is None,
    {
        UnionBuilder { variants, chosen: None, cursor: None }
    }

    /// Resolves the key of the member that arrives to a variant: by its
    /// number first, by its name where no variant has the number. Returns
    /// the variant's position in the table and remembers it. A key that
    /// names no variant is `UnknownUnionVariant`.
    pub fn member(&mut self, id: Option<u32>, name: Option<&str>) -> (index: Result<
        usize,
        DeserializeError,
    >)
        ensures
            final(self).variants == old(self).variants,
            final(self).cursor == old(self).cursor,
            match resolved(old(self).variants@, id, name_of(name)) {
                Some(found) => {
                    &&& index == Ok::<usize, DeserializeError>(found as usize)
                    &&& 0 <= found < old(self).variants@.len()
                    &&& final(self).chosen == Some(found as usize)
                },
                None => {
                    &&& index == Err::<usize, DeserializeError>(
                        DeserializeError::UnknownUnionVariant,
                    )
                    &&& final(self).chosen == old(self).chosen
                },
            },
    {
        proof {
            lemma_resolved(self.variants@, id, name_of(name));
        }
        let found = match name {
            Some(name) => {
                let chars = chars_of(name);
                resolve(self.variants, id, Some(chars.as_slice()))
            },
            None => resolve(self.variants, id, None),
        };
        match found {
            Some(index) => {
                self.chosen = Some(index);
                Ok(index)
            },
            None => Err(DeserializeError::UnknownUnionVariant),
        }
    }

    /// Resolves the key that a reader has given.
    pub fn member_of(&mut self, key: &MemberKey) -> (index: Result<usize, DeserializeError>)
        ensures
            final(self).variants == old(self).variants,
            final(self).cursor == old(self).cursor,
            match resolved(old(self).variants@, key@.0, key@.1) {
                Some(found) => {
                    &&& index == Ok::<usize, DeserializeError>(found as usize)
                    &&& 0 <= found < old(self).variants@.len()
                    &&& final(self).chosen == Some(found as usize)
                },
                None => {
                    &&& index == Err::<usize, DeserializeError>(
                        DeserializeError::UnknownUnionVariant,
                    )
                    &&& final(self).chosen == old(self).chosen
                },
            },
    {
        match &key.name {
            Some(name) => self.member(key.id, Some(name.as_str())),
            None => self.member(key.id, None),
        }
    }

    /// Closes the record and returns the position of the variant that was
    /// named. A record without a member names none: `UnknownUnionVariant`.
    pub fn finish(&self) -> (index: Result<usize, DeserializeError>)
        ensures
            match self.chosen {
                Some(chosen) => index == Ok::<usize, DeserializeError>(chosen),
                None => index == Err::<usize, DeserializeError>(
                    DeserializeError::UnknownUnionVariant,
                ),
            },
    {
        match self.chosen {
            Some(chosen) => Ok(chosen),
            None => Err(DeserializeError::UnknownUnionVariant),
        }
    }
}

/// Of all tokens the destination takes the one that opens a record, and
/// keeps the cursor that follows the record.
impl<'a> Visitor for UnionBuilder<'a> {
    open spec fn accepts(
        self,
        token: Token,
        after: Self,
        verdict: Result<(), DeserializeError>,
    ) -> bool {
        match token {
            Token::Record(size_hint) => {
                &&& verdict is Ok
                &&& after.cursor == Some(Cursor { first: true, left: size_hint })
                &&& after.variants == self.variants
                &&& after.chosen == self.chosen
            },
            _ => verdict == Err::<(), DeserializeError>(DeserializeError::UnimplementedVisit)
                && after == self,
        }
    }

    fn visit_null(&mut self) -> (verdict: Result<(), DeserializeError>) {
        Err(DeserializeError::UnimplementedVisit)
    }

    fn visit_bool(&mut self, value: bool) -> (verdict: Result<(), DeserializeError>) {
        Err(DeserializeError::UnimplementedVisit)
    }

    fn visit_signed(&mut self, value: i64) -> (verdict: Result<(), DeserializeError>) {
        Err(DeserializeError::UnimplementedVisit)
    }

    fn visit_unsigned(&mut self, value: u64) -> (verdict: Result<(), DeserializeError>) {
        Err(DeserializeError::UnimplementedVisit)
    }

    fn visit_float(&mut self, value: Float) -> (verdict: Result<(), DeserializeError>) {
        Err(DeserializeError::UnimplementedVisit)
    }

    fn visit_str(&mut self, value: &str) -> (verdict: Result<(), DeserializeError>) {
        Err(DeserializeError::UnimplementedVisit)
    }

    fn visit_seq(&mut self, size_hint: Option<usize>) -> (verdict: Result<(), DeserializeError>) {
        Err(DeserializeError::UnimplementedVisit)
    }

    fn visit_struct(&mut self, size_hint: Option<usize>) -> (verdict: Result<
        (),
        DeserializeError,
    >) {
        self.cursor = Some(Cursor::new(size_hint));
        Ok(())
    }
}

} // verus!
