use crate::bindings::key::split;
use crate::bindings::key::split_key;
use crate::de::traits::Cursor;
use crate::de::traits::Deserializer as Reader;
use crate::de::traits::MemberKey;
use crate::de::traits::Name;
use crate::de::visitor::Token;
use crate::de::visitor::Visitor;
use crate::error::DeserializeError;
use crate::json::value::contents;
use crate::json::value::entry;
use crate::json::value::json_parse;
use crate::json::value::member;
use crate::json::value::parse;
use crate::json::value::shallow;
use crate::json::value::short_fractions;
use crate::json::value::FRACTION_LIMIT;
use crate::json::value::Shallow;
use crate::json::value::Tree;
use crate::number::Float;
use crate::text::chars::chars_of;
use crate::text::chars::digits_end;
use crate::text::chars::is_digit;
use crate::text::chars::lemma_digits_end;
use crate::text::chars::string_of;
use vstd::prelude::*;

verus! {

/// One step of a walk through a JSON value: a scalar, or the opening or the
/// closing of an aggregate, or the key of an object's member.
#[derive(Debug, Clone, PartialEq, Eq)]
pub enum Lexeme {
    Null,
    Boolean(bool),
    /// The number `mantissa * 10^exponent`, negated unless `positive`; or no
    /// number at all where `nan` is set.
    Number { nan: bool, positive: bool, mantissa: u64, exponent: i16 },
    Text(String),
    StartArray(usize),
    EndArray,
    StartObject(usize),
    Key(String),
    EndObject,
}

/// A step of a walk, as the contracts speak of it.
pub enum Piece {
    Null,
    Boolean(bool),
    /// The number `mantissa * 10^exponent`, negated unless `positive`; or no
    /// number at all where `nan` is set.
    Number { nan: bool, positive: bool, mantissa: u64, exponent: i16 },
    Text(Seq<char>),
    StartArray(usize),
    EndArray,
    StartObject(usize),
    Key(Seq<char>),
    EndObject,
}

impl View for Lexeme {
    type V = Piece;

    open spec fn view(&self) -> Piece {
        match self {
            Lexeme::Null => Piece::Null,
            Lexeme::Boolean(value) => Piece::Boolean(*value),
            Lexeme::Number { nan, positive, mantissa, exponent } => Piece::Number {
                nan: *nan,
                positive: *positive,
                mantissa: *mantissa,
                exponent: *exponent,
            },
            Lexeme::Text(text) => Piece::Text(text@),
            Lexeme::StartArray(len) => Piece::StartArray(*len),
            Lexeme::EndArray => Piece::EndArray,
            Lexeme::StartObject(len) => Piece::StartObject(*len),
            Lexeme::Key(key) => Piece::Key(key@),
            Lexeme::EndObject => Piece::EndObject,
        }
    }
}

/// The steps of a walk, as the contracts speak of them.
pub open spec fn pieces(lexemes: Seq<Lexeme>) -> Seq<Piece> {
    lexemes.map_values(|lexeme: Lexeme| lexeme@)
}

/// The walk through a tree: a scalar is one step; an aggregate opens with
/// the count of its parts, walks through each part in order, an object's
/// member behind its key, and closes.
pub open spec fn flat(tree: Tree) -> Seq<Piece>
    decreases tree, 0nat,
{
    match tree {
        Tree::Null => seq![Piece::Null],
        Tree::Boolean(value) => seq![Piece::Boolean(value)],
        Tree::Number { nan, positive, mantissa, exponent } => seq![
            Piece::Number { nan, positive, mantissa, exponent },
        ],
        Tree::Text(text) => seq![Piece::Text(text)],
        Tree::Array(items) => seq![Piece::StartArray(items.len() as usize)] + flat_items(
            items,
            items.len(),
        ) + seq![Piece::EndArray],
        Tree::Object(entries) => seq![Piece::StartObject(entries.len() as usize)] + flat_entries(
            entries,
            entries.len(),
        ) + seq![Piece::EndObject],
    }
}

/// The walk through the first `count` members of an array.
pub open spec fn flat_items(items: Seq<Tree>, count: nat) -> Seq<Piece>
    decreases items, count,
{
    if count == 0 || count > items.len() {
        Seq::empty()
    } else {
        flat_items(items, (count - 1) as nat) + flat(items[count - 1])
    }
}

/// The walk through the first `count` members of an object.
pub open spec fn flat_entries(entries: Seq<(Seq<char>, Tree)>, count: nat) -> Seq<Piece>
    decreases entries, count,
{
    if count == 0 || count > entries.len() {
        Seq::empty()
    } else {
        flat_entries(entries, (count - 1) as nat) + seq![Piece::Key(entries[count - 1].0)] + flat(
            entries[count - 1].1,
        )
    }
}

/// The bit pattern of a double-precision NaN.
pub const QUIET_NAN: u64 = 0x7ff8_0000_0000_0000;

/// The token of a number: an unsigned integer where it is positive and
/// without an exponent, a signed one where it is negative and without an
/// exponent, and a floating-point number where it has an exponent or is
/// no number at all.
pub open spec fn number_token(
    nan: bool,
    positive: bool,
    mantissa: u64,
    exponent: i16,
) -> Result<Token, DeserializeError> {
    if nan {
        Ok(Token::Float(Float::Double(QUIET_NAN)))
    } else if exponent != 0 {
        Ok(Token::Float(Float::Decimal { negative: !positive, mantissa, exponent }))
    } else if positive {
        Ok(Token::Unsigned(mantissa))
    } else if mantissa <= 0x8000_0000_0000_0000 {
        Ok(Token::Signed((-(mantissa as int)) as i64))
    } else {
        Err(DeserializeError::IncompatibleNumericType)
    }
}

/// The token that a step of the walk is for a destination. The close of an
/// aggregate and a key are none.
pub open spec fn token_of(piece: Piece) -> Result<Token, DeserializeError> {
    match piece {
        Piece::Null => Ok(Token::Null),
        Piece::Boolean(value) => Ok(Token::Bool(value)),
        Piece::Number { nan, positive, mantissa, exponent } => number_token(
            nan,
            positive,
            mantissa,
            exponent,
        ),
        Piece::Text(text) => Ok(Token::Str(text)),
        Piece::StartArray(len) => Ok(Token::Sequence(Some(len))),
        Piece::StartObject(len) => Ok(Token::Record(Some(len))),
        _ => Err(DeserializeError::ParsingError),
    }
}

/// Walks through a value and appends the steps.
pub fn flatten(value: &json::JsonValue, out: &mut Vec<Lexeme>)
    ensures
        pieces(final(out)@) == pieces(old(out)@) + flat(contents(*value)),
    decreases contents(*value),
{
    let ghost before = pieces(out@);
    match shallow(value) {
        Shallow::Null => {
            out.push(Lexeme::Null);
            assert(pieces(out@) =~= before + seq![Piece::Null]);
        },
        Shallow::Boolean(flag) => {
            out.push(Lexeme::Boolean(flag));
            assert(pieces(out@) =~= before + seq![Piece::Boolean(flag)]);
        },
        Shallow::Number { nan, positive, mantissa, exponent } => {
            out.push(Lexeme::Number { nan, positive, mantissa, exponent });
            assert(pieces(out@) =~= before + seq![
                Piece::Number { nan, positive, mantissa, exponent },
            ]);
        },
        Shallow::Text(text) => {
            out.push(Lexeme::Text(text));
            assert(pieces(out@) =~= before + seq![Piece::Text(text@)]);
        },
        Shallow::Array(len) => {
            let ghost items = contents(*value)->Array_0;
            out.push(Lexeme::StartArray(len));
            let mut index: usize = 0;
            assert(pieces(out@) =~= before + seq![Piece::StartArray(len)] + flat_items(items, 0));
            while index < len
                invariant
                    index <= len == items.len(),
                    contents(*value) == Tree::Array(items),
                    pieces(out@) == before + seq![Piece::StartArray(len)] + flat_items(
                        items,
                        index as nat,
                    ),
                decreases len - index,
            {
                flatten(member(value, index), out);
                index = index + 1;
                assert(pieces(out@) =~= before + seq![Piece::StartArray(len)] + flat_items(
                    items,
                    index as nat,
                ));
            }
            let ghost inner = pieces(out@);
            out.push(Lexeme::EndArray);
            assert(pieces(out@) =~= inner + seq![Piece::EndArray]);
            assert(pieces(out@) =~= before + (seq![Piece::StartArray(len)] + flat_items(
                items,
                items.len(),
            ) + seq![Piece::EndArray]));
        },
        Shallow::Object(len) => {
            let ghost entries = contents(*value)->Object_0;
            out.push(Lexeme::StartObject(len));
            let mut index: usize = 0;
            assert(pieces(out@) =~= before + seq![Piece::StartObject(len)] + flat_entries(
                entries,
                0,
            ));
            while index < len
                invariant
                    index <= len == entries.len(),
                    contents(*value) == Tree::Object(entries),
                    pieces(out@) == before + seq![Piece::StartObject(len)] + flat_entries(
                        entries,
                        index as nat,
                    ),
                decreases len - index,
            {
                let ghost so_far = pieces(out@);
                match entry(value, index) {
                    Some((key, item)) => {
                        out.push(Lexeme::Key(key.to_owned()));
                        assert(pieces(out@) =~= so_far + seq![Piece::Key(key@)]);
                        flatten(item, out);
                    },
                    None => {},
                }
                index = index + 1;
                assert(pieces(out@) =~= before + seq![Piece::StartObject(len)] + flat_entries(
                    entries,
                    index as nat,
                ));
            }
            let ghost inner = pieces(out@);
            out.push(Lexeme::EndObject);
            assert(pieces(out@) =~= inner + seq![Piece::EndObject]);
            assert(pieces(out@) =~= before + (seq![Piece::StartObject(len)] + flat_entries(
                entries,
                entries.len(),
            ) + seq![Piece::EndObject]));
        },
    }
}

/// Whether no point in the text is followed by more digits than the JSON
/// crate's parser can count.
pub fn has_short_fractions(source: &Vec<char>) -> (short: bool)
    ensures
        short == short_fractions(source@),
{
    let mut at: usize = 0;
    while at < source.len()
        invariant
            at <= source.len(),
            forall|k: int|
                0 <= k < at && source@[k] == '.' ==> digits_end(source@, k + 1) - (k + 1)
                    <= FRACTION_LIMIT,
        decreases source.len() - at,
    {
        if source[at] == '.' {
            let start: usize = at + 1;
            let mut end: usize = start;
            while end < source.len() && source[end] >= '0' && source[end] <= '9' && end - start
                <= FRACTION_LIMIT
                invariant
                    start <= end <= source.len(),
                    digits_end(source@, start as int) == digits_end(source@, end as int),
                    forall|k: int| start <= k < end ==> is_digit(#[trigger] source@[k]),
                decreases source.len() - end,
            {
                end = end + 1;
            }
            proof {
                lemma_digits_end(source@, end as int);
            }
            if end - start > FRACTION_LIMIT {
                return false;
            }
            at = end;
        } else {
            at = at + 1;
        }
    }
    true
}

/// The reader of a JSON document that the JSON crate has parsed. It goes
/// through the steps of a walk through the document.
pub struct Deserializer {
    pub lexemes: Vec<Lexeme>,
    pub pos: usize,
}

impl Deserializer {
    /// A reader at the start of the JSON text `s`, where the JSON crate
    /// takes the text. A text with more digits behind a point than the
    /// crate's parser can count is not handed to it, and gives no reader.
    pub fn new(s: &str) -> (de: Option<Self>)
        ensures
            match json_parse(s@) {
                Some(tree) if short_fractions(s@) => {
                    &&& de is Some
                    &&& pieces(de.unwrap().lexemes@) == flat(tree)
                    &&& de.unwrap().pos == 0
                    &&& de.unwrap().well_formed()
                },
                _ => de is None,
            },
    {
        let source = chars_of(s);
        if !has_short_fractions(&source) {
            return None;
        }
        match parse(s) {
            Some(value) => Some(Self::of(&value)),
            None => None,
        }
    }

    /// A reader at the start of a value that has been parsed.
    pub fn of(value: &json::JsonValue) -> (de: Self)
        ensures
            pieces(de.lexemes@) == flat(contents(*value)),
            de.pos == 0,
            de.well_formed(),
    {
        let mut lexemes: Vec<Lexeme> = Vec::new();
        assert(pieces(lexemes@) =~= Seq::<Piece>::empty());
        flatten(value, &mut lexemes);
        assert(pieces(lexemes@) =~= flat(contents(*value)));
        assert(lexemes@.len() == lexemes.len());
        Deserializer { lexemes, pos: 0 }
    }

    /// The reader over the same steps at `pos`.
    pub open spec fn at(self, pos: int) -> Self {
        Deserializer { lexemes: self.lexemes, pos: pos as usize }
    }

    /// Hands a number to `visitor`.
    fn visit_number<V: Visitor>(
        nan: bool,
        positive: bool,
        mantissa: u64,
        exponent: i16,
        visitor: &mut V,
    ) -> (verdict: Result<(), DeserializeError>)
        ensures
            match number_token(nan, positive, mantissa, exponent) {
                Ok(token) => old(visitor).accepts(token, *final(visitor), verdict),
                Err(error) => {
                    &&& verdict == Err::<(), DeserializeError>(error)
                    &&& *final(visitor) == *old(visitor)
                },
            },
    {
        if nan {
            visitor.visit_float(Float::Double(QUIET_NAN))
        } else if exponent != 0 {
            visitor.visit_float(Float::Decimal { negative: !positive, mantissa, exponent })
        } else if positive {
            visitor.visit_unsigned(mantissa)
        } else if mantissa <= 0x8000_0000_0000_0000 {
            visitor.visit_signed((-(mantissa as i128)) as i64)
        } else {
            Err(DeserializeError::IncompatibleNumericType)
        }
    }

    /// Hands the step at the head of the walk to `visitor`.
    pub fn visit_value<V: Visitor>(&mut self, visitor: &mut V) -> (verdict: Result<
        (),
        DeserializeError,
    >)
        requires
            old(self).well_formed(),
        ensures
            final(self).well_formed(),
            final(self).lexemes == old(self).lexemes,
            match old(self).head() {
                Ok((token, next)) => {
                    &&& old(visitor).accepts(token, *final(visitor), verdict)
                    &&& verdict is Ok ==> *final(self) == next
                },
                Err(error) => {
                    &&& verdict == Err::<(), DeserializeError>(error)
                    &&& *final(visitor) == *old(visitor)
                },
            },
    {
        if self.pos >= self.lexemes.len() {
            return Err(DeserializeError::UnexpectedEof);
        }
        let at = self.pos;
        self.pos = self.pos + 1;
        match &self.lexemes[at] {
            Lexeme::Null => visitor.visit_null(),
            Lexeme::Boolean(value) => visitor.visit_bool(*value),
            Lexeme::Number { nan, positive, mantissa, exponent } => Self::visit_number(
                *nan,
                *positive,
                *mantissa,
                *exponent,
                visitor,
            ),
            Lexeme::Text(text) => visitor.visit_str(text.as_str()),
            Lexeme::StartArray(len) => visitor.visit_seq(Some(*len)),
            Lexeme::StartObject(len) => visitor.visit_struct(Some(*len)),
            _ => {
                self.pos = at;
                Err(DeserializeError::ParsingError)
            },
        }
    }
}

impl Reader for Deserializer {
    open spec fn well_formed(&self) -> bool {
        self.pos <= self.lexemes@.len() <= usize::MAX
    }

    open spec fn remaining(&self) -> nat {
        (self.lexemes@.len() - self.pos) as nat
    }

    open spec fn head(&self) -> Result<(Token, Self), DeserializeError> {
        if self.pos < self.lexemes@.len() {
            match token_of(self.lexemes@[self.pos as int]@) {
                Ok(token) => Ok((token, self.at(self.pos + 1))),
                Err(error) => Err(error),
            }
        } else {
            Err(DeserializeError::UnexpectedEof)
        }
    }

    /// An array has another member until its close is the next step.
    open spec fn element(&self, cursor: Cursor) -> Result<(bool, Self, Cursor), DeserializeError> {
        if self.pos < self.lexemes@.len() && self.lexemes@[self.pos as int]@ is EndArray {
            Ok((false, self.at(self.pos + 1), Cursor { first: false, left: cursor.left }))
        } else {
            Ok((true, *self, Cursor { first: false, left: cursor.left }))
        }
    }

    /// An object has another member where a key is the next step; its
    /// composite is split into the member's number and name.
    open spec fn member(&self, cursor: Cursor) -> Result<
        (Option<(Option<u32>, Name)>, Self, Cursor),
        DeserializeError,
    > {
        if self.pos < self.lexemes@.len() {
            match self.lexemes@[self.pos as int]@ {
                Piece::EndObject => Ok(
                    (None, self.at(self.pos + 1), Cursor { first: false, left: cursor.left }),
                ),
                Piece::Key(key) => Ok(
                    (
                        Some((split(key).0, Some(split(key).1))),
                        self.at(self.pos + 1),
                        Cursor { first: false, left: cursor.left },
                    ),
                ),
                _ => Err(DeserializeError::ParsingError),
            }
        } else {
            Err(DeserializeError::UnexpectedEof)
        }
    }

    proof fn head_advances(&self) {
    }

    proof fn element_advances(&self, cursor: Cursor) {
    }

    proof fn member_advances(&self, cursor: Cursor) {
    }

    fn deserialize<V: Visitor>(&mut self, visitor: &mut V) -> (verdict: Result<
        (),
        DeserializeError,
    >) {
        self.visit_value(visitor)
    }

    fn take_null(&mut self) -> (taken: bool) {
        if self.pos < self.lexemes.len() {
            match &self.lexemes[self.pos] {
                Lexeme::Null => {
                    self.pos = self.pos + 1;
                    true
                },
                Lexeme::Number { .. } => false,
                _ => false,
            }
        } else {
            false
        }
    }

    fn next_element(&mut self, cursor: &mut Cursor) -> (more: Result<bool, DeserializeError>) {
        cursor.first = false;
        if self.pos < self.lexemes.len() {
            match &self.lexemes[self.pos] {
                Lexeme::EndArray => {
                    self.pos = self.pos + 1;
                    return Ok(false);
                },
                _ => {},
            }
        }
        Ok(true)
    }

    fn next_member(&mut self, cursor: &mut Cursor) -> (key: Result<
        Option<MemberKey>,
        DeserializeError,
    >) {
        if self.pos >= self.lexemes.len() {
            return Err(DeserializeError::UnexpectedEof);
        }
        let at = self.pos;
        match &self.lexemes[at] {
            Lexeme::EndObject => {
                cursor.first = false;
                self.pos = self.pos + 1;
                Ok(None)
            },
            Lexeme::Key(key) => {
                let chars = chars_of(key.as_str());
                let (id, name) = split_key(chars.as_slice());
                let name = string_of(name.as_slice());
                cursor.first = false;
                self.pos = self.pos + 1;
                Ok(Some(MemberKey { id, name: Some(name) }))
            },
            _ => Err(DeserializeError::ParsingError),
        }
    }
}

} // verus!
