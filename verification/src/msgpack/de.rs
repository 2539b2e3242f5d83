use crate::de::traits::Cursor;
use crate::de::traits::Deserializer as Reader;
use crate::de::traits::MemberKey;
use crate::de::traits::Name;
use crate::de::visitor::Token;
use crate::de::visitor::Visitor;
use crate::error::DeserializeError;
use crate::msgpack::wire::field;
use crate::msgpack::wire::lemma_number_bound;
use crate::msgpack::wire::lemma_spans;
use crate::msgpack::wire::read_be;
use crate::msgpack::wire::signed_of;
use crate::msgpack::wire::span;
use crate::number::Float;
use vstd::prelude::*;
use vstd::slice::slice_subrange;
use vstd::utf8::decode_utf8;
use vstd::utf8::valid_utf8;

verus! {

#[verifier::external_type_specification]
#[verifier::external_body]
pub struct ExUtf8Error(core::str::Utf8Error);

/// `core::str::from_utf8`: the bytes as a string, which succeeds exactly on
/// well-formed UTF-8 and then yields the string that these bytes encode.
#[verifier::external_body]
fn from_utf8(bytes: &[u8]) -> (text: Result<&str, core::str::Utf8Error>)
    ensures
        text is Ok <==> valid_utf8(bytes@),
        text matches Ok(t) ==> t@ == decode_utf8(bytes@),
{
    core::str::from_utf8(bytes)
}

/// The string of `len` bytes at `pos`.
pub open spec fn text_at(data: Seq<u8>, pos: int, len: nat) -> Result<(Token, int), DeserializeError> {
    if pos + len <= data.len() {
        let bytes = data.subrange(pos, pos + len);
        if valid_utf8(bytes) {
            Ok((Token::Str(decode_utf8(bytes)), pos + len))
        } else {
            Err(DeserializeError::ParsingError)
        }
    } else {
        Err(DeserializeError::UnexpectedEof)
    }
}

/// The token whose tag is `tag` and whose rest starts at `pos`, and where it
/// ends.
pub open spec fn token_of(tag: u8, data: Seq<u8>, pos: int) -> Result<
    (Token, int),
    DeserializeError,
> {
    if tag <= 0x7f {
        Ok((Token::Unsigned(tag as u64), pos))
    } else if tag <= 0x8f {
        Ok((Token::Record(Some((tag - 0x80) as usize)), pos))
    } else if tag <= 0x9f {
        Ok((Token::Sequence(Some((tag - 0x90) as usize)), pos))
    } else if tag <= 0xbf {
        text_at(data, pos, (tag - 0xa0) as nat)
    } else if tag == 0xc0 {
        Ok((Token::Null, pos))
    } else if tag == 0xc2 {
        Ok((Token::Bool(false), pos))
    } else if tag == 0xc3 {
        Ok((Token::Bool(true), pos))
    } else if tag == 0xca {
        match field(data, pos, 4) {
            Some(bits) => Ok((Token::Float(Float::Single(bits as u32)), pos + 4)),
            None => Err(DeserializeError::UnexpectedEof),
        }
    } else if tag == 0xcb {
        match field(data, pos, 8) {
            Some(bits) => Ok((Token::Float(Float::Double(bits as u64)), pos + 8)),
            None => Err(DeserializeError::UnexpectedEof),
        }
    } else if 0xcc <= tag <= 0xcf {
        match unsigned_of(tag, data, pos) {
            Ok((value, end)) => Ok((Token::Unsigned(value), end)),
            Err(error) => Err(error),
        }
    } else if 0xd0 <= tag <= 0xd3 {
        let width = tag_width((tag - 0xd0) as u8);
        match field(data, pos, width) {
            Some(raw) => Ok((Token::Signed(signed_of(raw, width) as i64), pos + width)),
            None => Err(DeserializeError::UnexpectedEof),
        }
    } else if 0xd9 <= tag <= 0xdb {
        let width = tag_width((tag - 0xd9) as u8);
        match field(data, pos, width) {
            Some(len) => text_at(data, pos + width, len),
            None => Err(DeserializeError::UnexpectedEof),
        }
    } else if 0xdc <= tag <= 0xdd {
        let width = tag_width((tag - 0xdc + 1) as u8);
        match field(data, pos, width) {
            Some(len) => Ok((Token::Sequence(Some(len as usize)), pos + width)),
            None => Err(DeserializeError::UnexpectedEof),
        }
    } else if 0xde <= tag <= 0xdf {
        let width = tag_width((tag - 0xde + 1) as u8);
        match field(data, pos, width) {
            Some(len) => Ok((Token::Record(Some(len as usize)), pos + width)),
            None => Err(DeserializeError::UnexpectedEof),
        }
    } else if tag >= 0xe0 {
        Ok((Token::Signed((tag - 0x100) as i64), pos))
    } else {
        Err(DeserializeError::ParsingError)
    }
}

/// The widths that the tags of one family count through: 1, 2, 4 and 8
/// bytes.
pub open spec fn tag_width(step: u8) -> nat {
    if step == 0 {
        1
    } else if step == 1 {
        2
    } else if step == 2 {
        4
    } else {
        8
    }
}

/// The unsigned number whose tag is `tag` and whose rest starts at `pos`,
/// and where it ends. Other tags are no unsigned number.
pub open spec fn unsigned_of(tag: u8, data: Seq<u8>, pos: int) -> Result<
    (u64, int),
    DeserializeError,
> {
    if tag <= 0x7f {
        Ok((tag as u64, pos))
    } else if 0xcc <= tag <= 0xcf {
        let width = tag_width((tag - 0xcc) as u8);
        match field(data, pos, width) {
            Some(value) => Ok((value as u64, pos + width)),
            None => Err(DeserializeError::UnexpectedEof),
        }
    } else {
        Err(DeserializeError::ParsingError)
    }
}

/// The token at `pos` and where it ends, or why there is none: the input
/// ends early, a tag is not the format's, or a string is not UTF-8.
pub open spec fn token_at(data: Seq<u8>, pos: int) -> Result<(Token, int), DeserializeError> {
    if 0 <= pos < data.len() {
        token_of(data[pos], data, pos + 1)
    } else {
        Err(DeserializeError::UnexpectedEof)
    }
}

/// The number of the record member at `pos`, and where its value starts. A
/// number beyond 32 bits is no member's: `IncompatibleNumericType`.
pub open spec fn key_at(data: Seq<u8>, pos: int) -> Result<(u32, int), DeserializeError> {
    if 0 <= pos < data.len() {
        match unsigned_of(data[pos], data, pos + 1) {
            Ok((value, end)) => if value <= u32::MAX {
                Ok((value as u32, end))
            } else {
                Err(DeserializeError::IncompatibleNumericType)
            },
            Err(error) => Err(error),
        }
    } else {
        Err(DeserializeError::UnexpectedEof)
    }
}

/// The reader of the binary format, over bytes that are all in memory.
pub struct Deserializer {
    pub data: Vec<u8>,
    pub pos: usize,
}

impl Deserializer {
    /// A reader at the start of `data`.
    pub fn new(data: Vec<u8>) -> (de: Self)
        ensures
            de.data == data,
            de.pos == 0,
            de.well_formed(),
    {
        assert(data@.len() == data.len());
        Deserializer { data, pos: 0 }
    }

    /// The reader over the same bytes at `pos`.
    pub open spec fn at(self, pos: int) -> Self {
        Deserializer { data: self.data, pos: pos as usize }
    }

    /// Reads one byte.
    fn read_u8(&mut self) -> (byte: Result<u8, DeserializeError>)
        requires
            old(self).well_formed(),
        ensures
            final(self).data == old(self).data,
            final(self).well_formed(),
            if old(self).pos < old(self).data@.len() {
                &&& byte == Ok::<u8, DeserializeError>(old(self).data@[old(self).pos as int])
                &&& final(self).pos == old(self).pos + 1
            } else {
                &&& byte == Err::<u8, DeserializeError>(DeserializeError::UnexpectedEof)
                &&& final(self).pos == old(self).pos
            },
    {
        if self.pos < self.data.len() {
            let byte = self.data[self.pos];
            self.pos = self.pos + 1;
            Ok(byte)
        } else {
            Err(DeserializeError::UnexpectedEof)
        }
    }

    /// Reads the number that the next `width` bytes stand for.
    fn read_unsigned(&mut self, width: u8) -> (value: Result<u64, DeserializeError>)
        requires
            old(self).well_formed(),
            0 < width <= 8,
        ensures
            final(self).data == old(self).data,
            final(self).well_formed(),
            match field(old(self).data@, old(self).pos as int, width as nat) {
                Some(number) => {
                    &&& value == Ok::<u64, DeserializeError>(number as u64)
                    &&& number <= u64::MAX
                    &&& number < span(width as nat)
                    &&& final(self).pos == old(self).pos + width
                },
                None => {
                    &&& value == Err::<u64, DeserializeError>(DeserializeError::UnexpectedEof)
                    &&& final(self).pos == old(self).pos
                },
            },
    {
        match read_be(self.data.as_slice(), self.pos, width) {
            Some(value) => {
                assert(self.data@.len() == self.data.len());
                proof {
                    lemma_number_bound(self.data@.subrange(self.pos as int, self.pos + width));
                }
                self.pos = self.pos + width as usize;
                Ok(value)
            },
            None => Err(DeserializeError::UnexpectedEof),
        }
    }

    /// The width that the tag's distance from the first of its family
    /// selects.
    fn width_of(step: u8) -> (width: u8)
        ensures
            width == tag_width(step),
    {
        if step == 0 {
            1
        } else if step == 1 {
            2
        } else if step == 2 {
            4
        } else {
            8
        }
    }

    /// Reads the rest of the unsigned number whose tag has been read.
    fn parse_unsigned(&mut self, discriminant: u8) -> (value: Result<u64, DeserializeError>)
        requires
            old(self).well_formed(),
        ensures
            final(self).data == old(self).data,
            final(self).well_formed(),
            match unsigned_of(discriminant, old(self).data@, old(self).pos as int) {
                Ok((number, end)) => {
                    &&& value == Ok::<u64, DeserializeError>(number)
                    &&& final(self).pos == end
                },
                Err(error) => value == Err::<u64, DeserializeError>(error),
            },
    {
        if discriminant <= 0x7f {
            Ok(discriminant as u64)
        } else if discriminant >= 0xcc && discriminant <= 0xcf {
            self.read_unsigned(Self::width_of(discriminant - 0xcc))
        } else {
            Err(DeserializeError::ParsingError)
        }
    }

    /// Reads the rest of the signed number whose tag has been read.
    fn parse_signed(&mut self, discriminant: u8) -> (value: Result<i64, DeserializeError>)
        requires
            old(self).well_formed(),
            0xd0 <= discriminant <= 0xd3,
        ensures
            final(self).data == old(self).data,
            final(self).well_formed(),
            match field(
                old(self).data@,
                old(self).pos as int,
                tag_width((discriminant - 0xd0) as u8),
            ) {
                Some(raw) => {
                    &&& value == Ok::<i64, DeserializeError>(
                        signed_of(raw, tag_width((discriminant - 0xd0) as u8)) as i64,
                    )
                    &&& final(self).pos == old(self).pos + tag_width((discriminant - 0xd0) as u8)
                },
                None => value == Err::<i64, DeserializeError>(DeserializeError::UnexpectedEof),
            },
    {
        let width = Self::width_of(discriminant - 0xd0);
        let raw = self.read_unsigned(width)?;
        proof {
            lemma_spans();
            lemma_number_bound(
                old(self).data@.subrange(old(self).pos as int, old(self).pos + width),
            );
        }
        let value: i128 = if width == 1 {
            if raw >= 0x80 {
                raw as i128 - 0x100
            } else {
                raw as i128
            }
        } else if width == 2 {
            if raw >= 0x8000 {
                raw as i128 - 0x1_0000
            } else {
                raw as i128
            }
        } else if width == 4 {
            if raw >= 0x8000_0000 {
                raw as i128 - 0x1_0000_0000
            } else {
                raw as i128
            }
        } else {
            if raw >= 0x8000_0000_0000_0000 {
                raw as i128 - 0x1_0000_0000_0000_0000
            } else {
                raw as i128
            }
        };
        Ok(value as i64)
    }

    /// Reads a string of `len` bytes and hands it to `visitor`.
    fn parse_str<V: Visitor>(&mut self, len: usize, visitor: &mut V) -> (verdict: Result<
        (),
        DeserializeError,
    >)
        requires
            old(self).well_formed(),
        ensures
            final(self).data == old(self).data,
            final(self).well_formed(),
            match text_at(old(self).data@, old(self).pos as int, len as nat) {
                Ok((token, end)) => {
                    &&& old(visitor).accepts(token, *final(visitor), verdict)
                    &&& final(self).pos == end
                },
                Err(error) => {
                    &&& verdict == Err::<(), DeserializeError>(error)
                    &&& *final(visitor) == *old(visitor)
                },
            },
    {
        if self.data.len() - self.pos < len {
            return Err(DeserializeError::UnexpectedEof);
        }
        let bytes = slice_subrange(self.data.as_slice(), self.pos, self.pos + len);
        match from_utf8(bytes) {
            Ok(text) => {
                self.pos = self.pos + len;
                visitor.visit_str(text)
            },
            Err(_) => Err(DeserializeError::ParsingError),
        }
    }

    /// Reads the token at the head of the input and hands it to `visitor`.
    pub fn parse<V: Visitor>(&mut self, visitor: &mut V) -> (verdict: Result<
        (),
        DeserializeError,
    >)
        requires
            old(self).well_formed(),
        ensures
            final(self).data == old(self).data,
            final(self).well_formed(),
            match token_at(old(self).data@, old(self).pos as int) {
                Ok((token, end)) => {
                    &&& old(visitor).accepts(token, *final(visitor), verdict)
                    &&& verdict is Ok ==> final(self).pos == end
                },
                Err(error) => {
                    &&& verdict == Err::<(), DeserializeError>(error)
                    &&& *final(visitor) == *old(visitor)
                },
            },
    {
        let tag = self.read_u8()?;
        proof {
            lemma_spans();
        }
        if tag <= 0x7f {
            visitor.visit_unsigned(tag as u64)
        } else if tag <= 0x8f {
            visitor.visit_struct(Some((tag - 0x80) as usize))
        } else if tag <= 0x9f {
            visitor.visit_seq(Some((tag - 0x90) as usize))
        } else if tag <= 0xbf {
            self.parse_str((tag - 0xa0) as usize, visitor)
        } else if tag == 0xc0 {
            visitor.visit_null()
        } else if tag == 0xc2 {
            visitor.visit_bool(false)
        } else if tag == 0xc3 {
            visitor.visit_bool(true)
        } else if tag == 0xca {
            let bits = self.read_unsigned(4)?;
            visitor.visit_float(Float::Single(bits as u32))
        } else if tag == 0xcb {
            let bits = self.read_unsigned(8)?;
            visitor.visit_float(Float::Double(bits))
        } else if tag >= 0xcc && tag <= 0xcf {
            let value = self.parse_unsigned(tag)?;
            visitor.visit_unsigned(value)
        } else if tag >= 0xd0 && tag <= 0xd3 {
            let value = self.parse_signed(tag)?;
            visitor.visit_signed(value)
        } else if tag >= 0xd9 && tag <= 0xdb {
            let width = Self::width_of(tag - 0xd9);
            let len = self.read_unsigned(width)?;
            self.parse_str(len as usize, visitor)
        } else if tag >= 0xdc && tag <= 0xdd {
            let width = Self::width_of(tag - 0xdc + 1);
            let len = self.read_unsigned(width)?;
            visitor.visit_seq(Some(len as usize))
        } else if tag >= 0xde && tag <= 0xdf {
            let width = Self::width_of(tag - 0xde + 1);
            let len = self.read_unsigned(width)?;
            visitor.visit_struct(Some(len as usize))
        } else if tag >= 0xe0 {
            visitor.visit_signed(tag as i64 - 0x100)
        } else {
            Err(DeserializeError::ParsingError)
        }
    }
}

/// A token ends behind where it starts, and within the input.
pub proof fn lemma_token_advances(data: Seq<u8>, pos: int)
    ensures
        token_at(data, pos) matches Ok((_, end)) ==> pos < end <= data.len(),
{
}

impl Reader for Deserializer {
    open spec fn well_formed(&self) -> bool {
        self.pos <= self.data@.len() <= usize::MAX
    }

    open spec fn remaining(&self) -> nat {
        (self.data@.len() - self.pos) as nat
    }

    open spec fn head(&self) -> Result<(Token, Self), DeserializeError> {
        match token_at(self.data@, self.pos as int) {
            Ok((token, end)) => Ok((token, self.at(end))),
            Err(error) => Err(error),
        }
    }

    /// The format counts the elements of a sequence: another follows while
    /// the count has not run out.
    open spec fn element(&self, cursor: Cursor) -> Result<(bool, Self, Cursor), DeserializeError> {
        match cursor.left {
            Some(left) => if left > 0 {
                Ok((true, *self, Cursor { first: false, left: Some((left - 1) as usize) }))
            } else {
                Ok((false, *self, cursor))
            },
            None => Err(DeserializeError::UnknownError),
        }
    }

    /// The format counts the members of a record, and names each by its
    /// number alone.
    open spec fn member(&self, cursor: Cursor) -> Result<
        (Option<(Option<u32>, Name)>, Self, Cursor),
        DeserializeError,
    > {
        match cursor.left {
            Some(left) => if left > 0 {
                match key_at(self.data@, self.pos as int) {
                    Ok((id, end)) => Ok(
                        (
                            Some((Some(id), None)),
                            self.at(end),
                            Cursor { first: false, left: Some((left - 1) as usize) },
                        ),
                    ),
                    Err(error) => Err(error),
                }
            } else {
                Ok((None, *self, cursor))
            },
            None => Err(DeserializeError::UnknownError),
        }
    }

    proof fn head_advances(&self) {
        lemma_token_advances(self.data@, self.pos as int);
        assert(self.data@.len() == self.data.len());
    }

    proof fn element_advances(&self, cursor: Cursor) {
    }

    proof fn member_advances(&self, cursor: Cursor) {
        assert(self.data@.len() == self.data.len());
    }

    fn deserialize<V: Visitor>(&mut self, visitor: &mut V) -> (verdict: Result<
        (),
        DeserializeError,
    >) {
        proof {
            lemma_token_advances(self.data@, self.pos as int);
        }
        self.parse(visitor)
    }

    fn take_null(&mut self) -> (taken: bool) {
        if self.pos < self.data.len() && self.data[self.pos] == 0xc0 {
            self.pos = self.pos + 1;
            true
        } else {
            false
        }
    }

    fn next_element(&mut self, cursor: &mut Cursor) -> (more: Result<bool, DeserializeError>) {
        match cursor.left {
            Some(left) => {
                if left > 0 {
                    cursor.first = false;
                    cursor.left = Some(left - 1);
                    Ok(true)
                } else {
                    Ok(false)
                }
            },
            None => Err(DeserializeError::UnknownError),
        }
    }

    fn next_member(&mut self, cursor: &mut Cursor) -> (key: Result<
        Option<MemberKey>,
        DeserializeError,
    >) {
        match cursor.left {
            Some(left) => {
                if left > 0 {
                    let tag = self.read_u8()?;
                    let id = self.parse_unsigned(tag)?;
                    if id > 0xffff_ffff {
                        return Err(DeserializeError::IncompatibleNumericType);
                    }
                    cursor.first = false;
                    cursor.left = Some(left - 1);
                    Ok(Some(MemberKey { id: Some(id as u32), name: None }))
                } else {
                    Ok(None)
                }
            },
            None => Err(DeserializeError::UnknownError),
        }
    }
}

} // verus!
