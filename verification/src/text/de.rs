use crate::bindings::key::split;
use crate::bindings::key::split_key;
use crate::de::traits::Cursor;
use crate::de::traits::Deserializer;
use crate::de::traits::MemberKey;
use crate::de::traits::Name;
use crate::de::visitor::Token;
use crate::de::visitor::Visitor;
use crate::error::DeserializeError;
use crate::number::Float;
use crate::text::chars::is_word_char;
use crate::text::chars::blanks_end;
use crate::text::chars::chars_of;
use crate::text::chars::decimal;
use crate::text::chars::digit_value;
use crate::text::chars::digits_end;
use crate::text::chars::is_alphanumeric;
use crate::text::chars::is_digit;
use crate::text::chars::lemma_blanks_end;
use crate::text::chars::lemma_decimal_grows;
use crate::text::chars::lemma_digits_end;
use crate::text::chars::string_of;
use vstd::prelude::*;

verus! {

/// The token of an integer literal: a signed number where 64 bits with a
/// sign hold it, an unsigned one from the greatest signed number on.
pub open spec fn integer_token(negative: bool, whole: nat) -> Result<Token, DeserializeError> {
    if negative {
        if whole <= 0x8000_0000_0000_0000 {
            Ok(Token::Signed((-(whole as int)) as i64))
        } else {
            Err(DeserializeError::IncompatibleNumericType)
        }
    } else {
        if whole < 0x7fff_ffff_ffff_ffff {
            Ok(Token::Signed(whole as i64))
        } else {
            Ok(Token::Unsigned(whole as u64))
        }
    }
}

/// The mantissa and the exponent of a literal after the digits of its
/// fraction have been taken in. A digit is taken in as long as 64 bits hold
/// the mantissa and 16 bits with a sign the exponent; the digits from the
/// first that does not fit on are dropped.
pub open spec fn with_fraction(mantissa: nat, exponent: int, fraction: Seq<char>) -> (nat, int)
    decreases fraction.len(),
{
    if fraction.len() == 0 {
        (mantissa, exponent)
    } else {
        let longer = mantissa * 10 + digit_value(fraction[0]);
        if longer <= u64::MAX && exponent > i16::MIN {
            with_fraction(longer, exponent - 1, fraction.drop_first())
        } else {
            (mantissa, exponent)
        }
    }
}

/// The number literal at `pos`, and where it ends. It is an optional minus
/// sign, a run of one digit or more, and optionally a point and another
/// run of one digit or more. With a point it is a floating-point number,
/// else an integer. A run without a digit is a `ParsingError`, a run of
/// digits before the point that stands for more than 64 bits hold
/// `IncompatibleNumericType`.
pub open spec fn number_at(chars: Seq<char>, pos: int) -> Result<(Token, int), DeserializeError> {
    let negative = chars[pos] == '-';
    let start = if negative {
        pos + 1
    } else {
        pos
    };
    let point = digits_end(chars, start);
    let whole = decimal(chars.subrange(start, point));
    if point == start {
        Err(DeserializeError::ParsingError)
    } else if whole > u64::MAX {
        Err(DeserializeError::IncompatibleNumericType)
    } else if point < chars.len() && chars[point] == '.' {
        let end = digits_end(chars, point + 1);
        if end > point + 1 {
            let (mantissa, exponent) = with_fraction(whole, 0, chars.subrange(point + 1, end));
            Ok(
                (
                    Token::Float(
                        Float::Decimal {
                            negative,
                            mantissa: mantissa as u64,
                            exponent: exponent as i16,
                        },
                    ),
                    end,
                ),
            )
        } else {
            Err(DeserializeError::ParsingError)
        }
    } else {
        match integer_token(negative, whole) {
            Ok(token) => Ok((token, point)),
            Err(error) => Err(error),
        }
    }
}

/// Whether the word stands at `pos` and no letter or digit follows it.
pub open spec fn keyword_at(chars: Seq<char>, pos: int, word: Seq<char>) -> bool {
    &&& pos + word.len() <= chars.len()
    &&& chars.subrange(pos, pos + word.len()) == word
    &&& pos + word.len() < chars.len() ==> !is_word_char(chars[pos + word.len()])
}

/// The rest of a string from `pos` inside it, and where the string ends: the
/// characters up to the quote that closes it. Behind a backslash a quote
/// and a backslash stand for themselves, and nothing else may stand there.
pub open spec fn string_from(chars: Seq<char>, pos: int) -> Result<
    (Seq<char>, int),
    DeserializeError,
>
    decreases chars.len() - pos,
{
    if !(0 <= pos < chars.len()) {
        Err(DeserializeError::UnexpectedEof)
    } else if chars[pos] == '"' {
        Ok((Seq::empty(), pos + 1))
    } else if chars[pos] == '\\' {
        if pos + 1 >= chars.len() {
            Err(DeserializeError::UnexpectedEof)
        } else if chars[pos + 1] == '"' || chars[pos + 1] == '\\' {
            match string_from(chars, pos + 2) {
                Ok((rest, end)) => Ok((seq![chars[pos + 1]] + rest, end)),
                Err(error) => Err(error),
            }
        } else {
            Err(DeserializeError::ParsingError)
        }
    } else {
        match string_from(chars, pos + 1) {
            Ok((rest, end)) => Ok((seq![chars[pos]] + rest, end)),
            Err(error) => Err(error),
        }
    }
}

/// The string that opens at `pos`, and where it ends.
pub open spec fn string_at(chars: Seq<char>, pos: int) -> Result<(Seq<char>, int), DeserializeError> {
    string_from(chars, pos + 1)
}

/// A string ends behind where it is read from, and within the input.
pub proof fn lemma_string_from(chars: Seq<char>, pos: int)
    requires
        0 <= pos,
    ensures
        string_from(chars, pos) matches Ok((_, end)) ==> pos < end <= chars.len(),
    decreases chars.len() - pos,
{
    if pos < chars.len() && chars[pos] != '"' {
        if chars[pos] == '\\' {
            if pos + 1 < chars.len() {
                lemma_string_from(chars, pos + 2);
            }
        } else {
            lemma_string_from(chars, pos + 1);
        }
    }
}

/// The token at `pos` and where it ends, by its first character: a digit or
/// a minus sign starts a number, `n`, `t` and `f` the words `null`, `true`
/// and `false`, a quote a string, `[` a sequence and `{` a record.
pub open spec fn token_at(chars: Seq<char>, pos: int) -> Result<(Token, int), DeserializeError> {
    if !(0 <= pos < chars.len()) {
        Err(DeserializeError::UnexpectedEof)
    } else if is_digit(chars[pos]) || chars[pos] == '-' {
        number_at(chars, pos)
    } else if chars[pos] == 'n' {
        if keyword_at(chars, pos, seq!['n', 'u', 'l', 'l']) {
            Ok((Token::Null, pos + 4))
        } else {
            Err(DeserializeError::ParsingError)
        }
    } else if chars[pos] == 't' {
        if keyword_at(chars, pos, seq!['t', 'r', 'u', 'e']) {
            Ok((Token::Bool(true), pos + 4))
        } else {
            Err(DeserializeError::ParsingError)
        }
    } else if chars[pos] == 'f' {
        if keyword_at(chars, pos, seq!['f', 'a', 'l', 's', 'e']) {
            Ok((Token::Bool(false), pos + 5))
        } else {
            Err(DeserializeError::ParsingError)
        }
    } else if chars[pos] == '"' {
        match string_at(chars, pos) {
            Ok((text, end)) => Ok((Token::Str(text), end)),
            Err(error) => Err(error),
        }
    } else if chars[pos] == '[' {
        Ok((Token::Sequence(None), pos + 1))
    } else if chars[pos] == '{' {
        Ok((Token::Record(None), pos + 1))
    } else {
        Err(DeserializeError::ParsingError)
    }
}

/// Inside an aggregate that `closer` ends: the position of the next part or
/// of the closer. Blanks are passed over. Behind a part comes a comma or the
/// closer; a comma may stand before the closer.
pub open spec fn part_at(chars: Seq<char>, pos: int, first: bool, closer: char) -> Result<
    int,
    DeserializeError,
> {
    let at = blanks_end(chars, pos);
    if first {
        Ok(at)
    } else if at < chars.len() && chars[at] == ',' {
        Ok(blanks_end(chars, at + 1))
    } else if at < chars.len() && chars[at] == closer {
        Ok(at)
    } else {
        Err(DeserializeError::ParsingError)
    }
}

/// The key of the record member at `pos`, and where its value starts: a
/// string, a colon, and blanks where the writer sets them.
pub open spec fn key_at(chars: Seq<char>, pos: int) -> Result<
    ((Option<u32>, Name), int),
    DeserializeError,
> {
    if !(0 <= pos < chars.len()) {
        Err(DeserializeError::UnexpectedEof)
    } else if chars[pos] != '"' {
        Err(DeserializeError::ParsingError)
    } else {
        match string_at(chars, pos) {
            Ok((key, end)) => {
                let colon = blanks_end(chars, end);
                if colon >= chars.len() {
                    Err(DeserializeError::UnexpectedEof)
                } else if chars[colon] != ':' {
                    Err(DeserializeError::ParsingError)
                } else {
                    Ok(((split(key).0, Some(split(key).1)), blanks_end(chars, colon + 1)))
                }
            },
            Err(error) => Err(error),
        }
    }
}

/// The reader of the text format, over the characters of a string.
pub struct JsonDeserializer {
    pub data: Vec<char>,
    pub pos: usize,
}

impl JsonDeserializer {
    /// A reader at the start of `s`.
    pub fn new(s: &str) -> (de: Self)
        ensures
            de.data@ == s@,
            de.pos == 0,
            de.well_formed(),
    {
        let data = chars_of(s);
        assert(data@.len() == data.len());
        JsonDeserializer { data, pos: 0 }
    }

    /// The reader over the same characters at `pos`.
    pub open spec fn at(self, pos: int) -> Self {
        JsonDeserializer { data: self.data, pos: pos as usize }
    }

    /// The character at the head of the input, which stays there.
    pub fn peek_char(&self) -> (c: Option<char>)
        requires
            self.well_formed(),
        ensures
            c == if self.pos < self.data@.len() {
                Some(self.data@[self.pos as int])
            } else {
                None
            },
    {
        if self.pos < self.data.len() {
            Some(self.data[self.pos])
        } else {
            None
        }
    }

    /// Takes the character at the head of the input.
    pub fn next_char(&mut self) -> (c: Option<char>)
        requires
            old(self).well_formed(),
        ensures
            final(self).well_formed(),
            final(self).data == old(self).data,
            if old(self).pos < old(self).data@.len() {
                c == Some(old(self).data@[old(self).pos as int]) && final(self).pos == old(self).pos
                    + 1
            } else {
                c is None && final(self).pos == old(self).pos
            },
    {
        if self.pos < self.data.len() {
            let c = self.data[self.pos];
            self.pos = self.pos + 1;
            Some(c)
        } else {
            None
        }
    }

    /// Passes over the blanks at the head of the input.
    fn skip_blanks(&mut self)
        requires
            old(self).well_formed(),
        ensures
            final(self).well_formed(),
            final(self).data == old(self).data,
            final(self).pos == blanks_end(old(self).data@, old(self).pos as int),
    {
        while self.pos < self.data.len() && (self.data[self.pos] == ' ' || self.data[self.pos]
            == '\n')
            invariant
                self.well_formed(),
                self.data == old(self).data,
                old(self).pos <= self.pos,
                blanks_end(self.data@, self.pos as int) == blanks_end(
                    old(self).data@,
                    old(self).pos as int,
                ),
            decreases self.data@.len() - self.pos,
        {
            self.pos = self.pos + 1;
        }
    }

    /// Takes the word `kw` from the head of the input and says whether it
    /// stands there with no letter or digit behind it. Where it does not,
    /// the input that was compared is used up all the same.
    pub fn check_keywork(&mut self, kw: &'static str) -> (found: bool)
        requires
            old(self).well_formed(),
        ensures
            final(self).well_formed(),
            final(self).data == old(self).data,
            found == keyword_at(old(self).data@, old(self).pos as int, kw@),
            found ==> final(self).pos == old(self).pos + kw@.len(),
    {
        let word = chars_of(kw);
        let ghost chars = self.data@;
        let ghost from = self.pos as int;
        let mut index: usize = 0;
        proof {
            assert(chars.subrange(from, from) =~= word@.take(0));
        }
        while index < word.len()
            invariant
                self.well_formed(),
                self.data == old(self).data,
                chars == old(self).data@,
                from == old(self).pos,
                word@ == kw@,
                index <= word@.len(),
                self.pos == from + index,
                chars.subrange(from, from + index) == word@.take(index as int),
            decreases word@.len() - index,
        {
            match self.next_char() {
                Some(c) => {
                    if c != word[index] {
                        proof {
                            if from + word@.len() <= chars.len() {
                                let sub = chars.subrange(from, from + word@.len());
                                assert(sub[index as int] == chars[from + index]);
                            }
                        }
                        return false;
                    }
                },
                None => {
                    return false;
                },
            }
            index = index + 1;
            proof {
                assert(chars.subrange(from, from + index) =~= word@.take(index as int));
            }
        }
        proof {
            assert(word@.take(index as int) =~= word@);
        }
        match self.peek_char() {
            Some(c) => !is_alphanumeric(c),
            None => true,
        }
    }

    /// Reads a number literal and hands it to `visitor`.
    fn parse_integer<V: Visitor>(&mut self, visitor: &mut V) -> (verdict: Result<
        (),
        DeserializeError,
    >)
        requires
            old(self).well_formed(),
            old(self).pos < old(self).data@.len(),
        ensures
            final(self).well_formed(),
            final(self).data == old(self).data,
            match number_at(old(self).data@, old(self).pos as int) {
                Ok((token, end)) => {
                    &&& old(visitor).accepts(token, *final(visitor), verdict)
                    &&& final(self).pos == end
                },
                Err(error) => {
                    &&& verdict == Err::<(), DeserializeError>(error)
                    &&& *final(visitor) == *old(visitor)
                },
            },
    {
        let is_negative = self.data[self.pos] == '-';
        if is_negative {
            self.pos = self.pos + 1;
        }
        let digits_from = self.pos;
        let ghost chars = self.data@;
        let ghost start = self.pos as int;
        let ghost point = digits_end(chars, start);
        proof {
            lemma_digits_end(chars, start);
            assert(chars.subrange(start, start) =~= Seq::<char>::empty());
        }
        let mut int_part: u64 = 0;
        while self.pos < self.data.len() && self.data[self.pos] >= '0' && self.data[self.pos]
            <= '9'
            invariant
                self.well_formed(),
                self.data@ == chars,
                self.data == old(self).data,
                start <= self.pos <= point <= chars.len(),
                point == digits_end(chars, start),
                digits_end(chars, self.pos as int) == point,
                int_part == decimal(chars.subrange(start, self.pos as int)),
                forall|i: int| start <= i < point ==> is_digit(#[trigger] chars[i]),
                *visitor == *old(visitor),
                number_at(old(self).data@, old(self).pos as int) == number_at(
                    chars,
                    if is_negative {
                        start - 1
                    } else {
                        start
                    },
                ),
                is_negative == (chars[if is_negative {
                    start - 1
                } else {
                    start
                }] == '-'),
                0 <= (if is_negative {
                    start - 1
                } else {
                    start
                }),
            decreases chars.len() - self.pos,
        {
            let c = (self.data[self.pos] as u32 - '0' as u32) as u64;
            proof {
                lemma_digits_end(chars, self.pos + 1);
                let done = chars.subrange(start, self.pos as int);
                let more = chars.subrange(start, self.pos + 1);
                assert(more.drop_last() =~= done);
                assert(more.last() == chars[self.pos as int]);
                let run = chars.subrange(start, point);
                lemma_decimal_grows(run, self.pos + 1 - start);
                assert(run.take(self.pos + 1 - start) =~= more);
            }
            if int_part > (u64::MAX - c) / 10 {
                return Err(DeserializeError::IncompatibleNumericType);
            }
            int_part = int_part * 10 + c;
            self.pos = self.pos + 1;
        }
        proof {
            lemma_digits_end(chars, self.pos as int);
        }
        if self.pos == digits_from {
            return Err(DeserializeError::ParsingError);
        }
        let mut has_fraction = false;
        let mut mantissa: u64 = int_part;
        let mut exponent: i16 = 0;
        if self.pos < self.data.len() && self.data[self.pos] == '.' {
            self.pos = self.pos + 1;
            let ghost from = self.pos as int;
            let ghost end = digits_end(chars, from);
            let mut taking = true;
            proof {
                lemma_digits_end(chars, from);
                assert(chars.subrange(from, end).skip(0) =~= chars.subrange(from, end));
            }
            while self.pos < self.data.len() && self.data[self.pos] >= '0' && self.data[self.pos]
                <= '9'
                invariant
                    self.well_formed(),
                    self.data@ == chars,
                    self.data == old(self).data,
                    from <= self.pos <= end <= chars.len(),
                    end == digits_end(chars, from),
                    digits_end(chars, self.pos as int) == end,
                    has_fraction == (self.pos > from),
                    forall|i: int| from <= i < end ==> is_digit(#[trigger] chars[i]),
                    with_fraction(int_part as nat, 0, chars.subrange(from, end)) == if taking {
                        with_fraction(
                            mantissa as nat,
                            exponent as int,
                            chars.subrange(from, end).skip(self.pos - from),
                        )
                    } else {
                        (mantissa as nat, exponent as int)
                    },
                    *visitor == *old(visitor),
                decreases chars.len() - self.pos,
            {
                let c = (self.data[self.pos] as u32 - '0' as u32) as u64;
                proof {
                    lemma_digits_end(chars, self.pos + 1);
                    let rest = chars.subrange(from, end).skip(self.pos - from);
                    assert(rest[0] == chars[self.pos as int]);
                    assert(rest.drop_first() =~= chars.subrange(from, end).skip(
                        self.pos + 1 - from,
                    ));
                }
                if taking {
                    if mantissa > (u64::MAX - c) / 10 || exponent == i16::MIN {
                        taking = false;
                    } else {
                        mantissa = mantissa * 10 + c;
                        exponent = exponent - 1;
                    }
                }
                has_fraction = true;
                self.pos = self.pos + 1;
            }
            proof {
                lemma_digits_end(chars, self.pos as int);
                assert(chars.subrange(from, end).skip(end - from) =~= Seq::<char>::empty());
            }
            if !has_fraction {
                return Err(DeserializeError::ParsingError);
            }
        }
        if has_fraction {
            visitor.visit_float(Float::Decimal { negative: is_negative, mantissa, exponent })
        } else if is_negative {
            if int_part <= 0x8000_0000_0000_0000 {
                visitor.visit_signed((-(int_part as i128)) as i64)
            } else {
                Err(DeserializeError::IncompatibleNumericType)
            }
        } else {
            if int_part < 0x7fff_ffff_ffff_ffff {
                visitor.visit_signed(int_part as i64)
            } else {
                visitor.visit_unsigned(int_part)
            }
        }
    }

    /// Reads the word `null` and hands a null to `visitor`.
    fn parse_null<V: Visitor>(&mut self, visitor: &mut V) -> (verdict: Result<
        (),
        DeserializeError,
    >)
        requires
            old(self).well_formed(),
        ensures
            final(self).well_formed(),
            final(self).data == old(self).data,
            if keyword_at(old(self).data@, old(self).pos as int, seq!['n', 'u', 'l', 'l']) {
                &&& old(visitor).accepts(Token::Null, *final(visitor), verdict)
                &&& final(self).pos == old(self).pos + 4
            } else {
                &&& verdict == Err::<(), DeserializeError>(DeserializeError::ParsingError)
                &&& *final(visitor) == *old(visitor)
            },
    {
        proof {
            reveal_strlit("null");
            assert("null"@ =~= seq!['n', 'u', 'l', 'l']);
        }
        if self.check_keywork("null") {
            visitor.visit_null()
        } else {
            Err(DeserializeError::ParsingError)
        }
    }

    /// Reads the word `true` and hands it to `visitor`.
    fn parse_true<V: Visitor>(&mut self, visitor: &mut V) -> (verdict: Result<
        (),
        DeserializeError,
    >)
        requires
            old(self).well_formed(),
        ensures
            final(self).well_formed(),
            final(self).data == old(self).data,
            if keyword_at(old(self).data@, old(self).pos as int, seq!['t', 'r', 'u', 'e']) {
                &&& old(visitor).accepts(Token::Bool(true), *final(visitor), verdict)
                &&& final(self).pos == old(self).pos + 4
            } else {
                &&& verdict == Err::<(), DeserializeError>(DeserializeError::ParsingError)
                &&& *final(visitor) == *old(visitor)
            },
    {
        proof {
            reveal_strlit("true");
            assert("true"@ =~= seq!['t', 'r', 'u', 'e']);
        }
        if self.check_keywork("true") {
            visitor.visit_bool(true)
        } else {
            Err(DeserializeError::ParsingError)
        }
    }

    /// Reads the word `false` and hands it to `visitor`.
    fn parse_false<V: Visitor>(&mut self, visitor: &mut V) -> (verdict: Result<
        (),
        DeserializeError,
    >)
        requires
            old(self).well_formed(),
        ensures
            final(self).well_formed(),
            final(self).data == old(self).data,
            if keyword_at(old(self).data@, old(self).pos as int, seq!['f', 'a', 'l', 's', 'e']) {
                &&& old(visitor).accepts(Token::Bool(false), *final(visitor), verdict)
                &&& final(self).pos == old(self).pos + 5
            } else {
                &&& verdict == Err::<(), DeserializeError>(DeserializeError::ParsingError)
                &&& *final(visitor) == *old(visitor)
            },
    {
        proof {
            reveal_strlit("false");
            assert("false"@ =~= seq!['f', 'a', 'l', 's', 'e']);
        }
        if self.check_keywork("false") {
            visitor.visit_bool(false)
        } else {
            Err(DeserializeError::ParsingError)
        }
    }

    /// Reads the string that opens at the head of the input, up to the
    /// quote that closes it, and returns the characters that it stands for.
    fn scan_str(&mut self) -> (text: Result<Vec<char>, DeserializeError>)
        requires
            old(self).well_formed(),
            old(self).pos < old(self).data@.len(),
        ensures
            final(self).well_formed(),
            final(self).data == old(self).data,
            match string_at(old(self).data@, old(self).pos as int) {
                Ok((chars, end)) => {
                    &&& text is Ok
                    &&& text.unwrap()@ == chars
                    &&& final(self).pos == end
                },
                Err(error) => text == Err::<Vec<char>, DeserializeError>(error),
            },
    {
        let ghost whole = string_at(self.data@, self.pos as int);
        let mut out: Vec<char> = Vec::new();
        self.pos = self.pos + 1;
        proof {
            if let Ok((rest, end)) = whole {
                assert(out@ + rest =~= rest);
            }
        }
        loop
            invariant
                self.well_formed(),
                self.data == old(self).data,
                whole == string_at(old(self).data@, old(self).pos as int),
                whole == match string_from(self.data@, self.pos as int) {
                    Ok((rest, end)) => Ok::<(Seq<char>, int), DeserializeError>(
                        (out@ + rest, end),
                    ),
                    Err(error) => Err(error),
                },
            decreases self.data@.len() - self.pos,
        {
            assert(self.data@.len() == self.data.len());
            if self.pos >= self.data.len() {
                return Err(DeserializeError::UnexpectedEof);
            }
            let c = self.data[self.pos];
            if c == '"' {
                self.pos = self.pos + 1;
                proof {
                    assert(out@ + Seq::<char>::empty() =~= out@);
                }
                return Ok(out);
            }
            let ghost before = out@;
            if c == '\\' {
                if self.pos + 1 >= self.data.len() {
                    return Err(DeserializeError::UnexpectedEof);
                }
                let taken = self.data[self.pos + 1];
                if taken != '"' && taken != '\\' {
                    return Err(DeserializeError::ParsingError);
                }
                out.push(taken);
                self.pos = self.pos + 2;
                proof {
                    if let Ok((rest, end)) = string_from(self.data@, self.pos as int) {
                        assert(before + (seq![taken] + rest) =~= out@ + rest);
                    }
                }
            } else {
                out.push(c);
                self.pos = self.pos + 1;
                proof {
                    if let Ok((rest, end)) = string_from(self.data@, self.pos as int) {
                        assert(before + (seq![c] + rest) =~= out@ + rest);
                    }
                }
            }
        }
    }

    /// Reads a string and hands it to `visitor`.
    fn parse_str<V: Visitor>(&mut self, visitor: &mut V) -> (verdict: Result<
        (),
        DeserializeError,
    >)
        requires
            old(self).well_formed(),
            old(self).pos < old(self).data@.len(),
        ensures
            final(self).well_formed(),
            final(self).data == old(self).data,
            match string_at(old(self).data@, old(self).pos as int) {
                Ok((chars, end)) => {
                    &&& old(visitor).accepts(Token::Str(chars), *final(visitor), verdict)
                    &&& final(self).pos == end
                },
                Err(error) => {
                    &&& verdict == Err::<(), DeserializeError>(error)
                    &&& *final(visitor) == *old(visitor)
                },
            },
    {
        let chars = self.scan_str()?;
        let text = string_of(chars.as_slice());
        visitor.visit_str(text.as_str())
    }

    /// Inside an aggregate that `closer` ends: steps to the next part or to
    /// the closer.
    fn parse_separator(&mut self, first: bool, closer: char) -> (verdict: Result<
        (),
        DeserializeError,
    >)
        requires
            old(self).well_formed(),
        ensures
            final(self).well_formed(),
            final(self).data == old(self).data,
            match part_at(old(self).data@, old(self).pos as int, first, closer) {
                Ok(at) => verdict is Ok && final(self).pos == at,
                Err(error) => verdict == Err::<(), DeserializeError>(error),
            },
    {
        self.skip_blanks();
        if first {
            return Ok(());
        }
        match self.peek_char() {
            Some(c) => {
                if c == ',' {
                    self.pos = self.pos + 1;
                    self.skip_blanks();
                    Ok(())
                } else if c == closer {
                    Ok(())
                } else {
                    Err(DeserializeError::ParsingError)
                }
            },
            None => Err(DeserializeError::ParsingError),
        }
    }

    /// Reads the key of a record member, up to where its value starts.
    fn parse_key(&mut self) -> (key: Result<MemberKey, DeserializeError>)
        requires
            old(self).well_formed(),
        ensures
            final(self).well_formed(),
            final(self).data == old(self).data,
            match key_at(old(self).data@, old(self).pos as int) {
                Ok((found, at)) => {
                    &&& key is Ok
                    &&& key.unwrap()@ == found
                    &&& final(self).pos == at
                },
                Err(error) => key == Err::<MemberKey, DeserializeError>(error),
            },
    {
        match self.peek_char() {
            Some(c) => {
                if c != '"' {
                    return Err(DeserializeError::ParsingError);
                }
            },
            None => {
                return Err(DeserializeError::UnexpectedEof);
            },
        }
        let chars = self.scan_str()?;
        self.skip_blanks();
        match self.peek_char() {
            Some(c) => {
                if c != ':' {
                    return Err(DeserializeError::ParsingError);
                }
            },
            None => {
                return Err(DeserializeError::UnexpectedEof);
            },
        }
        self.pos = self.pos + 1;
        self.skip_blanks();
        let (id, name) = split_key(chars.as_slice());
        Ok(MemberKey { id, name: Some(string_of(name.as_slice())) })
    }
}

/// A token ends behind where it starts, and within the input.
pub proof fn lemma_token_advances(chars: Seq<char>, pos: int)
    ensures
        token_at(chars, pos) matches Ok((_, end)) ==> pos < end <= chars.len(),
{
    if 0 <= pos < chars.len() {
        if is_digit(chars[pos]) || chars[pos] == '-' {
            let start = if chars[pos] == '-' {
                pos + 1
            } else {
                pos
            };
            lemma_digits_end(chars, start);
            let point = digits_end(chars, start);
            if point < chars.len() {
                lemma_digits_end(chars, point + 1);
            }
        } else if chars[pos] == '"' {
            lemma_string_from(chars, pos + 1);
        }
    }
}

impl Deserializer for JsonDeserializer {
    open spec fn well_formed(&self) -> bool {
        self.pos <= self.data@.len() <= usize::MAX
    }

    open spec fn remaining(&self) -> nat {
        (self.data@.len() - self.pos) as nat
    }

    open spec fn head(&self) -> Result<(Token, Self), DeserializeError> {
        match token_at(self.data@, self.pos as int) {
            Ok((token, end)) => Ok((token, self.at(end))),
            Err(error) => Err(error),
        }
    }

    /// A sequence closes with `]`. The format does not count its elements.
    open spec fn element(&self, cursor: Cursor) -> Result<(bool, Self, Cursor), DeserializeError> {
        match part_at(self.data@, self.pos as int, cursor.first, ']') {
            Ok(at) => if at < self.data@.len() && self.data@[at] == ']' {
                Ok((false, self.at(at + 1), Cursor { first: false, left: cursor.left }))
            } else {
                Ok((true, self.at(at), Cursor { first: false, left: cursor.left }))
            },
            Err(error) => Err(error),
        }
    }

    /// A record closes with `}`. The format does not count its members.
    open spec fn member(&self, cursor: Cursor) -> Result<
        (Option<(Option<u32>, Name)>, Self, Cursor),
        DeserializeError,
    > {
        match part_at(self.data@, self.pos as int, cursor.first, '}') {
            Ok(at) => if at < self.data@.len() && self.data@[at] == '}' {
                Ok((None, self.at(at + 1), Cursor { first: false, left: cursor.left }))
            } else {
                match key_at(self.data@, at) {
                    Ok((key, value)) => Ok(
                        (Some(key), self.at(value), Cursor { first: false, left: cursor.left }),
                    ),
                    Err(error) => Err(error),
                }
            },
            Err(error) => Err(error),
        }
    }

    proof fn head_advances(&self) {
        lemma_token_advances(self.data@, self.pos as int);
        assert(self.data@.len() == self.data.len());
    }

    proof fn element_advances(&self, cursor: Cursor) {
        assert(self.data@.len() == self.data.len());
        lemma_blanks_end(self.data@, self.pos as int);
        let at = blanks_end(self.data@, self.pos as int);
        if at < self.data@.len() {
            lemma_blanks_end(self.data@, at + 1);
        }
    }

    proof fn member_advances(&self, cursor: Cursor) {
        assert(self.data@.len() == self.data.len());
        lemma_blanks_end(self.data@, self.pos as int);
        let at = blanks_end(self.data@, self.pos as int);
        if at < self.data@.len() {
            lemma_blanks_end(self.data@, at + 1);
        }
        if let Ok(part) = part_at(self.data@, self.pos as int, cursor.first, '}') {
            if part < self.data@.len() {
                lemma_blanks_end(self.data@, part);
                lemma_string_from(self.data@, part + 1);
                if let Ok((_, end)) = string_from(self.data@, part + 1) {
                    lemma_blanks_end(self.data@, end);
                    let colon = blanks_end(self.data@, end);
                    if colon < self.data@.len() {
                        lemma_blanks_end(self.data@, colon + 1);
                    }
                }
            }
        }
    }

    fn deserialize<V: Visitor>(&mut self, visitor: &mut V) -> (verdict: Result<
        (),
        DeserializeError,
    >) {
        proof {
            lemma_token_advances(self.data@, self.pos as int);
        }
        match self.peek_char() {
            Some(c) => {
                if (c >= '0' && c <= '9') || c == '-' {
                    self.parse_integer(visitor)
                } else if c == 'n' {
                    self.parse_null(visitor)
                } else if c == 't' {
                    self.parse_true(visitor)
                } else if c == 'f' {
                    self.parse_false(visitor)
                } else if c == '"' {
                    self.parse_str(visitor)
                } else if c == '[' {
                    self.pos = self.pos + 1;
                    visitor.visit_seq(None)
                } else if c == '{' {
                    self.pos = self.pos + 1;
                    visitor.visit_struct(None)
                } else {
                    Err(DeserializeError::ParsingError)
                }
            },
            None => Err(DeserializeError::UnexpectedEof),
        }
    }

    fn take_null(&mut self) -> (taken: bool) {
        match self.peek_char() {
            Some(c) => {
                if c == 'n' {
                    let start = self.pos;
                    proof {
                        reveal_strlit("null");
                        assert("null"@ =~= seq!['n', 'u', 'l', 'l']);
                    }
                    if self.check_keywork("null") {
                        true
                    } else {
                        self.pos = start;
                        false
                    }
                } else {
                    proof {
                        lemma_token_advances(self.data@, self.pos as int);
                    }
                    false
                }
            },
            None => false,
        }
    }

    fn next_element(&mut self, cursor: &mut Cursor) -> (more: Result<bool, DeserializeError>) {
        proof {
            lemma_blanks_end(self.data@, self.pos as int);
            let at = blanks_end(self.data@, self.pos as int);
            if at < self.data@.len() {
                lemma_blanks_end(self.data@, at + 1);
            }
        }
        self.parse_separator(cursor.first, ']')?;
        cursor.first = false;
        match self.peek_char() {
            Some(c) => {
                if c == ']' {
                    self.pos = self.pos + 1;
                    Ok(false)
                } else {
                    Ok(true)
                }
            },
            None => Ok(true),
        }
    }

    fn next_member(&mut self, cursor: &mut Cursor) -> (key: Result<
        Option<MemberKey>,
        DeserializeError,
    >) {
        proof {
            lemma_blanks_end(self.data@, self.pos as int);
            let at = blanks_end(self.data@, self.pos as int);
            if at < self.data@.len() {
                lemma_blanks_end(self.data@, at + 1);
            }
        }
        self.parse_separator(cursor.first, '}')?;
        cursor.first = false;
        match self.peek_char() {
            Some(c) => {
                if c == '}' {
                    self.pos = self.pos + 1;
                    return Ok(None);
                }
            },
            None => {},
        }
        Ok(Some(self.parse_key()?))
    }
}

} // verus!
