use crate::error::SerializeError;
use crate::number::Float;
use crate::ser::traits::Event;
use crate::ser::traits::Serializer;
use crate::text::chars::chars_of;
use crate::text::chars::digits;
use crate::text::chars::escaped;
use crate::text::chars::push_escaped;
use crate::text::chars::integer_text;
use crate::text::chars::push_chars;
use crate::text::chars::push_digits;
use crate::text::chars::push_repeated;
use crate::text::chars::push_str;
use crate::text::chars::repeated;
use crate::text::chars::string_of;
use vstd::prelude::*;

verus! {

/// The literal of the number `mantissa * 10^exponent`: the digits of the
/// mantissa, with zeros behind them for a positive exponent, and with a
/// point set into them for a negative one, behind a `0` where no digit is
/// left before the point.
pub open spec fn decimal_text(negative: bool, mantissa: u64, exponent: i16) -> Seq<char> {
    let sign = if negative {
        seq!['-']
    } else {
        Seq::<char>::empty()
    };
    let figures = digits(mantissa as nat);
    if exponent >= 0 {
        sign + figures + repeated('0', exponent as nat)
    } else if figures.len() > -exponent {
        sign + figures.take(figures.len() + exponent) + seq!['.'] + figures.skip(
            figures.len() + exponent,
        )
    } else {
        sign + seq!['0', '.'] + repeated('0', (-exponent - figures.len()) as nat) + figures
    }
}

/// The text of a floating-point number, which the format carries as a
/// decimal literal. It has no form for a bit pattern.
pub open spec fn float_text(value: Float) -> Option<Seq<char>> {
    match value {
        Float::Decimal { negative, mantissa, exponent } => Some(
            decimal_text(negative, mantissa, exponent),
        ),
        _ => None,
    }
}

/// A text between quotes: a quote and a backslash of the text stand behind
/// a backslash.
pub open spec fn quoted(text: Seq<char>) -> Seq<char> {
    seq!['"'] + escaped(text) + seq!['"']
}

/// The composite key of a member or a variant: its number, a colon, and its
/// name.
pub open spec fn composite(id: u32, name: Seq<char>) -> Seq<char> {
    digits(id as nat) + seq![':'] + name
}

/// The text of a scalar, or `None` where the format has no form for it or
/// the call is none of a scalar.
pub open spec fn scalar_text(event: Event) -> Option<Seq<char>> {
    match event {
        Event::Null => Some(seq!['n', 'u', 'l', 'l']),
        Event::Bool(value) => Some(
            if value {
                seq!['t', 'r', 'u', 'e']
            } else {
                seq!['f', 'a', 'l', 's', 'e']
            },
        ),
        Event::Signed(value) => Some(integer_text(value as int)),
        Event::Unsigned(value) => Some(integer_text(value as int)),
        Event::Float(value) => float_text(value),
        Event::Str(text) => Some(quoted(text)),
        Event::Enum(id, name) => Some(quoted(composite(id, name))),
        _ => None,
    }
}

/// The text that one call adds to the compact output. A member is written
/// as its composite key between quotes, a colon and its value, and a comma
/// follows every member and every element.
pub open spec fn compact_text(event: Event) -> Option<Seq<char>> {
    match event {
        Event::StartStruct(_) => Some(seq!['{']),
        Event::StartStructField(id, name) => Some(quoted(composite(id, name)) + seq![':']),
        Event::EndStructField => Some(seq![',']),
        Event::EndStruct => Some(seq!['}']),
        Event::StartSeq(_) => Some(seq!['[']),
        Event::StartSeqElmt => Some(Seq::empty()),
        Event::EndSeqElmt => Some(seq![',']),
        Event::EndSeq => Some(seq![']']),
        _ => scalar_text(event),
    }
}

/// The indentation of a line at the given depth: four spaces a level.
pub open spec fn indentation(level: nat) -> Seq<char> {
    repeated(' ', 4 * level)
}

/// What the pretty writer has written, and how deep it stands in open
/// aggregates.
pub struct Page {
    pub text: Seq<char>,
    pub level: nat,
}

/// The text that one call adds to the pretty output at depth `level`, and
/// the depth behind it. Every member and element stands on a line of its
/// own, indented by its depth, with a comma behind it. An aggregate cannot
/// be closed at depth zero, nor opened at the greatest depth that the
/// machine counts.
pub open spec fn pretty_text(level: nat, event: Event) -> Option<(Seq<char>, nat)> {
    match event {
        Event::StartStruct(_) => if level < usize::MAX {
            Some((seq!['{', '\n'], level + 1))
        } else {
            None
        },
        Event::StartStructField(id, name) => Some(
            (indentation(level) + quoted(composite(id, name)) + seq![':', ' '], level),
        ),
        Event::EndStructField => Some((seq![',', '\n'], level)),
        Event::EndStruct => if level > 0 {
            Some((indentation((level - 1) as nat) + seq!['}'], (level - 1) as nat))
        } else {
            None
        },
        Event::StartSeq(_) => if level < usize::MAX {
            Some((seq!['[', '\n'], level + 1))
        } else {
            None
        },
        Event::StartSeqElmt => Some((indentation(level), level)),
        Event::EndSeqElmt => Some((seq![',', '\n'], level)),
        Event::EndSeq => if level > 0 {
            Some((indentation((level - 1) as nat) + seq![']'], (level - 1) as nat))
        } else {
            None
        },
        _ => match scalar_text(event) {
            Some(text) => Some((text, level)),
            None => None,
        },
    }
}

/// Appends the decimal notation of a signed number.
fn push_signed(buffer: &mut Vec<char>, value: i64)
    ensures
        final(buffer)@ == old(buffer)@ + integer_text(value as int),
{
    if value < 0 {
        buffer.push('-');
        push_digits(buffer, (-(value as i128)) as u64);
        assert(final(buffer)@ =~= old(buffer)@ + integer_text(value as int));
    } else {
        push_digits(buffer, value as u64);
    }
}

/// Appends a text between quotes.
fn push_quoted(buffer: &mut Vec<char>, text: &str)
    ensures
        final(buffer)@ == old(buffer)@ + quoted(text@),
{
    let chars = chars_of(text);
    buffer.push('"');
    push_escaped(buffer, chars.as_slice());
    buffer.push('"');
    assert(final(buffer)@ =~= old(buffer)@ + quoted(text@));
}

/// Appends a composite key between quotes.
fn push_composite(buffer: &mut Vec<char>, id: u32, name: &str)
    ensures
        final(buffer)@ == old(buffer)@ + quoted(composite(id, name@)),
{
    let mut key: Vec<char> = Vec::new();
    push_digits(&mut key, id as u64);
    key.push(':');
    push_str(&mut key, name);
    assert(key@ =~= composite(id, name@));
    buffer.push('"');
    push_escaped(buffer, key.as_slice());
    buffer.push('"');
    assert(final(buffer)@ =~= old(buffer)@ + quoted(composite(id, name@)));
}

/// Appends the literal of a floating-point number, where the format has
/// one.
fn push_float(buffer: &mut Vec<char>, value: Float) -> (verdict: Result<(), SerializeError>)
    ensures
        match float_text(value) {
            Some(text) => verdict is Ok && final(buffer)@ == old(buffer)@ + text,
            None => verdict is Err && final(buffer)@ == old(buffer)@,
        },
{
    match value {
        Float::Decimal { negative, mantissa, exponent } => {
            if negative {
                buffer.push('-');
            }
            let mut figures: Vec<char> = Vec::new();
            push_digits(&mut figures, mantissa);
            assert(figures@ =~= digits(mantissa as nat));
            if exponent >= 0 {
                push_chars(buffer, figures.as_slice());
                push_repeated(buffer, '0', exponent as usize);
            } else {
                let behind: usize = (-(exponent as i32)) as usize;
                if figures.len() > behind {
                    let before = figures.len() - behind;
                    push_chars(buffer, vstd::slice::slice_subrange(figures.as_slice(), 0, before));
                    buffer.push('.');
                    push_chars(
                        buffer,
                        vstd::slice::slice_subrange(figures.as_slice(), before, figures.len()),
                    );
                    assert(figures@.subrange(0, before as int) =~= figures@.take(before as int));
                    assert(figures@.subrange(before as int, figures@.len() as int) =~= figures@.skip(
                        before as int,
                    ));
                } else {
                    buffer.push('0');
                    buffer.push('.');
                    push_repeated(buffer, '0', behind - figures.len());
                    push_chars(buffer, figures.as_slice());
                }
            }
            assert(final(buffer)@ =~= old(buffer)@ + decimal_text(negative, mantissa, exponent));
            Ok(())
        },
        _ => Err(SerializeError),
    }
}

/// The writer of the compact text format: no character stands between the
/// tokens but the commas and the colons.
pub struct JsonSerializer {
    pub buffer: Vec<char>,
}

impl JsonSerializer {
    /// A writer that has written nothing yet.
    pub fn new() -> (serializer: Self)
        ensures
            serializer.buffer@ == Seq::<char>::empty(),
    {
        JsonSerializer { buffer: Vec::new() }
    }

    /// What has been written, as a string.
    pub fn text(&self) -> (text: String)
        ensures
            text@ == self.buffer@,
    {
        string_of(self.buffer.as_slice())
    }
}

impl Serializer for JsonSerializer {
    type State = Seq<char>;

    open spec fn state(&self) -> Seq<char> {
        self.buffer@
    }

    open spec fn emit(state: Seq<char>, event: Event) -> Result<Seq<char>, SerializeError> {
        match compact_text(event) {
            Some(text) => Ok(state + text),
            None => Err(SerializeError),
        }
    }

    fn serialize_null(&mut self) -> (verdict: Result<(), SerializeError>) {
        proof {
            reveal_strlit("null");
        }
        push_str(&mut self.buffer, "null");
        assert(self.buffer@ =~= old(self).buffer@ + seq!['n', 'u', 'l', 'l']);
        Ok(())
    }

    fn serialize_bool(&mut self, value: bool) -> (verdict: Result<(), SerializeError>) {
        proof {
            reveal_strlit("true");
            reveal_strlit("false");
        }
        if value {
            push_str(&mut self.buffer, "true");
            assert(self.buffer@ =~= old(self).buffer@ + seq!['t', 'r', 'u', 'e']);
        } else {
            push_str(&mut self.buffer, "false");
            assert(self.buffer@ =~= old(self).buffer@ + seq!['f', 'a', 'l', 's', 'e']);
        }
        Ok(())
    }

    fn serialize_signed(&mut self, value: i64) -> (verdict: Result<(), SerializeError>) {
        push_signed(&mut self.buffer, value);
        Ok(())
    }

    fn serialize_unsigned(&mut self, value: u64) -> (verdict: Result<(), SerializeError>) {
        push_digits(&mut self.buffer, value);
        Ok(())
    }

    fn serialize_float(&mut self, value: Float) -> (verdict: Result<(), SerializeError>) {
        push_float(&mut self.buffer, value)
    }

    fn serialize_str(&mut self, value: &str) -> (verdict: Result<(), SerializeError>) {
        push_quoted(&mut self.buffer, value);
        Ok(())
    }

    fn serialize_enum(&mut self, value: u32, name: &'static str) -> (verdict: Result<
        (),
        SerializeError,
    >) {
        push_composite(&mut self.buffer, value, name);
        Ok(())
    }

    fn start_struct(&mut self, len: usize) -> (verdict: Result<(), SerializeError>) {
        self.buffer.push('{');
        assert(self.buffer@ =~= old(self).buffer@ + seq!['{']);
        Ok(())
    }

    fn start_struct_field(&mut self, field_id: u32, field_name: &'static str) -> (verdict:
        Result<(), SerializeError>) {
        push_composite(&mut self.buffer, field_id, field_name);
        self.buffer.push(':');
        assert(self.buffer@ =~= old(self).buffer@ + (quoted(composite(field_id, field_name@))
            + seq![':']));
        Ok(())
    }

    fn end_struct_field(&mut self) -> (verdict: Result<(), SerializeError>) {
        self.buffer.push(',');
        assert(self.buffer@ =~= old(self).buffer@ + seq![',']);
        Ok(())
    }

    fn end_struct(&mut self) -> (verdict: Result<(), SerializeError>) {
        self.buffer.push('}');
        assert(self.buffer@ =~= old(self).buffer@ + seq!['}']);
        Ok(())
    }

    fn start_seq(&mut self, len: usize) -> (verdict: Result<(), SerializeError>) {
        self.buffer.push('[');
        assert(self.buffer@ =~= old(self).buffer@ + seq!['[']);
        Ok(())
    }

    fn start_seq_elmt(&mut self) -> (verdict: Result<(), SerializeError>) {
        assert(self.buffer@ =~= old(self).buffer@ + Seq::<char>::empty());
        Ok(())
    }

    fn end_seq_elmt(&mut self) -> (verdict: Result<(), SerializeError>) {
        self.buffer.push(',');
        assert(self.buffer@ =~= old(self).buffer@ + seq![',']);
        Ok(())
    }

    fn end_seq(&mut self) -> (verdict: Result<(), SerializeError>) {
        self.buffer.push(']');
        assert(self.buffer@ =~= old(self).buffer@ + seq![']']);
        Ok(())
    }
}

/// The writer of the pretty text format: every member and every element
/// stands on a line of its own, indented by four spaces for each aggregate
/// that is open around it.
pub struct PrettyJsonSerializer {
    pub indent_level: usize,
    pub buffer: Vec<char>,
}

impl PrettyJsonSerializer {
    /// A writer that has written nothing yet.
    pub fn new() -> (serializer: Self)
        ensures
            serializer.buffer@ == Seq::<char>::empty(),
            serializer.indent_level == 0,
    {
        PrettyJsonSerializer { indent_level: 0, buffer: Vec::new() }
    }

    /// What has been written, as a string.
    pub fn text(&self) -> (text: String)
        ensures
            text@ == self.buffer@,
    {
        string_of(self.buffer.as_slice())
    }

    /// Writes the indentation of a line at the depth where the writer
    /// stands.
    pub fn print_indent(&mut self) -> (verdict: Result<(), SerializeError>)
        ensures
            verdict is Ok,
            final(self).indent_level == old(self).indent_level,
            final(self).buffer@ == old(self).buffer@ + indentation(old(self).indent_level as nat),
    {
        let mut level: usize = 0;
        assert(self.buffer@ =~= old(self).buffer@ + indentation(0));
        while level < self.indent_level
            invariant
                level <= self.indent_level == old(self).indent_level,
                self.buffer@ == old(self).buffer@ + indentation(level as nat),
            decreases self.indent_level - level,
        {
            push_repeated(&mut self.buffer, ' ', 4);
            level = level + 1;
            assert(self.buffer@ =~= old(self).buffer@ + indentation(level as nat));
        }
        Ok(())
    }

    /// Steps out of an aggregate and writes the character that closes it on
    /// a line of its own.
    fn close(&mut self, closer: char) -> (verdict: Result<(), SerializeError>)
        ensures
            if old(self).indent_level > 0 {
                &&& verdict is Ok
                &&& final(self).indent_level == old(self).indent_level - 1
                &&& final(self).buffer@ == old(self).buffer@ + (indentation(
                    (old(self).indent_level - 1) as nat,
                ) + seq![closer])
            } else {
                verdict is Err && *final(self) == *old(self)
            },
    {
        if self.indent_level == 0 {
            return Err(SerializeError);
        }
        self.indent_level = self.indent_level - 1;
        self.print_indent()?;
        self.buffer.push(closer);
        assert(self.buffer@ =~= old(self).buffer@ + (indentation(
            (old(self).indent_level - 1) as nat,
        ) + seq![closer]));
        Ok(())
    }

    /// Writes the character that opens an aggregate, ends the line and steps
    /// into the aggregate.
    fn open(&mut self, opener: char) -> (verdict: Result<(), SerializeError>)
        ensures
            if old(self).indent_level < usize::MAX {
                &&& verdict is Ok
                &&& final(self).indent_level == old(self).indent_level + 1
                &&& final(self).buffer@ == old(self).buffer@ + seq![opener, '\n']
            } else {
                verdict is Err && *final(self) == *old(self)
            },
    {
        if self.indent_level == usize::MAX {
            return Err(SerializeError);
        }
        self.buffer.push(opener);
        self.buffer.push('\n');
        self.indent_level = self.indent_level + 1;
        assert(self.buffer@ =~= old(self).buffer@ + seq![opener, '\n']);
        Ok(())
    }

    /// Writes the comma behind a member or an element and ends the line.
    fn end_line(&mut self)
        ensures
            final(self).indent_level == old(self).indent_level,
            final(self).buffer@ == old(self).buffer@ + seq![',', '\n'],
    {
        self.buffer.push(',');
        self.buffer.push('\n');
        assert(self.buffer@ =~= old(self).buffer@ + seq![',', '\n']);
    }
}

impl Serializer for PrettyJsonSerializer {
    type State = Page;

    open spec fn state(&self) -> Page {
        Page { text: self.buffer@, level: self.indent_level as nat }
    }

    open spec fn emit(state: Page, event: Event) -> Result<Page, SerializeError> {
        match pretty_text(state.level, event) {
            Some((text, level)) => Ok(Page { text: state.text + text, level }),
            None => Err(SerializeError),
        }
    }

    fn serialize_null(&mut self) -> (verdict: Result<(), SerializeError>) {
        proof {
            reveal_strlit("null");
        }
        push_str(&mut self.buffer, "null");
        assert(self.buffer@ =~= old(self).buffer@ + seq!['n', 'u', 'l', 'l']);
        Ok(())
    }

    fn serialize_bool(&mut self, value: bool) -> (verdict: Result<(), SerializeError>) {
        proof {
            reveal_strlit("true");
            reveal_strlit("false");
        }
        if value {
            push_str(&mut self.buffer, "true");
            assert(self.buffer@ =~= old(self).buffer@ + seq!['t', 'r', 'u', 'e']);
        } else {
            push_str(&mut self.buffer, "false");
            assert(self.buffer@ =~= old(self).buffer@ + seq!['f', 'a', 'l', 's', 'e']);
        }
        Ok(())
    }

    fn serialize_signed(&mut self, value: i64) -> (verdict: Result<(), SerializeError>) {
        push_signed(&mut self.buffer, value);
        Ok(())
    }

    fn serialize_unsigned(&mut self, value: u64) -> (verdict: Result<(), SerializeError>) {
        push_digits(&mut self.buffer, value);
        Ok(())
    }

    fn serialize_float(&mut self, value: Float) -> (verdict: Result<(), SerializeError>) {
        push_float(&mut self.buffer, value)
    }

    fn serialize_str(&mut self, value: &str) -> (verdict: Result<(), SerializeError>) {
        push_quoted(&mut self.buffer, value);
        Ok(())
    }

    fn serialize_enum(&mut self, value: u32, name: &'static str) -> (verdict: Result<
        (),
        SerializeError,
    >) {
        push_composite(&mut self.buffer, value, name);
        Ok(())
    }

    fn start_struct(&mut self, len: usize) -> (verdict: Result<(), SerializeError>) {
        self.open('{')
    }

    fn start_struct_field(&mut self, field_id: u32, field_name: &'static str) -> (verdict:
        Result<(), SerializeError>) {
        self.print_indent()?;
        push_composite(&mut self.buffer, field_id, field_name);
        self.buffer.push(':');
        self.buffer.push(' ');
        assert(self.buffer@ =~= old(self).buffer@ + (indentation(old(self).indent_level as nat)
            + quoted(composite(field_id, field_name@)) + seq![':', ' ']));
        Ok(())
    }

    fn end_struct_field(&mut self) -> (verdict: Result<(), SerializeError>) {
        self.end_line();
        Ok(())
    }

    fn end_struct(&mut self) -> (verdict: Result<(), SerializeError>) {
        self.close('}')
    }

    fn start_seq(&mut self, len: usize) -> (verdict: Result<(), SerializeError>) {
        self.open('[')
    }

    fn start_seq_elmt(&mut self) -> (verdict: Result<(), SerializeError>) {
        self.print_indent()
    }

    fn end_seq_elmt(&mut self) -> (verdict: Result<(), SerializeError>) {
        self.end_line();
        Ok(())
    }

    fn end_seq(&mut self) -> (verdict: Result<(), SerializeError>) {
        self.close(']')
    }
}

} // verus!
