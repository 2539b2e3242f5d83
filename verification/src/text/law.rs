use crate::de::impls::parsed_elements;
use crate::de::traits::Cursor;
use crate::de::traits::Deserialize;
use crate::bindings::key::all_digits;
use crate::bindings::key::split;
use crate::de::traits::Deserializer;
use crate::de::traits::Name;
use crate::de::visitor::Token;
use crate::error::DeserializeError;
use crate::error::SerializeError;
use crate::integer::Integer;
use crate::number::decimal_scaled;
use crate::number::Float;
use crate::number::SingleFloat;
use crate::model::Modeled;
use crate::msgpack::law::lemma_element_events_first;
use crate::ser::impls::element_events;
use crate::ser::impls::elmt_events;
use crate::ser::traits::emit_all;
use crate::ser::traits::Event;
use crate::ser::traits::Serialize;
use crate::text::chars::decimal;
use crate::text::chars::digit_of;
use crate::text::chars::digit_value;
use crate::text::chars::digits;
use crate::text::chars::digits_end;
use crate::text::chars::escape_one;
use crate::text::chars::escaped;
use crate::text::chars::lemma_escaped_first;
use crate::text::chars::first_of;
use crate::text::chars::integer_text;
use crate::text::chars::is_blank;
use crate::text::chars::is_digit;
use crate::text::chars::is_word_char;
use crate::text::chars::lemma_blanks_end;
use crate::text::chars::repeated;
use crate::text::de::keyword_at;
use crate::text::de::string_from;
use crate::text::de::with_fraction;
use crate::text::de::part_at;
use crate::text::de::token_at;
use crate::text::de::JsonDeserializer;
use crate::text::ser::compact_text;
use crate::text::ser::composite;
use crate::text::ser::decimal_text;
use crate::text::ser::quoted;
use crate::text::ser::JsonSerializer;
use vstd::arithmetic::power::pow;
use vstd::prelude::*;

verus! {

/// The text that the compact writer writes for a run of calls, or `None`
/// where it refuses one of them.
pub open spec fn text_of(events: Seq<Event>) -> Option<Seq<char>>
    decreases events.len(),
{
    if events.len() == 0 {
        Some(Seq::empty())
    } else {
        match (compact_text(events[0]), text_of(events.drop_first())) {
            (Some(head), Some(tail)) => Some(head + tail),
            _ => None,
        }
    }
}

/// Whether the reader stands before this text.
pub open spec fn faces(de: JsonDeserializer, text: Seq<char>) -> bool {
    &&& de.well_formed()
    &&& de.pos + text.len() <= de.data@.len()
    &&& de.data@.subrange(de.pos as int, de.pos + text.len()) == text
}

/// Whether a token that ends at `end` is complete there: the input ends, or
/// the next character is none that a number or a word goes on with.
pub open spec fn closed(chars: Seq<char>, end: int) -> bool {
    end >= chars.len() || (!is_word_char(chars[end]) && chars[end] != '.')
}

/// Whether a value can start with the character.
pub open spec fn opens_value(c: char) -> bool {
    is_digit(c) || c == '-' || c == 'n' || c == 't' || c == 'f' || c == '"' || c == '[' || c
        == '{'
}

/// What the writer holds after a run of calls is what it held before and
/// the text of the calls.
pub proof fn lemma_emit_all(state: Seq<char>, events: Seq<Event>)
    ensures
        emit_all::<JsonSerializer>(state, events) == match text_of(events) {
            Some(text) => Ok::<Seq<char>, SerializeError>(state + text),
            None => Err::<Seq<char>, SerializeError>(SerializeError),
        },
    decreases events.len(),
{
    if events.len() == 0 {
        assert(state + Seq::<char>::empty() =~= state);
    } else {
        if let Some(head) = compact_text(events[0]) {
            lemma_emit_all(state + head, events.drop_first());
            if let Some(tail) = text_of(events.drop_first()) {
                assert((state + head) + tail =~= state + (head + tail));
            }
        }
    }
}

/// The text of two runs of calls is the text of the one and of the other.
pub proof fn lemma_text_concat(first: Seq<Event>, second: Seq<Event>)
    ensures
        text_of(first + second) == match (text_of(first), text_of(second)) {
            (Some(head), Some(tail)) => Some(head + tail),
            _ => None,
        },
    decreases first.len(),
{
    if first.len() == 0 {
        assert(first + second =~= second);
        if let Some(tail) = text_of(second) {
            assert(Seq::<char>::empty() + tail =~= tail);
        }
    } else {
        assert((first + second)[0] == first[0]);
        assert((first + second).drop_first() =~= first.drop_first() + second);
        lemma_text_concat(first.drop_first(), second);
        if let (Some(one), Some(head), Some(tail)) = (
            compact_text(first[0]),
            text_of(first.drop_first()),
            text_of(second),
        ) {
            assert(one + (head + tail) =~= (one + head) + tail);
        }
    }
}

/// The text of one call.
pub proof fn lemma_text_one(event: Event)
    ensures
        text_of(seq![event]) == compact_text(event),
{
    reveal_with_fuel(text_of, 2);
    assert(seq![event].drop_first() =~= Seq::<Event>::empty());
    if let Some(text) = compact_text(event) {
        assert(text + Seq::<char>::empty() =~= text);
    }
}

/// A reader that stands before a text sees each of its characters.
pub proof fn lemma_seen(chars: Seq<char>, pos: int, text: Seq<char>, index: int)
    requires
        0 <= pos,
        pos + text.len() <= chars.len(),
        chars.subrange(pos, pos + text.len()) == text,
        0 <= index < text.len(),
    ensures
        chars[pos + index] == text[index],
{
    assert(chars.subrange(pos, pos + text.len())[index] == chars[pos + index]);
}

/// The decimal notation of a number holds digits only, and stands for the
/// number.
pub proof fn lemma_digits(value: nat)
    ensures
        digits(value).len() > 0,
        forall|i: int| 0 <= i < digits(value).len() ==> is_digit(#[trigger] digits(value)[i]),
        decimal(digits(value)) == value,
    decreases value,
{
    if value < 10 {
        let one = digits(value);
        assert(one.drop_last() =~= Seq::<char>::empty());
        reveal_with_fuel(decimal, 2);
        assert(digit_value(digit_of(value)) == value);
    } else {
        lemma_digits(value / 10);
        let all = digits(value);
        assert(all.drop_last() =~= digits(value / 10));
        assert(all.last() == digit_of(value % 10));
        assert(digit_value(digit_of(value % 10)) == value % 10);
        assert forall|i: int| 0 <= i < all.len() implies is_digit(#[trigger] all[i]) by {
            if i < all.len() - 1 {
                assert(all[i] == digits(value / 10)[i]);
            }
        }
    }
}

/// A run of digits ends where the first character that is no digit stands.
pub proof fn lemma_run_of_digits(chars: Seq<char>, pos: int, end: int)
    requires
        0 <= pos <= end <= chars.len(),
        forall|i: int| pos <= i < end ==> is_digit(#[trigger] chars[i]),
        end < chars.len() ==> !is_digit(chars[end]),
    ensures
        digits_end(chars, pos) == end,
    decreases end - pos,
{
    if pos < end {
        lemma_run_of_digits(chars, pos + 1, end);
    }
}

/// A character is found first where it stands first.
pub proof fn lemma_found_first(chars: Seq<char>, pos: int, end: int, wanted: char)
    requires
        0 <= pos <= end < chars.len(),
        forall|i: int| pos <= i < end ==> #[trigger] chars[i] != wanted,
        chars[end] == wanted,
    ensures
        first_of(chars, pos, wanted) == end,
    decreases end - pos,
{
    if pos < end {
        lemma_found_first(chars, pos + 1, end, wanted);
    }
}

/// An integer is read back from its decimal notation: as a signed number
/// below the greatest signed number, as an unsigned one from there on.
pub proof fn lemma_integer(chars: Seq<char>, pos: int, value: int)
    requires
        0 <= pos,
        -0x8000_0000_0000_0000 <= value <= 0xffff_ffff_ffff_ffff,
        pos + integer_text(value).len() <= chars.len(),
        chars.subrange(pos, pos + integer_text(value).len()) == integer_text(value),
        closed(chars, pos + integer_text(value).len()),
    ensures
        integer_text(value).len() > 0,
        opens_value(integer_text(value)[0]),
        token_at(chars, pos) == Ok::<(Token, int), DeserializeError>(
            (
                if value < 0x7fff_ffff_ffff_ffff {
                    Token::Signed(value as i64)
                } else {
                    Token::Unsigned(value as u64)
                },
                pos + integer_text(value).len(),
            ),
        ),
{
    let text = integer_text(value);
    let end = pos + text.len();
    let magnitude: nat = if value < 0 {
        (-value) as nat
    } else {
        value as nat
    };
    let figures = digits(magnitude);
    lemma_digits(magnitude);
    let start = if value < 0 {
        pos + 1
    } else {
        pos
    };
    lemma_seen(chars, pos, text, 0);
    assert forall|i: int| 0 <= i < figures.len() implies chars[start + i] == figures[i]
        && is_digit(#[trigger] chars[start + i]) by {
        lemma_seen(chars, pos, text, start + i - pos);
        assert(text[start + i - pos] == figures[i]);
    }
    assert forall|i: int| start <= i < end implies is_digit(#[trigger] chars[i]) by {
        assert(is_digit(chars[start + (i - start)]));
    }
    lemma_run_of_digits(chars, start, end);
    let run = chars.subrange(start, end);
    assert(run.len() == figures.len());
    assert forall|i: int| 0 <= i < figures.len() implies #[trigger] run[i] == figures[i] by {
        assert(chars[start + i] == figures[i]);
    }
    assert(run =~= figures);
    if value < 0 {
        assert(text[0] == '-');
    } else {
        assert(text[0] == figures[0]);
        assert(is_digit(figures[0]));
    }
}

/// A zero behind a minus sign is read back as the integer zero.
pub proof fn lemma_negative_zero(chars: Seq<char>, pos: int)
    requires
        0 <= pos,
        pos + 2 <= chars.len(),
        chars.subrange(pos, pos + 2) == seq!['-', '0'],
        closed(chars, pos + 2),
    ensures
        token_at(chars, pos) == Ok::<(Token, int), DeserializeError>((Token::Signed(0), pos + 2)),
{
    let text = seq!['-', '0'];
    lemma_seen(chars, pos, text, 0);
    lemma_seen(chars, pos, text, 1);
    assert forall|i: int| pos + 1 <= i < pos + 2 implies is_digit(#[trigger] chars[i]) by {
        assert(chars[pos + 1] == '0');
    }
    lemma_run_of_digits(chars, pos + 1, pos + 2);
    let run = chars.subrange(pos + 1, pos + 2);
    assert(run =~= seq!['0']);
    assert(run.drop_last() =~= Seq::<char>::empty());
    reveal_with_fuel(decimal, 2);
}

/// The number that digits stand for behind the digits of a number that has
/// been read.
pub open spec fn extended(mantissa: nat, more: Seq<char>) -> nat
    decreases more.len(),
{
    if more.len() == 0 {
        mantissa
    } else {
        extended(mantissa * 10 + digit_value(more[0]), more.drop_first())
    }
}

/// One more digit at the end multiplies by ten and adds the digit.
pub proof fn lemma_extended_push(mantissa: nat, more: Seq<char>, last: char)
    ensures
        extended(mantissa, more.push(last)) == extended(mantissa, more) * 10 + digit_value(last),
    decreases more.len(),
{
    if more.len() == 0 {
        reveal_with_fuel(extended, 2);
        assert(more.push(last).drop_first() =~= Seq::<char>::empty());
    } else {
        assert(more.push(last).drop_first() =~= more.drop_first().push(last));
        lemma_extended_push(mantissa * 10 + digit_value(more[0]), more.drop_first(), last);
    }
}

/// The digits of a number and more digits stand for the number extended by
/// the digits.
pub proof fn lemma_extended_decimal(figures: Seq<char>, more: Seq<char>)
    ensures
        decimal(figures + more) == extended(decimal(figures), more),
    decreases more.len(),
{
    if more.len() == 0 {
        assert(figures + more =~= figures);
    } else {
        let shorter = more.drop_last();
        lemma_extended_decimal(figures, shorter);
        assert((figures + more).drop_last() =~= figures + shorter);
        assert((figures + more).last() == more.last());
        lemma_extended_push(decimal(figures), shorter, more.last());
        assert(shorter.push(more.last()) =~= more);
    }
}

/// More digits make a number no smaller.
pub proof fn lemma_extended_grows(mantissa: nat, more: Seq<char>)
    ensures
        mantissa <= extended(mantissa, more),
    decreases more.len(),
{
    if more.len() > 0 {
        lemma_extended_grows(mantissa * 10 + digit_value(more[0]), more.drop_first());
    }
}

/// Zeros before the digits of a number change nothing.
pub proof fn lemma_extended_zeros(zeros: nat, more: Seq<char>)
    ensures
        extended(0, repeated('0', zeros) + more) == extended(0, more),
    decreases zeros,
{
    if zeros == 0 {
        assert(repeated('0', zeros) + more =~= more);
    } else {
        let all = repeated('0', zeros) + more;
        assert(all[0] == '0');
        assert(all.drop_first() =~= repeated('0', (zeros - 1) as nat) + more);
        lemma_extended_zeros((zeros - 1) as nat, more);
    }
}

/// The digits of a fraction are all taken in where the mantissa and the
/// exponent hold them.
pub proof fn lemma_with_fraction(mantissa: nat, exponent: int, more: Seq<char>)
    requires
        extended(mantissa, more) <= u64::MAX,
        exponent - more.len() >= i16::MIN,
    ensures
        with_fraction(mantissa, exponent, more) == (
            extended(mantissa, more),
            exponent - more.len(),
        ),
    decreases more.len(),
{
    if more.len() > 0 {
        let longer = mantissa * 10 + digit_value(more[0]);
        lemma_extended_grows(longer, more.drop_first());
        lemma_with_fraction(longer, exponent - 1, more.drop_first());
    }
}

/// A decimal literal with a fraction is read back from its text.
#[verifier::rlimit(60)]
pub proof fn lemma_fraction(
    chars: Seq<char>,
    pos: int,
    negative: bool,
    mantissa: u64,
    exponent: i16,
)
    requires
        0 <= pos,
        exponent < 0,
        pos + decimal_text(negative, mantissa, exponent).len() <= chars.len(),
        chars.subrange(pos, pos + decimal_text(negative, mantissa, exponent).len())
            == decimal_text(negative, mantissa, exponent),
        closed(chars, pos + decimal_text(negative, mantissa, exponent).len()),
    ensures
        decimal_text(negative, mantissa, exponent).len() > 0,
        opens_value(decimal_text(negative, mantissa, exponent)[0]),
        token_at(chars, pos) == Ok::<(Token, int), DeserializeError>(
            (
                Token::Float(Float::Decimal { negative, mantissa, exponent }),
                pos + decimal_text(negative, mantissa, exponent).len(),
            ),
        ),
{
    let text = decimal_text(negative, mantissa, exponent);
    let figures = digits(mantissa as nat);
    let behind = (-exponent) as nat;
    lemma_digits(mantissa as nat);
    let skip: int = if negative {
        1
    } else {
        0
    };
    // the digits before the point, and those behind it
    let before: Seq<char> = if figures.len() > behind {
        figures.take(figures.len() - behind)
    } else {
        seq!['0']
    };
    let after: Seq<char> = if figures.len() > behind {
        figures.skip(figures.len() - behind)
    } else {
        repeated('0', (behind - figures.len()) as nat) + figures
    };
    let sign: Seq<char> = if negative {
        seq!['-']
    } else {
        Seq::empty()
    };
    assert(text =~= sign + before + seq!['.'] + after);
    assert(after.len() == behind);
    let start = pos + skip;
    let point = start + before.len();
    let end = point + 1 + behind;
    assert(end == pos + text.len());
    assert forall|i: int| 0 <= i < text.len() implies chars[pos + i] == text[i] by {
        lemma_seen(chars, pos, text, i);
    }
    assert forall|i: int| start <= i < point implies is_digit(#[trigger] chars[i]) by {
        assert(chars[pos + (i - pos)] == text[i - pos]);
        assert(text[i - pos] == before[i - start]);
        if figures.len() > behind {
            assert(before[i - start] == figures[i - start]);
        }
    }
    assert(chars[pos + (point - pos)] == text[point - pos]);
    assert(chars[point] == '.');
    lemma_run_of_digits(chars, start, point);
    assert forall|i: int| point + 1 <= i < end implies is_digit(#[trigger] chars[i]) by {
        assert(chars[pos + (i - pos)] == text[i - pos]);
        assert(text[i - pos] == after[i - point - 1]);
        if figures.len() > behind {
            assert(after[i - point - 1] == figures[figures.len() - behind + (i - point - 1)]);
        } else if i - point - 1 >= behind - figures.len() {
            assert(after[i - point - 1] == figures[i - point - 1 - (behind - figures.len())]);
        }
    }
    lemma_run_of_digits(chars, point + 1, end);
    let run = chars.subrange(start, point);
    assert(run.len() == before.len());
    assert forall|i: int| 0 <= i < before.len() implies #[trigger] run[i] == before[i] by {
        assert(chars[pos + (start + i - pos)] == text[start + i - pos]);
    }
    assert(run =~= before);
    let fraction = chars.subrange(point + 1, end);
    assert(fraction.len() == after.len());
    assert forall|i: int| 0 <= i < after.len() implies #[trigger] fraction[i] == after[i] by {
        assert(chars[pos + (point + 1 + i - pos)] == text[point + 1 + i - pos]);
    }
    assert(fraction =~= after);
    // the digits before the point, extended by those behind it, stand for the mantissa
    if figures.len() > behind {
        assert(before + after =~= figures);
        lemma_extended_decimal(before, after);
    } else {
        reveal_with_fuel(decimal, 2);
        assert(before.drop_last() =~= Seq::<char>::empty());
        assert(decimal(before) == 0);
        lemma_extended_zeros((behind - figures.len()) as nat, figures);
        lemma_extended_decimal(Seq::empty(), figures);
        assert(Seq::<char>::empty() + figures =~= figures);
    }
    assert(extended(decimal(before), after) == mantissa);
    lemma_extended_grows(decimal(before), after);
    lemma_with_fraction(decimal(before), 0, after);
    lemma_seen(chars, pos, text, 0);
    if negative {
        assert(text[0] == '-');
    } else {
        assert(text[0] == before[0]);
        assert(is_digit(chars[start]));
    }
}

/// A word is read where it stands and ends.
pub proof fn lemma_keyword(chars: Seq<char>, pos: int, word: Seq<char>)
    requires
        0 <= pos,
        pos + word.len() <= chars.len(),
        chars.subrange(pos, pos + word.len()) == word,
        closed(chars, pos + word.len()),
    ensures
        keyword_at(chars, pos, word),
{
}

/// What stands for a text between quotes, with the closing quote behind
/// it, is read back as the text.
pub proof fn lemma_string_body(chars: Seq<char>, pos: int, text: Seq<char>)
    requires
        0 <= pos,
        pos + escaped(text).len() + 1 <= chars.len(),
        chars.subrange(pos, pos + escaped(text).len() + 1) == escaped(text) + seq!['"'],
    ensures
        string_from(chars, pos) == Ok::<(Seq<char>, int), DeserializeError>(
            (text, pos + escaped(text).len() + 1),
        ),
    decreases text.len(),
{
    let body = escaped(text) + seq!['"'];
    if text.len() == 0 {
        lemma_seen(chars, pos, body, 0);
        assert(text =~= Seq::<char>::empty());
        assert(escaped(text).len() == 0);
    } else {
        lemma_escaped_first(text);
        let first = text[0];
        let rest = text.drop_first();
        let head = escape_one(first);
        let tail = escaped(rest) + seq!['"'];
        assert(body =~= head + tail);
        lemma_seen(chars, pos, body, 0);
        if head.len() == 2 {
            lemma_seen(chars, pos, body, 1);
        }
        let next = pos + head.len();
        assert(chars.subrange(next, next + tail.len()) =~= tail) by {
            assert forall|i: int| 0 <= i < tail.len() implies chars[next + i] == #[trigger] tail[i] by {
                lemma_seen(chars, pos, body, head.len() + i);
            }
        }
        lemma_string_body(chars, next, rest);
        assert(seq![first] + rest =~= text);
        assert(escaped(text).len() == head.len() + escaped(rest).len());
        if head.len() == 2 {
            assert(chars[pos] == '\\' && chars[pos + 1] == first);
        } else {
            assert(chars[pos] == first);
        }
    }
}

/// A string is read back from between its quotes.
pub proof fn lemma_string(chars: Seq<char>, pos: int, text: Seq<char>)
    requires
        0 <= pos,
        pos + quoted(text).len() <= chars.len(),
        chars.subrange(pos, pos + quoted(text).len()) == quoted(text),
    ensures
        token_at(chars, pos) == Ok::<(Token, int), DeserializeError>(
            (Token::Str(text), pos + quoted(text).len()),
        ),
{
    let whole = quoted(text);
    let tail = escaped(text) + seq!['"'];
    assert(whole =~= seq!['"'] + tail);
    lemma_seen(chars, pos, whole, 0);
    assert(chars.subrange(pos + 1, pos + 1 + tail.len()) =~= tail) by {
        assert forall|i: int| 0 <= i < tail.len() implies chars[pos + 1 + i] == #[trigger] tail[i] by {
            lemma_seen(chars, pos, whole, 1 + i);
        }
    }
    lemma_string_body(chars, pos + 1, text);
}

/// A value that is read back from the text that the compact writer writes
/// for it.
///
/// Every type that the library binds has this law. It holds of the values
/// that are `sound`: the format writes an absent optional value and a
/// present null alike, so a present value that is itself written as a null
/// is none.
pub trait Textual: Serialize + Deserialize<JsonDeserializer> + Sized {
    /// Whether the format tells the value from every other of its type.
    spec fn sound(&self) -> bool;

    /// The value as it comes back: the value itself, but that a negative
    /// zero without a fraction comes back as a zero.
    spec fn carried(&self) -> Self::Model;

    /// A reader that stands before the text of the value, with nothing
    /// behind it that a number or a word goes on with, yields the value and
    /// stands behind the text. Its first token is a null only where the
    /// value's first call is one.
    proof fn round_trip(&self, de: JsonDeserializer)
        requires
            self.sound(),
            text_of(self.events()) is Some,
            faces(de, text_of(self.events()).unwrap()),
            closed(de.data@, de.pos + text_of(self.events()).unwrap().len()),
        ensures
            Self::parsed(de) == Ok::<(Self::Model, JsonDeserializer), DeserializeError>(
                (self.carried(), de.at(de.pos + text_of(self.events()).unwrap().len())),
            ),
            text_of(self.events()).unwrap().len() > 0,
            opens_value(text_of(self.events()).unwrap()[0]),
            de.head() matches Ok((Token::Null, _)) ==> self.events()[0] == Event::Null,
    ;
}

impl<T: Integer> Textual for T {
    open spec fn sound(&self) -> bool {
        true
    }

    open spec fn carried(&self) -> Self::Model {
        self.model()
    }

    proof fn round_trip(&self, de: JsonDeserializer) {
        self.range();
        T::range_of_type();
        if T::signed() {
            lemma_text_one(Event::Signed(self.value() as i64));
        } else {
            lemma_text_one(Event::Unsigned(self.value() as u64));
        }
        lemma_integer(de.data@, de.pos as int, self.value());
    }
}

impl Textual for bool {
    open spec fn sound(&self) -> bool {
        true
    }

    open spec fn carried(&self) -> Self::Model {
        self.model()
    }

    proof fn round_trip(&self, de: JsonDeserializer) {
        lemma_text_one(Event::Bool(*self));
        let text = text_of(self.events()).unwrap();
        lemma_keyword(de.data@, de.pos as int, text);
        assert(de.data@[de.pos as int] == text[0]);
    }
}

impl Textual for () {
    open spec fn sound(&self) -> bool {
        true
    }

    open spec fn carried(&self) -> Self::Model {
        self.model()
    }

    proof fn round_trip(&self, de: JsonDeserializer) {
        lemma_text_one(Event::Null);
        let text = text_of(self.events()).unwrap();
        lemma_keyword(de.data@, de.pos as int, text);
        assert(de.data@[de.pos as int] == text[0]);
    }
}

/// The decimal notation of a number that is not zero, with zeros behind
/// it, is the decimal notation of the number times the power of ten.
pub proof fn lemma_digits_scaled(mantissa: nat, exponent: nat)
    requires
        mantissa > 0,
    ensures
        mantissa * pow(10, exponent) > 0,
        digits(mantissa) + repeated('0', exponent) == digits((mantissa * pow(10, exponent)) as nat),
    decreases exponent,
{
    if exponent == 0 {
        vstd::arithmetic::power::lemma_pow0(10);
        assert(mantissa * 1 == mantissa) by (nonlinear_arith);
        assert(digits(mantissa) + repeated('0', 0) =~= digits(mantissa));
    } else {
        let less = (exponent - 1) as nat;
        lemma_digits_scaled(mantissa, less);
        vstd::arithmetic::power::lemma_pow_adds(10, less, 1);
        vstd::arithmetic::power::lemma_pow1(10);
        let before = mantissa * pow(10, less);
        let scaled = mantissa * pow(10, exponent);
        assert(scaled == before * 10) by (nonlinear_arith)
            requires
                scaled == mantissa * pow(10, exponent),
                before == mantissa * pow(10, less),
                pow(10, exponent) == pow(10, less) * 10,
        ;
        assert(digit_of(0) == '0');
        assert(repeated('0', exponent) =~= repeated('0', less).push('0'));
        assert(digits(mantissa) + repeated('0', exponent) =~= (digits(mantissa) + repeated(
            '0',
            less,
        )).push('0'));
    }
}

/// A decimal literal is read back as the same number. With a fraction it
/// is read back as it is. Without one the format writes it as an integer,
/// which a reader hands on as one: it comes back without an exponent, and
/// a negative zero as a zero. A literal without a fraction is sound where
/// the reader holds its integer: in 64 bits, with a sign where it is
/// negative. A zero with an exponent above zero is none, and a bit pattern
/// has no text.
impl Textual for Float {
    open spec fn sound(&self) -> bool {
        match self {
            Float::Decimal { negative, mantissa, exponent } => {
                ||| *exponent < 0
                ||| *mantissa == 0 && *exponent == 0
                ||| *mantissa > 0 && decimal_scaled(*mantissa as nat, *exponent as int) <= (if *negative {
                    0x8000_0000_0000_0000
                } else {
                    0xffff_ffff_ffff_ffffnat
                })
            },
            _ => true,
        }
    }

    open spec fn carried(&self) -> Float {
        match self {
            Float::Decimal { negative, mantissa, exponent } => if *exponent >= 0 {
                Float::of_integer(
                    if *negative {
                        -(decimal_scaled(*mantissa as nat, *exponent as int) as int)
                    } else {
                        decimal_scaled(*mantissa as nat, *exponent as int) as int
                    },
                )
            } else {
                *self
            },
            _ => *self,
        }
    }

    proof fn round_trip(&self, de: JsonDeserializer) {
        lemma_text_one(Event::Float(*self));
        match *self {
            Float::Decimal { negative, mantissa, exponent } => {
                if exponent < 0 {
                    lemma_fraction(de.data@, de.pos as int, negative, mantissa, exponent);
                } else if mantissa == 0 {
                    vstd::arithmetic::power::lemma_pow0(10);
                    assert(repeated('0', 0) =~= Seq::<char>::empty());
                    if negative {
                        assert(decimal_text(negative, mantissa, exponent) =~= seq!['-', '0']);
                        lemma_negative_zero(de.data@, de.pos as int);
                    } else {
                        assert(decimal_text(negative, mantissa, exponent) =~= integer_text(0));
                        lemma_integer(de.data@, de.pos as int, 0);
                    }
                } else {
                    lemma_digits_scaled(mantissa as nat, exponent as nat);
                    let scaled = decimal_scaled(mantissa as nat, exponent as int);
                    let value: int = if negative {
                        -(scaled as int)
                    } else {
                        scaled as int
                    };
                    assert(decimal_text(negative, mantissa, exponent) =~= integer_text(value));
                    lemma_integer(de.data@, de.pos as int, value);
                }
            },
            _ => {},
        }
    }
}

/// Single precision's range holds what comes back for a number that it
/// holds.
pub proof fn lemma_carried_holds(value: Float)
    requires
        value.single_holds(),
        value.sound(),
    ensures
        value.carried().single_holds(),
{
    if let Float::Decimal { negative, mantissa, exponent } = value {
        if exponent >= 0 {
            let scaled = decimal_scaled(mantissa as nat, exponent as int);
            vstd::arithmetic::power::lemma_pow0(10);
            assert(scaled * 1 == scaled) by (nonlinear_arith);
            assert(decimal_scaled(scaled, 0) == scaled);
            if mantissa == 0 {
                assert(0 * pow(10, 0) == 0) by (nonlinear_arith);
            }
        }
    }
}

/// A number bound for single precision is read back like any other
/// floating-point number: single precision's range holds what comes back.
impl Textual for SingleFloat {
    open spec fn sound(&self) -> bool {
        self.well_formed() && self.value.sound()
    }

    open spec fn carried(&self) -> SingleFloat {
        SingleFloat { value: self.value.carried() }
    }

    proof fn round_trip(&self, de: JsonDeserializer) {
        self.value.round_trip(de);
        lemma_carried_holds(self.value);
    }
}

impl Textual for String {
    open spec fn sound(&self) -> bool {
        true
    }

    open spec fn carried(&self) -> Self::Model {
        self.model()
    }

    proof fn round_trip(&self, de: JsonDeserializer) {
        lemma_text_one(Event::Str(self@));
        lemma_string(de.data@, de.pos as int, self@);
        let text = text_of(self.events()).unwrap();
        assert(text[0] == '"');
        assert(de.data@[de.pos as int] == text[0]);
    }
}

impl<T: Textual> Textual for Option<T> {
    open spec fn sound(&self) -> bool {
        match self {
            Some(value) => value.sound() && value.events()[0] != Event::Null,
            None => true,
        }
    }

    open spec fn carried(&self) -> Option<T::Model> {
        match self {
            Some(value) => Some(value.carried()),
            None => None,
        }
    }

    proof fn round_trip(&self, de: JsonDeserializer) {
        match self {
            Some(value) => {
                value.round_trip(de);
            },
            None => {
                lemma_text_one(Event::Null);
                let text = text_of(self.events()).unwrap();
                lemma_keyword(de.data@, de.pos as int, text);
                assert(de.data@[de.pos as int] == text[0]);
            },
        }
    }
}

/// Whether every value is sound.
pub open spec fn all_sound<T: Textual>(values: Seq<T>) -> bool {
    forall|i: int| 0 <= i < values.len() ==> (#[trigger] values[i]).sound()
}

/// The values of a sequence as they come back, in order.
pub open spec fn carried_all<T: Textual>(values: Seq<T>) -> Seq<T::Model> {
    values.map_values(|value: T| value.carried())
}

/// The text between the brackets of a sequence from where a reader stands:
/// the comma behind the element that was read last, unless none was; the
/// elements that are left, each with a comma behind it; and the bracket
/// that closes the sequence.
pub open spec fn rest_of_sequence(first: bool, body: Seq<char>) -> Seq<char> {
    (if first {
        Seq::<char>::empty()
    } else {
        seq![',']
    }) + body + seq![']']
}

/// Inside a sequence, a reader that stands before the comma behind an
/// element, or before the first element, steps to what follows.
pub proof fn lemma_step(chars: Seq<char>, pos: int, first: bool)
    requires
        0 <= pos,
        first ==> pos < chars.len() && !is_blank(chars[pos]),
        !first ==> pos + 1 < chars.len() && chars[pos] == ',' && !is_blank(chars[pos + 1]),
    ensures
        part_at(chars, pos, first, ']') == Ok::<int, DeserializeError>(
            if first {
                pos
            } else {
                pos + 1
            },
        ),
{
    lemma_blanks_end(chars, pos);
    if !first {
        lemma_blanks_end(chars, pos + 1);
    }
}

/// The text of the elements of a sequence is that of the first element, a
/// comma, and that of the others.
pub proof fn lemma_text_of_elements<T: Serialize>(values: Seq<T>)
    requires
        values.len() > 0,
        text_of(element_events(values)) is Some,
    ensures
        text_of(values[0].events()) is Some,
        text_of(element_events(values.drop_first())) is Some,
        text_of(element_events(values)).unwrap() == text_of(values[0].events()).unwrap() + seq![
            ',',
        ] + text_of(element_events(values.drop_first())).unwrap(),
{
    let first = values[0];
    let rest = values.drop_first();
    lemma_element_events_first(values);
    lemma_text_concat(elmt_events(&first), element_events(rest));
    lemma_text_concat(seq![Event::StartSeqElmt] + first.events(), seq![Event::EndSeqElmt]);
    lemma_text_concat(seq![Event::StartSeqElmt], first.events());
    lemma_text_one(Event::StartSeqElmt);
    lemma_text_one(Event::EndSeqElmt);
    let head = text_of(first.events()).unwrap();
    let tail = text_of(element_events(rest)).unwrap();
    assert(text_of(seq![Event::StartSeqElmt] + first.events()).unwrap() =~= head);
    assert(text_of(elmt_events(&first)).unwrap() =~= head + seq![',']);
}

/// A reader that stands inside a sequence, before the text of the elements
/// that are left, yields them and stands behind the sequence.
#[verifier::rlimit(40)]
pub proof fn lemma_elements<T: Textual>(values: Seq<T>, de: JsonDeserializer, cursor: Cursor)
    requires
        all_sound(values),
        text_of(element_events(values)) is Some,
        faces(de, rest_of_sequence(cursor.first, text_of(element_events(values)).unwrap())),
    ensures
        parsed_elements::<T, JsonDeserializer>(de, cursor) == Ok::<
            (Seq<T::Model>, JsonDeserializer),
            DeserializeError,
        >(
            (
                carried_all(values),
                de.at(
                    de.pos + rest_of_sequence(
                        cursor.first,
                        text_of(element_events(values)).unwrap(),
                    ).len(),
                ),
            ),
        ),
    decreases values.len(),
{
    let chars = de.data@;
    let pos = de.pos as int;
    let body = text_of(element_events(values)).unwrap();
    let whole = rest_of_sequence(cursor.first, body);
    let skip: int = if cursor.first {
        0
    } else {
        1
    };
    lemma_seen(chars, pos, whole, 0);
    lemma_seen(chars, pos, whole, skip);
    if values.len() == 0 {
        assert(body =~= Seq::<char>::empty());
        lemma_step(chars, pos, cursor.first);
        assert(carried_all(values) =~= Seq::<T::Model>::empty());
    } else {
        let first = values[0];
        let rest = values.drop_first();
        lemma_text_of_elements(values);
        let head = text_of(first.events()).unwrap();
        let tail = text_of(element_events(rest)).unwrap();
        let at = de.at(pos + skip);
        assert(chars.subrange(pos + skip, pos + skip + head.len()) =~= whole.subrange(
            skip,
            skip + head.len(),
        ));
        assert(whole.subrange(skip, skip + head.len()) =~= head);
        lemma_seen(chars, pos, whole, skip + head.len());
        assert(whole[skip + head.len()] == ',');
        assert(first.sound());
        first.round_trip(at);
        assert(whole[skip] == head[0]);
        lemma_step(chars, pos, cursor.first);
        let behind = de.at(pos + skip + head.len());
        let moved = Cursor { first: false, left: cursor.left };
        let after = rest_of_sequence(false, tail);
        assert(behind.data@.subrange(behind.pos as int, behind.pos + after.len())
            =~= whole.subrange(skip + head.len(), whole.len() as int));
        assert(whole.subrange(skip + head.len(), whole.len() as int) =~= after);
        assert(all_sound(rest)) by {
            assert forall|i: int| 0 <= i < rest.len() implies (#[trigger] rest[i]).sound() by {
                assert(rest[i] == values[i + 1]);
            }
        }
        lemma_elements(rest, behind, moved);
        assert(carried_all(values) =~= seq![first.carried()] + carried_all(rest));
        assert(behind.at(behind.pos + after.len()) == de.at(pos + whole.len()));
    }
}

impl<T: Textual> Textual for Vec<T> {
    open spec fn sound(&self) -> bool {
        all_sound(self@)
    }

    open spec fn carried(&self) -> Seq<T::Model> {
        carried_all(self@)
    }

    proof fn round_trip(&self, de: JsonDeserializer) {
        let opening = seq![Event::StartSeq(self@.len() as usize)];
        lemma_text_concat(opening + element_events(self@), seq![Event::EndSeq]);
        lemma_text_concat(opening, element_events(self@));
        lemma_text_one(Event::StartSeq(self@.len() as usize));
        lemma_text_one(Event::EndSeq);
        let whole = text_of(self.events()).unwrap();
        let body = text_of(element_events(self@)).unwrap();
        assert(whole =~= seq!['['] + body + seq![']']);
        assert(de.data@[de.pos as int] == whole[0]);
        let inside = de.at(de.pos + 1);
        let after = rest_of_sequence(true, body);
        assert(after =~= body + seq![']']);
        assert(inside.data@.subrange(inside.pos as int, inside.pos + after.len())
            =~= whole.subrange(1, whole.len() as int));
        assert(whole.subrange(1, whole.len() as int) =~= after);
        lemma_elements(self@, inside, Cursor { first: true, left: None });
        assert(inside.at(inside.pos + after.len()) == de.at(de.pos + whole.len()));
    }
}

/// The text of a member's key from where a reader stands inside a record:
/// the comma behind the member that was read last, unless none was; the
/// composite key between quotes; and a colon.
pub open spec fn key_text(first: bool, id: u32, name: Seq<char>) -> Seq<char> {
    (if first {
        Seq::<char>::empty()
    } else {
        seq![',']
    }) + quoted(composite(id, name)) + seq![':']
}

/// The composite key of a member is split into the member's number and its
/// name.
pub proof fn lemma_composite_splits(id: u32, name: Seq<char>)
    ensures
        split(composite(id, name)) == (Some(id), name),
{
    let text = composite(id, name);
    let figures = digits(id as nat);
    lemma_digits(id as nat);
    assert forall|i: int| 0 <= i < figures.len() implies #[trigger] text[i] != ':' by {
        assert(text[i] == figures[i]);
    }
    assert(text[figures.len() as int] == ':');
    lemma_found_first(text, 0, figures.len() as int, ':');
    assert(text.take(figures.len() as int) =~= figures);
    assert(text.skip(figures.len() as int + 1) =~= name);
    assert(all_digits(figures));
    assert(figures[0] != '+');
}

/// What the compact writer has written to announce a member of a record, a
/// reader inside the record reads back as the member's key: the number and
/// the name of the member. The reader then stands before the member's
/// value.
pub proof fn theorem_member_round_trip(
    id: u32,
    name: Seq<char>,
    de: JsonDeserializer,
    cursor: Cursor,
)
    requires
        faces(de, key_text(cursor.first, id, name)),
        de.pos + key_text(cursor.first, id, name).len() < de.data@.len(),
        opens_value(de.data@[de.pos + key_text(cursor.first, id, name).len()]),
    ensures
        de.member(cursor) == Ok::<
            (Option<(Option<u32>, Name)>, JsonDeserializer, Cursor),
            DeserializeError,
        >(
            (
                Some((Some(id), Some(name))),
                de.at(de.pos + key_text(cursor.first, id, name).len()),
                Cursor { first: false, left: cursor.left },
            ),
        ),
{
    let chars = de.data@;
    let pos = de.pos as int;
    let whole = key_text(cursor.first, id, name);
    let key = composite(id, name);
    let skip: int = if cursor.first {
        0
    } else {
        1
    };
    lemma_composite_splits(id, name);
    lemma_digits(id as nat);
    lemma_seen(chars, pos, whole, 0);
    lemma_seen(chars, pos, whole, skip);
    lemma_seen(chars, pos, whole, whole.len() - 1);
    lemma_blanks_end(chars, pos);
    lemma_blanks_end(chars, pos + skip);
    let start = pos + skip;
    assert(chars.subrange(start, start + quoted(key).len()) =~= whole.subrange(
        skip,
        skip + quoted(key).len(),
    ));
    assert(whole.subrange(skip, skip + quoted(key).len()) =~= quoted(key));
    lemma_string(chars, start, key);
    let end = start + quoted(key).len();
    lemma_blanks_end(chars, end);
    lemma_blanks_end(chars, end + 1);
}

/// What the compact writer has written to close a record, a reader inside
/// the record reads as the record's end.
pub proof fn theorem_record_close(de: JsonDeserializer, cursor: Cursor)
    requires
        faces(
            de,
            (if cursor.first {
                Seq::<char>::empty()
            } else {
                seq![',']
            }) + seq!['}'],
        ),
    ensures
        de.member(cursor) == Ok::<
            (Option<(Option<u32>, Name)>, JsonDeserializer, Cursor),
            DeserializeError,
        >(
            (
                None,
                de.at(
                    de.pos + if cursor.first {
                        1int
                    } else {
                        2int
                    },
                ),
                Cursor { first: false, left: cursor.left },
            ),
        ),
{
    let chars = de.data@;
    let pos = de.pos as int;
    let whole = (if cursor.first {
        Seq::<char>::empty()
    } else {
        seq![',']
    }) + seq!['}'];
    lemma_seen(chars, pos, whole, 0);
    lemma_seen(chars, pos, whole, whole.len() - 1);
    lemma_blanks_end(chars, pos);
    lemma_blanks_end(chars, pos + 1);
}

/// A comma before the bracket that closes a sequence changes nothing: a
/// reader behind an element closes the sequence at the bracket, and at a
/// comma that the bracket follows.
pub proof fn lemma_trailing_comma(de: JsonDeserializer, cursor: Cursor)
    requires
        de.well_formed(),
        !cursor.first,
        de.pos < de.data@.len(),
        de.data@[de.pos as int] == ']' || (de.data@[de.pos as int] == ',' && de.pos + 1
            < de.data@.len() && de.data@[de.pos + 1] == ']'),
    ensures
        de.element(cursor) == Ok::<(bool, JsonDeserializer, Cursor), DeserializeError>(
            (
                false,
                de.at(
                    if de.data@[de.pos as int] == ']' {
                        de.pos + 1
                    } else {
                        de.pos + 2
                    },
                ),
                Cursor { first: false, left: cursor.left },
            ),
        ),
{
    lemma_blanks_end(de.data@, de.pos as int);
    if de.data@[de.pos as int] == ',' {
        lemma_blanks_end(de.data@, de.pos + 1);
    }
}

/// What the compact writer has written for a value, a reader of the text
/// format reads back: it yields the value, and stands at the end of the
/// text.
pub proof fn theorem_round_trip<T: Textual>(value: T, written: Seq<char>, de: JsonDeserializer)
    requires
        value.sound(),
        emit_all::<JsonSerializer>(Seq::empty(), value.events()) == Ok::<
            Seq<char>,
            SerializeError,
        >(written),
        de.data@ == written,
        de.pos == 0,
    ensures
        T::parsed(de) == Ok::<(T::Model, JsonDeserializer), DeserializeError>(
            (value.carried(), de.at(written.len() as int)),
        ),
{
    lemma_emit_all(Seq::empty(), value.events());
    let text = text_of(value.events()).unwrap();
    assert(Seq::<char>::empty() + text =~= text);
    assert(de.data@.len() == de.data.len());
    assert(de.data@.subrange(0, text.len() as int) =~= text);
    value.round_trip(de);
}

/// The text between the brackets of a sequence from where a reader stands,
/// with no comma behind the last element: the comma behind the element
/// that was read last, unless none was; the elements that are left, with a
/// comma between two of them; and the bracket that closes the sequence.
pub open spec fn plain_rest<T: Serialize>(first: bool, values: Seq<T>) -> Seq<char>
    decreases values.len(),
{
    if values.len() == 0 {
        seq![']']
    } else {
        (if first {
            Seq::<char>::empty()
        } else {
            seq![',']
        }) + text_of(values[0].events()).unwrap() + plain_rest(false, values.drop_first())
    }
}

/// The text that the writer sets between the brackets of a sequence ends
/// with a comma, and without that comma it is the text with no comma behind
/// the last element.
pub proof fn lemma_plain_rest<T: Serialize>(first: bool, values: Seq<T>)
    requires
        values.len() > 0,
        text_of(element_events(values)) is Some,
    ensures
        forall|i: int| 0 <= i < values.len() ==> text_of((#[trigger] values[i]).events()) is Some,
        text_of(element_events(values)).unwrap().len() > 0,
        text_of(element_events(values)).unwrap().last() == ',',
        plain_rest(first, values) == (if first {
            Seq::<char>::empty()
        } else {
            seq![',']
        }) + text_of(element_events(values)).unwrap().drop_last() + seq![']'],
    decreases values.len(),
{
    let body = text_of(element_events(values)).unwrap();
    let rest = values.drop_first();
    let sep = if first {
        Seq::<char>::empty()
    } else {
        seq![',']
    };
    lemma_text_of_elements(values);
    let head = text_of(values[0].events()).unwrap();
    let tail = text_of(element_events(rest)).unwrap();
    if rest.len() == 0 {
        assert(tail =~= Seq::<char>::empty());
        assert(body.drop_last() =~= head);
        reveal_with_fuel(plain_rest, 2);
        assert(plain_rest(first, values) =~= sep + body.drop_last() + seq![']']);
    } else {
        lemma_plain_rest(false, rest);
        assert(body.drop_last() =~= head + seq![','] + tail.drop_last());
        assert(plain_rest(first, values) =~= sep + body.drop_last() + seq![']']);
    }
    assert forall|i: int| 0 <= i < values.len() implies text_of(
        (#[trigger] values[i]).events(),
    ) is Some by {
        if i > 0 {
            assert(values[i] == rest[i - 1]);
        }
    }
}

/// A reader that stands inside a sequence, before the text of the elements
/// that are left with no comma behind the last of them, yields them and
/// stands behind the sequence.
#[verifier::rlimit(40)]
pub proof fn lemma_elements_plain<T: Textual>(values: Seq<T>, de: JsonDeserializer, cursor: Cursor)
    requires
        all_sound(values),
        forall|i: int| 0 <= i < values.len() ==> text_of((#[trigger] values[i]).events()) is Some,
        faces(de, plain_rest(cursor.first, values)),
    ensures
        parsed_elements::<T, JsonDeserializer>(de, cursor) == Ok::<
            (Seq<T::Model>, JsonDeserializer),
            DeserializeError,
        >((carried_all(values), de.at(de.pos + plain_rest(cursor.first, values).len()))),
    decreases values.len(),
{
    let chars = de.data@;
    let pos = de.pos as int;
    let whole = plain_rest(cursor.first, values);
    if values.len() == 0 {
        lemma_seen(chars, pos, whole, 0);
        lemma_blanks_end(chars, pos);
        assert(carried_all(values) =~= Seq::<T::Model>::empty());
    } else {
        let skip: int = if cursor.first {
            0
        } else {
            1
        };
        let first = values[0];
        let rest = values.drop_first();
        let head = text_of(first.events()).unwrap();
        let after = plain_rest(false, rest);
        assert(after.len() > 0 && (after[0] == ',' || after[0] == ']'));
        lemma_seen(chars, pos, whole, 0);
        lemma_seen(chars, pos, whole, skip);
        let at = de.at(pos + skip);
        assert(chars.subrange(pos + skip, pos + skip + head.len()) =~= whole.subrange(
            skip,
            skip + head.len(),
        ));
        assert(whole.subrange(skip, skip + head.len()) =~= head);
        lemma_seen(chars, pos, whole, skip + head.len());
        assert(whole[skip + head.len()] == after[0]);
        assert(first.sound());
        first.round_trip(at);
        assert(whole[skip] == head[0]);
        lemma_step(chars, pos, cursor.first);
        let behind = de.at(pos + skip + head.len());
        let moved = Cursor { first: false, left: cursor.left };
        assert(behind.data@.subrange(behind.pos as int, behind.pos + after.len())
            =~= whole.subrange(skip + head.len(), whole.len() as int));
        assert(whole.subrange(skip + head.len(), whole.len() as int) =~= after);
        assert(all_sound(rest)) by {
            assert forall|i: int| 0 <= i < rest.len() implies (#[trigger] rest[i]).sound() by {
                assert(rest[i] == values[i + 1]);
            }
        }
        assert forall|i: int| 0 <= i < rest.len() implies text_of(
            (#[trigger] rest[i]).events(),
        ) is Some by {
            assert(rest[i] == values[i + 1]);
        }
        lemma_elements_plain(rest, behind, moved);
        assert(carried_all(values) =~= seq![first.carried()] + carried_all(rest));
        assert(behind.at(behind.pos + after.len()) == de.at(pos + whole.len()));
    }
}

/// A comma behind the last element of a sequence changes nothing. The
/// compact writer sets a comma behind every element; what it has written
/// for a sequence that is not empty, and the same text without the comma
/// behind the last element, are read back as the same elements, and the
/// reader stands at the end of the text either way.
pub proof fn theorem_trailing_comma<T: Textual>(
    value: Vec<T>,
    written: Seq<char>,
    with: JsonDeserializer,
    without: JsonDeserializer,
)
    requires
        value.sound(),
        value@.len() > 0,
        emit_all::<JsonSerializer>(Seq::empty(), value.events()) == Ok::<
            Seq<char>,
            SerializeError,
        >(written),
        with.data@ == written,
        with.pos == 0,
        without.data@ == written.take(written.len() - 2) + seq![']'],
        without.pos == 0,
    ensures
        written.len() >= 3,
        written[written.len() - 2] == ',',
        Vec::<T>::parsed(with) == Ok::<(Seq<T::Model>, JsonDeserializer), DeserializeError>(
            (value.carried(), with.at(written.len() as int)),
        ),
        Vec::<T>::parsed(without) == Ok::<(Seq<T::Model>, JsonDeserializer), DeserializeError>(
            (value.carried(), without.at(written.len() - 1)),
        ),
{
    theorem_round_trip(value, written, with);
    lemma_emit_all(Seq::empty(), value.events());
    let opening = seq![Event::StartSeq(value@.len() as usize)];
    lemma_text_concat(opening + element_events(value@), seq![Event::EndSeq]);
    lemma_text_concat(opening, element_events(value@));
    lemma_text_one(Event::StartSeq(value@.len() as usize));
    lemma_text_one(Event::EndSeq);
    let body = text_of(element_events(value@)).unwrap();
    assert(Seq::<char>::empty() + text_of(value.events()).unwrap() =~= text_of(
        value.events(),
    ).unwrap());
    assert(written =~= seq!['['] + body + seq![']']);
    lemma_plain_rest(true, value@);
    let after = plain_rest(true, value@);
    assert(after =~= body.drop_last() + seq![']']);
    let short = without.data@;
    assert(short =~= seq!['['] + after);
    assert(short.len() == without.data.len());
    assert(short[0] == '[');
    let inside = without.at(1);
    assert(inside.data@.subrange(1, 1 + after.len() as int) =~= after);
    lemma_elements_plain(value@, inside, Cursor { first: true, left: None });
    assert(inside.at(1 + after.len() as int) == without.at(written.len() - 1));
}

/// A decimal literal that the compact writer has written comes back as
/// the same number: as it is where it has a fraction, and without an
/// exponent where it has none.
pub proof fn theorem_float_round_trip(value: Float, written: Seq<char>, de: JsonDeserializer)
    requires
        value.sound(),
        emit_all::<JsonSerializer>(Seq::empty(), value.events()) == Ok::<
            Seq<char>,
            SerializeError,
        >(written),
        de.data@ == written,
        de.pos == 0,
    ensures
        Float::parsed(de) matches Ok((read, behind)) && value.same_number(read) && behind == de.at(
            written.len() as int,
        ),
{
    theorem_round_trip(value, written, de);
    if let Float::Decimal { negative, mantissa, exponent } = value {
        if exponent >= 0 {
            let scaled = decimal_scaled(mantissa as nat, exponent as int);
            vstd::arithmetic::power::lemma_pow0(10);
            assert(scaled * 1 == scaled) by (nonlinear_arith);
            assert(decimal_scaled(scaled, 0) == scaled);
            if mantissa == 0 {
                assert(0 * pow(10, 0) == 0) by (nonlinear_arith);
            } else {
                lemma_digits_scaled(mantissa as nat, exponent as nat);
                let read = value.carried();
                assert(read == Float::Decimal { negative, mantissa: scaled as u64, exponent: 0 });
                assert(read.magnitude() == value.magnitude());
                assert(read.is_whole() && value.is_whole());
            }
        }
    } else {
        lemma_emit_all(Seq::empty(), value.events());
        lemma_text_one(Event::Float(value));
    }
}

} // verus!
