use vstd::prelude::*;

verus! {

/// What `char::is_alphanumeric` says of a character.
pub uninterp spec fn alphanumeric(c: char) -> bool;

/// `char::is_alphanumeric`: whether the character is a letter or a digit of
/// any script. Of the ASCII characters these are the 26 letters in both
/// cases and the ten digits.
#[verifier::external_body]
pub(crate) fn is_alphanumeric(c: char) -> (yes: bool)
    ensures
        yes == alphanumeric(c),
        (c as u32) < 128 ==> yes == (('0' <= c <= '9') || ('a' <= c <= 'z') || ('A' <= c <= 'Z')),
{
    c.is_alphanumeric()
}

/// Whether the character is a letter or a digit: of the ASCII characters the
/// 26 letters in both cases and the ten digits, of the others those that
/// `char::is_alphanumeric` takes.
pub open spec fn is_word_char(c: char) -> bool {
    if (c as u32) < 128 {
        ('0' <= c <= '9') || ('a' <= c <= 'z') || ('A' <= c <= 'Z')
    } else {
        alphanumeric(c)
    }
}

/// `String::from_iter` on a slice of characters: the string of these
/// characters.
#[verifier::external_body]
pub(crate) fn string_of(chars: &[char]) -> (text: String)
    ensures
        text@ == chars@,
{
    String::from_iter(chars)
}

/// The characters of a string, one by one.
pub fn chars_of(text: &str) -> (chars: Vec<char>)
    ensures
        chars@ == text@,
{
    let mut chars: Vec<char> = Vec::new();
    for c in iter: text.chars()
        invariant
            chars@ == iter.seq().take(iter.index()),
            iter.seq() == text@,
    {
        chars.push(c);
    }
    chars
}

/// Whether the character is one of the ten digits.
pub open spec fn is_digit(c: char) -> bool {
    '0' <= c <= '9'
}

/// The number that a digit stands for.
pub open spec fn digit_value(c: char) -> nat {
    (c as u32 - '0' as u32) as nat
}

/// The digit that stands for a number below ten.
pub open spec fn digit_of(value: nat) -> char {
    ((value + 48) as u8) as char
}

/// The number that a run of digits stands for in decimal notation.
pub open spec fn decimal(digits: Seq<char>) -> nat
    decreases digits.len(),
{
    if digits.len() == 0 {
        0
    } else {
        decimal(digits.drop_last()) * 10 + digit_value(digits.last())
    }
}

/// The decimal notation of a number: its digits without leading zeros, and
/// `0` for zero.
pub open spec fn digits(value: nat) -> Seq<char>
    decreases value,
{
    if value < 10 {
        seq![digit_of(value)]
    } else {
        digits(value / 10).push(digit_of(value % 10))
    }
}

/// The decimal notation of an integer: a minus sign before the digits of a
/// negative one.
pub open spec fn integer_text(value: int) -> Seq<char> {
    if value < 0 {
        seq!['-'] + digits((-value) as nat)
    } else {
        digits(value as nat)
    }
}

/// A run of one character, so many times.
pub open spec fn repeated(c: char, times: nat) -> Seq<char> {
    Seq::new(times, |i: int| c)
}

/// Appends the characters of `text`.
pub fn push_str(buffer: &mut Vec<char>, text: &str)
    ensures
        final(buffer)@ == old(buffer)@ + text@,
{
    for c in iter: text.chars()
        invariant
            buffer@ == old(buffer)@ + iter.seq().take(iter.index()),
            iter.seq() == text@,
    {
        buffer.push(c);
        assert(buffer@ =~= old(buffer)@ + iter.seq().take(iter.index() + 1));
    }
    assert(buffer@ =~= old(buffer)@ + text@);
}

/// Appends the characters of `chars`.
pub fn push_chars(buffer: &mut Vec<char>, chars: &[char])
    ensures
        final(buffer)@ == old(buffer)@ + chars@,
{
    let mut index: usize = 0;
    assert(buffer@ =~= old(buffer)@ + chars@.take(0));
    while index < chars.len()
        invariant
            index <= chars@.len(),
            buffer@ == old(buffer)@ + chars@.take(index as int),
        decreases chars@.len() - index,
    {
        buffer.push(chars[index]);
        index = index + 1;
        assert(buffer@ =~= old(buffer)@ + chars@.take(index as int));
    }
    assert(chars@.take(index as int) =~= chars@);
}

/// What stands for a character between quotes: a quote and a backslash
/// stand behind a backslash, any other character stands for itself.
pub open spec fn escape_one(c: char) -> Seq<char> {
    if c == '"' || c == '\\' {
        seq!['\\', c]
    } else {
        seq![c]
    }
}

/// What stands for a text between quotes: each of its characters as
/// `escape_one` gives it.
pub open spec fn escaped(text: Seq<char>) -> Seq<char>
    decreases text.len(),
{
    if text.len() == 0 {
        Seq::empty()
    } else {
        escaped(text.drop_last()) + escape_one(text.last())
    }
}

/// What stands for a text is what stands for its first character, and then
/// what stands for the others.
pub proof fn lemma_escaped_first(text: Seq<char>)
    requires
        text.len() > 0,
    ensures
        escaped(text) == escape_one(text[0]) + escaped(text.drop_first()),
    decreases text.len(),
{
    if text.len() == 1 {
        assert(text.drop_last() =~= Seq::<char>::empty());
        assert(text.drop_first() =~= Seq::<char>::empty());
        reveal_with_fuel(escaped, 2);
        assert(escaped(text) =~= escape_one(text[0]) + escaped(text.drop_first()));
    } else {
        lemma_escaped_first(text.drop_last());
        assert(text.drop_last().drop_first() =~= text.drop_first().drop_last());
        assert(text.drop_last()[0] == text[0]);
        assert(text.drop_first().last() == text.last());
        assert(escaped(text) =~= escape_one(text[0]) + escaped(text.drop_first()));
    }
}

/// Appends what stands for `chars` between quotes.
pub fn push_escaped(buffer: &mut Vec<char>, chars: &[char])
    ensures
        final(buffer)@ == old(buffer)@ + escaped(chars@),
{
    let mut index: usize = 0;
    assert(buffer@ =~= old(buffer)@ + escaped(chars@.take(0)));
    while index < chars.len()
        invariant
            index <= chars@.len(),
            buffer@ == old(buffer)@ + escaped(chars@.take(index as int)),
        decreases chars@.len() - index,
    {
        let c = chars[index];
        if c == '"' || c == '\\' {
            buffer.push('\\');
        }
        buffer.push(c);
        index = index + 1;
        proof {
            let upto = chars@.take(index as int);
            assert(upto.drop_last() =~= chars@.take(index - 1));
            assert(upto.last() == c);
            assert(buffer@ =~= old(buffer)@ + escaped(upto));
        }
    }
    assert(chars@.take(index as int) =~= chars@);
}

/// Appends one character so many times.
pub fn push_repeated(buffer: &mut Vec<char>, c: char, times: usize)
    ensures
        final(buffer)@ == old(buffer)@ + repeated(c, times as nat),
{
    let mut done: usize = 0;
    assert(buffer@ =~= old(buffer)@ + repeated(c, 0));
    while done < times
        invariant
            done <= times,
            buffer@ == old(buffer)@ + repeated(c, done as nat),
        decreases times - done,
    {
        buffer.push(c);
        done = done + 1;
        assert(buffer@ =~= old(buffer)@ + repeated(c, done as nat));
    }
}

/// Appends the decimal notation of `value`.
pub fn push_digits(buffer: &mut Vec<char>, value: u64)
    ensures
        final(buffer)@ == old(buffer)@ + digits(value as nat),
    decreases value,
{
    if value < 10 {
        buffer.push((48 + value as u8) as char);
        assert(final(buffer)@ =~= old(buffer)@ + digits(value as nat));
    } else {
        push_digits(buffer, value / 10);
        buffer.push((48 + (value % 10) as u8) as char);
        assert(final(buffer)@ =~= old(buffer)@ + digits(value as nat));
    }
}

/// The position behind the run of digits that starts at `pos`.
pub open spec fn digits_end(chars: Seq<char>, pos: int) -> int
    decreases chars.len() - pos,
{
    if 0 <= pos < chars.len() && is_digit(chars[pos]) {
        digits_end(chars, pos + 1)
    } else {
        pos
    }
}

/// Whether the character is one that the pretty writer sets between tokens.
pub open spec fn is_blank(c: char) -> bool {
    c == ' ' || c == '\n'
}

/// The position behind the blanks that start at `pos`.
pub open spec fn blanks_end(chars: Seq<char>, pos: int) -> int
    decreases chars.len() - pos,
{
    if 0 <= pos < chars.len() && is_blank(chars[pos]) {
        blanks_end(chars, pos + 1)
    } else {
        pos
    }
}

/// The position of the first `wanted` at or behind `pos`, or the length of
/// the input where there is none.
pub open spec fn first_of(chars: Seq<char>, pos: int, wanted: char) -> int
    decreases chars.len() - pos,
{
    if 0 <= pos < chars.len() && chars[pos] != wanted {
        first_of(chars, pos + 1, wanted)
    } else {
        pos
    }
}

/// The run of digits ends within the input, and holds digits only.
pub proof fn lemma_digits_end(chars: Seq<char>, pos: int)
    requires
        0 <= pos <= chars.len(),
    ensures
        pos <= digits_end(chars, pos) <= chars.len(),
        forall|i: int| pos <= i < digits_end(chars, pos) ==> is_digit(#[trigger] chars[i]),
        digits_end(chars, pos) < chars.len() ==> !is_digit(chars[digits_end(chars, pos)]),
    decreases chars.len() - pos,
{
    if pos < chars.len() && is_digit(chars[pos]) {
        lemma_digits_end(chars, pos + 1);
    }
}

/// The blanks end within the input, and what follows is no blank.
pub proof fn lemma_blanks_end(chars: Seq<char>, pos: int)
    requires
        0 <= pos <= chars.len(),
    ensures
        pos <= blanks_end(chars, pos) <= chars.len(),
        blanks_end(chars, pos) < chars.len() ==> !is_blank(chars[blanks_end(chars, pos)]),
        pos < chars.len() && !is_blank(chars[pos]) ==> blanks_end(chars, pos) == pos,
    decreases chars.len() - pos,
{
    if pos < chars.len() && is_blank(chars[pos]) {
        lemma_blanks_end(chars, pos + 1);
    }
}

/// The first occurrence lies within the input or at its end, and nothing
/// before it is the character.
pub proof fn lemma_first_of(chars: Seq<char>, pos: int, wanted: char)
    requires
        0 <= pos <= chars.len(),
    ensures
        pos <= first_of(chars, pos, wanted) <= chars.len(),
        forall|i: int| pos <= i < first_of(chars, pos, wanted) ==> #[trigger] chars[i] != wanted,
        first_of(chars, pos, wanted) < chars.len() ==> chars[first_of(chars, pos, wanted)]
            == wanted,
    decreases chars.len() - pos,
{
    if pos < chars.len() && chars[pos] != wanted {
        lemma_first_of(chars, pos + 1, wanted);
    }
}

/// A longer run of digits stands for no smaller number.
pub proof fn lemma_decimal_grows(digits: Seq<char>, shorter: int)
    requires
        0 <= shorter <= digits.len(),
    ensures
        decimal(digits.take(shorter)) <= decimal(digits),
    decreases digits.len(),
{
    if shorter == digits.len() {
        assert(digits.take(shorter) =~= digits);
    } else {
        lemma_decimal_grows(digits.drop_last(), shorter);
        assert(digits.drop_last().take(shorter) =~= digits.take(shorter));
    }
}

} // verus!
