use crate::de::impls::parsed_elements;
use crate::de::traits::Cursor;
use crate::de::traits::Deserialize;
use crate::de::traits::Deserializer;
use crate::de::visitor::Token;
use crate::error::DeserializeError;
use crate::error::SerializeError;
use crate::integer::Integer;
use crate::number::Float;
use crate::number::SingleFloat;
use crate::model::Modeled;
use crate::msgpack::law::lemma_element_events_first;
use crate::ser::impls::element_events;
use crate::ser::impls::elmt_events;
use crate::ser::traits::emit_all;
use crate::ser::traits::Event;
use crate::ser::traits::Serialize;
use crate::text::chars::blanks_end;
use crate::text::chars::digits;
use crate::text::chars::integer_text;
use crate::text::chars::is_blank;
use crate::text::chars::lemma_blanks_end;
use crate::text::de::part_at;
use crate::text::de::JsonDeserializer;
use crate::text::law::all_sound;
use crate::text::law::carried_all;
use crate::text::law::closed;
use crate::text::law::faces;
use crate::text::law::lemma_carried_holds;
use crate::text::law::lemma_digits;
use crate::text::law::lemma_seen;
use crate::text::law::lemma_text_one;
use crate::text::law::opens_value;
use crate::text::law::Textual;
use crate::text::ser::decimal_text;
use crate::text::ser::indentation;
use crate::text::ser::pretty_text;
use crate::text::ser::quoted;
use crate::text::ser::Page;
use crate::text::ser::PrettyJsonSerializer;
use vstd::prelude::*;

verus! {

/// The text that the pretty writer writes for a run of calls from a depth,
/// and the depth behind it; or `None` where it refuses one of the calls.
pub open spec fn page_of(level: nat, events: Seq<Event>) -> Option<(Seq<char>, nat)>
    decreases events.len(),
{
    if events.len() == 0 {
        Some((Seq::empty(), level))
    } else {
        match pretty_text(level, events[0]) {
            Some((head, next)) => match page_of(next, events.drop_first()) {
                Some((tail, last)) => Some((head + tail, last)),
                None => None,
            },
            None => None,
        }
    }
}

/// What the writer holds after a run of calls is what it held before and
/// the text of the calls.
pub proof fn lemma_emit_all(state: Page, events: Seq<Event>)
    ensures
        emit_all::<PrettyJsonSerializer>(state, events) == match page_of(state.level, events) {
            Some((text, level)) => Ok::<Page, SerializeError>(
                Page { text: state.text + text, level },
            ),
            None => Err::<Page, SerializeError>(SerializeError),
        },
    decreases events.len(),
{
    if events.len() == 0 {
        assert(state.text + Seq::<char>::empty() =~= state.text);
    } else {
        if let Some((head, next)) = pretty_text(state.level, events[0]) {
            lemma_emit_all(Page { text: state.text + head, level: next }, events.drop_first());
            if let Some((tail, last)) = page_of(next, events.drop_first()) {
                assert((state.text + head) + tail =~= state.text + (head + tail));
            }
        }
    }
}

/// The text of two runs of calls is the text of the one, and of the other
/// from the depth that the first has led to.
pub proof fn lemma_page_concat(level: nat, first: Seq<Event>, second: Seq<Event>)
    ensures
        page_of(level, first + second) == match page_of(level, first) {
            Some((head, middle)) => match page_of(middle, second) {
                Some((tail, last)) => Some((head + tail, last)),
                None => None,
            },
            None => None,
        },
    decreases first.len(),
{
    if first.len() == 0 {
        assert(first + second =~= second);
        if let Some((tail, last)) = page_of(level, second) {
            assert(Seq::<char>::empty() + tail =~= tail);
        }
    } else {
        assert((first + second)[0] == first[0]);
        assert((first + second).drop_first() =~= first.drop_first() + second);
        if let Some((one, next)) = pretty_text(level, first[0]) {
            lemma_page_concat(next, first.drop_first(), second);
            if let Some((head, middle)) = page_of(next, first.drop_first()) {
                if let Some((tail, last)) = page_of(middle, second) {
                    assert(one + (head + tail) =~= (one + head) + tail);
                }
            }
        }
    }
}

/// The text of one call.
pub proof fn lemma_page_one(level: nat, event: Event)
    ensures
        page_of(level, seq![event]) == pretty_text(level, event),
{
    reveal_with_fuel(page_of, 2);
    assert(seq![event].drop_first() =~= Seq::<Event>::empty());
    if let Some((text, next)) = pretty_text(level, event) {
        assert(text + Seq::<char>::empty() =~= text);
    }
}

/// Blanks end where the first character that is no blank stands.
pub proof fn lemma_run_of_blanks(chars: Seq<char>, pos: int, end: int)
    requires
        0 <= pos <= end <= chars.len(),
        forall|i: int| pos <= i < end ==> is_blank(#[trigger] chars[i]),
        end < chars.len() ==> !is_blank(chars[end]),
    ensures
        blanks_end(chars, pos) == end,
    decreases end - pos,
{
    if pos < end {
        lemma_run_of_blanks(chars, pos + 1, end);
    }
}

/// A value that is read back from the text that the pretty writer writes
/// for it, at whatever depth. It holds of the values that are sound for the
/// compact writer.
pub trait Pretty: Textual {
    /// The writer stands as deep behind the value as before it.
    proof fn keeps_level(&self, level: nat)
        requires
            page_of(level, self.events()) is Some,
        ensures
            page_of(level, self.events()).unwrap().1 == level,
    ;

    /// The text of the value is not empty, and starts as a value does.
    proof fn opens(&self, level: nat)
        requires
            page_of(level, self.events()) is Some,
        ensures
            page_of(level, self.events()).unwrap().0.len() > 0,
            opens_value(page_of(level, self.events()).unwrap().0[0]),
    ;

    /// A reader that stands before the text of the value, with nothing
    /// behind it that a number or a word goes on with, yields the value and
    /// stands behind the text. Its first token is a null only where the
    /// value's first call is one.
    proof fn pretty_round_trip(&self, de: JsonDeserializer, level: nat)
        requires
            self.sound(),
            page_of(level, self.events()) is Some,
            faces(de, page_of(level, self.events()).unwrap().0),
            closed(de.data@, de.pos + page_of(level, self.events()).unwrap().0.len()),
        ensures
            Self::parsed(de) == Ok::<(Self::Model, JsonDeserializer), DeserializeError>(
                (self.carried(), de.at(de.pos + page_of(level, self.events()).unwrap().0.len())),
            ),
            page_of(level, self.events()).unwrap().0.len() > 0,
            opens_value(page_of(level, self.events()).unwrap().0[0]),
            de.head() matches Ok((Token::Null, _)) ==> self.events()[0] == Event::Null,
    ;
}

impl<T: Integer> Pretty for T {
    proof fn keeps_level(&self, level: nat) {
        lemma_page_one(level, Event::Signed(self.value() as i64));
        lemma_page_one(level, Event::Unsigned(self.value() as u64));
    }

    proof fn opens(&self, level: nat) {
        self.range();
        T::range_of_type();
        lemma_page_one(level, Event::Signed(self.value() as i64));
        lemma_page_one(level, Event::Unsigned(self.value() as u64));
        let magnitude: nat = if self.value() < 0 {
            (-self.value()) as nat
        } else {
            self.value() as nat
        };
        lemma_digits(magnitude);
        let text = integer_text(self.value());
        if self.value() < 0 {
            assert(text[0] == '-');
        } else {
            assert(text[0] == digits(magnitude)[0]);
        }
    }

    proof fn pretty_round_trip(&self, de: JsonDeserializer, level: nat) {
        lemma_page_one(level, Event::Signed(self.value() as i64));
        lemma_page_one(level, Event::Unsigned(self.value() as u64));
        lemma_text_one(Event::Signed(self.value() as i64));
        lemma_text_one(Event::Unsigned(self.value() as u64));
        self.round_trip(de);
    }
}

impl Pretty for bool {
    proof fn keeps_level(&self, level: nat) {
        lemma_page_one(level, Event::Bool(*self));
    }

    proof fn opens(&self, level: nat) {
        lemma_page_one(level, Event::Bool(*self));
    }

    proof fn pretty_round_trip(&self, de: JsonDeserializer, level: nat) {
        lemma_page_one(level, Event::Bool(*self));
        lemma_text_one(Event::Bool(*self));
        self.round_trip(de);
    }
}

impl Pretty for () {
    proof fn keeps_level(&self, level: nat) {
        lemma_page_one(level, Event::Null);
    }

    proof fn opens(&self, level: nat) {
        lemma_page_one(level, Event::Null);
    }

    proof fn pretty_round_trip(&self, de: JsonDeserializer, level: nat) {
        lemma_page_one(level, Event::Null);
        lemma_text_one(Event::Null);
        self.round_trip(de);
    }
}

impl Pretty for Float {
    proof fn keeps_level(&self, level: nat) {
        lemma_page_one(level, Event::Float(*self));
    }

    proof fn opens(&self, level: nat) {
        lemma_page_one(level, Event::Float(*self));
        if let Float::Decimal { negative, mantissa, exponent } = *self {
            let text = decimal_text(negative, mantissa, exponent);
            let figures = digits(mantissa as nat);
            lemma_digits(mantissa as nat);
            if negative {
                assert(text[0] == '-');
            } else if exponent >= 0 || figures.len() > -exponent {
                assert(text[0] == figures[0]);
            } else {
                assert(text[0] == '0');
            }
        }
    }

    proof fn pretty_round_trip(&self, de: JsonDeserializer, level: nat) {
        lemma_page_one(level, Event::Float(*self));
        lemma_text_one(Event::Float(*self));
        self.round_trip(de);
    }
}

impl Pretty for SingleFloat {
    proof fn keeps_level(&self, level: nat) {
        self.value.keeps_level(level);
    }

    proof fn opens(&self, level: nat) {
        self.value.opens(level);
    }

    proof fn pretty_round_trip(&self, de: JsonDeserializer, level: nat) {
        self.value.pretty_round_trip(de, level);
        lemma_carried_holds(self.value);
    }
}

impl Pretty for String {
    proof fn keeps_level(&self, level: nat) {
        lemma_page_one(level, Event::Str(self@));
    }

    proof fn opens(&self, level: nat) {
        lemma_page_one(level, Event::Str(self@));
        assert(quoted(self@)[0] == '"');
    }

    proof fn pretty_round_trip(&self, de: JsonDeserializer, level: nat) {
        lemma_page_one(level, Event::Str(self@));
        lemma_text_one(Event::Str(self@));
        self.round_trip(de);
    }
}

impl<T: Pretty> Pretty for Option<T> {
    proof fn keeps_level(&self, level: nat) {
        match self {
            Some(value) => {
                value.keeps_level(level);
            },
            None => {
                lemma_page_one(level, Event::Null);
            },
        }
    }

    proof fn opens(&self, level: nat) {
        match self {
            Some(value) => {
                value.opens(level);
            },
            None => {
                lemma_page_one(level, Event::Null);
            },
        }
    }

    proof fn pretty_round_trip(&self, de: JsonDeserializer, level: nat) {
        match self {
            Some(value) => {
                value.pretty_round_trip(de, level);
            },
            None => {
                lemma_page_one(level, Event::Null);
                lemma_text_one(Event::Null);
                self.round_trip(de);
            },
        }
    }
}

/// The text of the elements of a sequence at a depth is the indentation of
/// the depth, the text of the first element, a comma, the end of the line,
/// and the text of the others; and the writer stands as deep behind the
/// elements as before them.
pub proof fn lemma_page_of_elements<T: Pretty>(values: Seq<T>, level: nat)
    requires
        page_of(level, element_events(values)) is Some,
    ensures
        page_of(level, element_events(values)).unwrap().1 == level,
        values.len() > 0 ==> {
            &&& page_of(level, values[0].events()) is Some
            &&& page_of(level, values[0].events()).unwrap().1 == level
            &&& page_of(level, element_events(values.drop_first())) is Some
            &&& page_of(level, element_events(values)).unwrap().0 == indentation(level) + page_of(
                level,
                values[0].events(),
            ).unwrap().0 + seq![',', '\n'] + page_of(
                level,
                element_events(values.drop_first()),
            ).unwrap().0
        },
    decreases values.len(),
{
    if values.len() > 0 {
        let first = values[0];
        let rest = values.drop_first();
        lemma_element_events_first(values);
        lemma_page_concat(level, elmt_events(&first), element_events(rest));
        lemma_page_concat(
            level,
            seq![Event::StartSeqElmt] + first.events(),
            seq![Event::EndSeqElmt],
        );
        lemma_page_concat(level, seq![Event::StartSeqElmt], first.events());
        lemma_page_one(level, Event::StartSeqElmt);
        first.keeps_level(level);
        lemma_page_one(level, Event::EndSeqElmt);
        lemma_page_of_elements(rest, level);
        let head = page_of(level, first.events()).unwrap().0;
        let tail = page_of(level, element_events(rest)).unwrap().0;
        assert(page_of(level, elmt_events(&first)).unwrap().0 =~= indentation(level) + head + seq![
            ',',
            '\n',
        ]);
        assert(page_of(level, element_events(values)).unwrap().0 =~= indentation(level) + head
            + seq![',', '\n'] + tail);
    }
}

/// The text between the brackets of a sequence from where a reader stands:
/// the end of the line behind the opening bracket, or the comma and the end
/// of the line behind the element that was read last; the elements that are
/// left, each on a line of its own; and the bracket that closes the
/// sequence, indented as the sequence is.
pub open spec fn rest_of_sequence(first: bool, level: nat, body: Seq<char>) -> Seq<char> {
    (if first {
        seq!['\n']
    } else {
        seq![',', '\n']
    }) + body + indentation(level) + seq![']']
}

/// Inside a sequence, a reader that stands before the end of a line passes
/// over it and over the indentation of the next line.
pub proof fn lemma_step(chars: Seq<char>, pos: int, first: bool, gap: nat)
    requires
        0 <= pos,
        first ==> pos + 1 + gap < chars.len() && chars[pos] == '\n' && !is_blank(
            chars[pos + 1 + gap],
        ) && forall|i: int| pos + 1 <= i < pos + 1 + gap ==> #[trigger] chars[i] == ' ',
        !first ==> pos + 2 + gap < chars.len() && chars[pos] == ',' && chars[pos + 1] == '\n'
            && !is_blank(chars[pos + 2 + gap]) && forall|i: int|
            pos + 2 <= i < pos + 2 + gap ==> #[trigger] chars[i] == ' ',
    ensures
        part_at(chars, pos, first, ']') == Ok::<int, DeserializeError>(
            if first {
                pos + 1 + gap
            } else {
                pos + 2 + gap
            },
        ),
{
    if first {
        assert forall|i: int| pos <= i < pos + 1 + gap implies is_blank(#[trigger] chars[i]) by {
            if i > pos {
                assert(chars[i] == ' ');
            }
        }
        lemma_run_of_blanks(chars, pos, pos + 1 + gap);
    } else {
        lemma_blanks_end(chars, pos);
        assert forall|i: int| pos + 1 <= i < pos + 2 + gap implies is_blank(
            #[trigger] chars[i],
        ) by {
            if i > pos + 1 {
                assert(chars[i] == ' ');
            }
        }
        lemma_run_of_blanks(chars, pos + 1, pos + 2 + gap);
    }
}

/// Inside a sequence without elements left, a reader steps to the closing
/// bracket.
pub proof fn lemma_layout_of_end(chars: Seq<char>, pos: int, first: bool, level: nat)
    requires
        0 <= pos,
        pos + rest_of_sequence(first, level, Seq::empty()).len() <= chars.len(),
        chars.subrange(pos, pos + rest_of_sequence(first, level, Seq::empty()).len())
            == rest_of_sequence(first, level, Seq::empty()),
    ensures
        part_at(chars, pos, first, ']') == Ok::<int, DeserializeError>(
            pos + rest_of_sequence(first, level, Seq::empty()).len() - 1,
        ),
        chars[pos + rest_of_sequence(first, level, Seq::empty()).len() - 1] == ']',
{
    let whole = rest_of_sequence(first, level, Seq::empty());
    let skip: int = if first {
        1
    } else {
        2
    };
    let gap = 4 * level;
    assert(whole.len() == skip + gap + 1);
    lemma_seen(chars, pos, whole, 0);
    lemma_seen(chars, pos, whole, skip - 1);
    lemma_seen(chars, pos, whole, skip + gap);
    assert forall|i: int| pos + skip <= i < pos + skip + gap implies #[trigger] chars[i] == ' ' by {
        lemma_seen(chars, pos, whole, i - pos);
    }
    lemma_step(chars, pos, first, gap);
}

/// Inside a sequence with elements left, a reader steps to the first of
/// them; a comma stands behind it, and behind the comma the rest of the
/// sequence.
pub proof fn lemma_layout_of_element(
    chars: Seq<char>,
    pos: int,
    first: bool,
    level: nat,
    head: Seq<char>,
    tail: Seq<char>,
)
    requires
        0 <= pos,
        head.len() > 0,
        opens_value(head[0]),
        pos + rest_of_sequence(
            first,
            level,
            indentation(level + 1) + head + seq![',', '\n'] + tail,
        ).len() <= chars.len(),
        chars.subrange(
            pos,
            pos + rest_of_sequence(
                first,
                level,
                indentation(level + 1) + head + seq![',', '\n'] + tail,
            ).len(),
        ) == rest_of_sequence(first, level, indentation(level + 1) + head + seq![',', '\n'] + tail),
    ensures
        ({
            let whole = rest_of_sequence(
                first,
                level,
                indentation(level + 1) + head + seq![',', '\n'] + tail,
            );
            let start = pos + (if first {
                1int
            } else {
                2int
            }) + 4 * (level + 1);
            &&& part_at(chars, pos, first, ']') == Ok::<int, DeserializeError>(start)
            &&& start + head.len() < chars.len()
            &&& chars[start] != ']'
            &&& chars.subrange(start, start + head.len()) == head
            &&& chars[start + head.len()] == ','
            &&& start + head.len() + rest_of_sequence(false, level, tail).len() == pos
                + whole.len()
            &&& chars.subrange(start + head.len(), pos + whole.len()) == rest_of_sequence(
                false,
                level,
                tail,
            )
        }),
{
    let whole = rest_of_sequence(
        first,
        level,
        indentation(level + 1) + head + seq![',', '\n'] + tail,
    );
    let skip: int = if first {
        1
    } else {
        2
    };
    let gap = 4 * (level + 1);
    let start = skip + gap;
    let after = rest_of_sequence(false, level, tail);
    assert(whole.len() == start + head.len() + after.len());
    lemma_seen(chars, pos, whole, 0);
    lemma_seen(chars, pos, whole, skip - 1);
    lemma_seen(chars, pos, whole, start);
    lemma_seen(chars, pos, whole, start + head.len());
    assert(whole[start] == head[0]);
    assert forall|i: int| pos + skip <= i < pos + start implies #[trigger] chars[i] == ' ' by {
        lemma_seen(chars, pos, whole, i - pos);
    }
    lemma_step(chars, pos, first, gap as nat);
    assert(chars.subrange(pos + start, pos + start + head.len()) =~= whole.subrange(
        start,
        start + head.len(),
    ));
    assert(whole.subrange(start, start + head.len()) =~= head);
    assert(chars.subrange(pos + start + head.len(), pos + whole.len()) =~= whole.subrange(
        start + head.len(),
        whole.len() as int,
    ));
    assert(whole.subrange(start + head.len(), whole.len() as int) =~= after);
}

/// A reader that stands inside a sequence, before the text of the elements
/// that are left, yields them and stands behind the sequence.
pub proof fn lemma_elements<T: Pretty>(
    values: Seq<T>,
    de: JsonDeserializer,
    cursor: Cursor,
    level: nat,
)
    requires
        all_sound(values),
        page_of(level + 1, element_events(values)) is Some,
        faces(
            de,
            rest_of_sequence(
                cursor.first,
                level,
                page_of(level + 1, element_events(values)).unwrap().0,
            ),
        ),
    ensures
        parsed_elements::<T, JsonDeserializer>(de, cursor) == Ok::<
            (Seq<T::Model>, JsonDeserializer),
            DeserializeError,
        >(
            (
                carried_all(values),
                de.at(
                    de.pos + rest_of_sequence(
                        cursor.first,
                        level,
                        page_of(level + 1, element_events(values)).unwrap().0,
                    ).len(),
                ),
            ),
        ),
    decreases values.len(),
{
    let chars = de.data@;
    let pos = de.pos as int;
    let body = page_of(level + 1, element_events(values)).unwrap().0;
    let whole = rest_of_sequence(cursor.first, level, body);
    lemma_page_of_elements(values, level + 1);
    if values.len() == 0 {
        assert(body =~= Seq::<char>::empty());
        lemma_layout_of_end(chars, pos, cursor.first, level);
        assert(carried_all(values) =~= Seq::<T::Model>::empty());
    } else {
        let first = values[0];
        let rest = values.drop_first();
        let head = page_of(level + 1, first.events()).unwrap().0;
        let tail = page_of(level + 1, element_events(rest)).unwrap().0;
        assert(first.sound());
        let start = pos + (if cursor.first {
            1int
        } else {
            2int
        }) + 4 * (level + 1);
        // the element's text is not empty and opens a value, whatever follows it
        assert(head.len() > 0 && opens_value(head[0])) by {
            first.opens(level + 1);
        }
        lemma_layout_of_element(chars, pos, cursor.first, level, head, tail);
        let at = de.at(start);
        first.pretty_round_trip(at, level + 1);
        let behind = de.at(start + head.len());
        let moved = Cursor { first: false, left: cursor.left };
        assert(all_sound(rest)) by {
            assert forall|i: int| 0 <= i < rest.len() implies (#[trigger] rest[i]).sound() by {
                assert(rest[i] == values[i + 1]);
            }
        }
        lemma_elements(rest, behind, moved, level);
        assert(carried_all(values) =~= seq![first.carried()] + carried_all(rest));
    }
}

/// The text of a sequence at a depth: the opening bracket, the end of the
/// line, the elements one level deeper, and the closing bracket at the depth
/// of the sequence.
pub proof fn lemma_page_of_sequence<T: Pretty>(values: Seq<T>, len: usize, level: nat)
    requires
        page_of(
            level,
            seq![Event::StartSeq(len)] + element_events(values) + seq![Event::EndSeq],
        ) is Some,
    ensures
        page_of(level + 1, element_events(values)) is Some,
        page_of(
            level,
            seq![Event::StartSeq(len)] + element_events(values) + seq![Event::EndSeq],
        ) == Some(
            (
                seq!['['] + rest_of_sequence(
                    true,
                    level,
                    page_of(level + 1, element_events(values)).unwrap().0,
                ),
                level,
            ),
        ),
{
    let opening = seq![Event::StartSeq(len)];
    lemma_page_concat(level, opening + element_events(values), seq![Event::EndSeq]);
    lemma_page_concat(level, opening, element_events(values));
    lemma_page_one(level, Event::StartSeq(len));
    lemma_page_of_elements(values, level + 1);
    lemma_page_one(level + 1, Event::EndSeq);
    let body = page_of(level + 1, element_events(values)).unwrap().0;
    assert(seq!['[', '\n'] + body + (indentation(level) + seq![']']) =~= seq!['[']
        + rest_of_sequence(true, level, body));
}

impl<T: Pretty> Pretty for Vec<T> {
    proof fn keeps_level(&self, level: nat) {
        lemma_page_of_sequence(self@, self@.len() as usize, level);
    }

    proof fn opens(&self, level: nat) {
        lemma_page_of_sequence(self@, self@.len() as usize, level);
    }

    proof fn pretty_round_trip(&self, de: JsonDeserializer, level: nat) {
        lemma_page_of_sequence(self@, self@.len() as usize, level);
        let body = page_of(level + 1, element_events(self@)).unwrap().0;
        let after = rest_of_sequence(true, level, body);
        let whole = seq!['['] + after;
        lemma_seen(de.data@, de.pos as int, whole, 0);
        let inside = de.at(de.pos + 1);
        assert(inside.data@.subrange(inside.pos as int, inside.pos + after.len())
            =~= whole.subrange(1, whole.len() as int));
        assert(whole.subrange(1, whole.len() as int) =~= after);
        lemma_elements(self@, inside, Cursor { first: true, left: None }, level);
        assert(inside.at(inside.pos + after.len()) == de.at(de.pos + whole.len()));
    }
}

/// What the pretty writer has written for a value, a reader of the text
/// format reads back: it yields the value, and stands at the end of the
/// text.
pub proof fn theorem_round_trip<T: Pretty>(value: T, written: Page, de: JsonDeserializer)
    requires
        value.sound(),
        emit_all::<PrettyJsonSerializer>(
            Page { text: Seq::empty(), level: 0 },
            value.events(),
        ) == Ok::<Page, SerializeError>(written),
        de.data@ == written.text,
        de.pos == 0,
    ensures
        T::parsed(de) == Ok::<(T::Model, JsonDeserializer), DeserializeError>(
            (value.carried(), de.at(written.text.len() as int)),
        ),
        written.level == 0,
{
    lemma_emit_all(Page { text: Seq::empty(), level: 0 }, value.events());
    let text = page_of(0, value.events()).unwrap().0;
    assert(Seq::<char>::empty() + text =~= text);
    assert(de.data@.len() == de.data.len());
    assert(de.data@.subrange(0, text.len() as int) =~= text);
    value.keeps_level(0);
    value.pretty_round_trip(de, 0);
}

} // verus!
