use crate::de::impls::parsed_elements;
use crate::de::traits::Cursor;
use crate::de::traits::Deserialize;
use crate::de::traits::Deserializer as Reader;
use crate::de::traits::Name;
use crate::de::visitor::Token;
use crate::error::SerializeError;
use crate::integer::Integer;
use crate::model::Modeled;
use crate::msgpack::de::token_at;
use crate::msgpack::de::Deserializer;
use crate::msgpack::ser::count_bytes;
use crate::msgpack::ser::encoded;
use crate::msgpack::ser::signed_bytes;
use crate::msgpack::ser::text_bytes;
use crate::msgpack::ser::unsigned_bytes;
use crate::msgpack::ser::Serializer;
use crate::msgpack::wire::be;
use crate::msgpack::wire::lemma_be_len;
use crate::msgpack::wire::lemma_number_of_be;
use crate::msgpack::wire::lemma_spans;
use crate::msgpack::wire::span;
use crate::msgpack::wire::twos_complement;
use crate::number::lemma_single_holds;
use crate::number::single_of;
use crate::number::Float;
use crate::number::SingleFloat;
use crate::ser::impls::element_events;
use crate::ser::impls::elmt_events;
use crate::ser::traits::emit_all;
use crate::ser::traits::Event;
use crate::ser::traits::Serialize;
use vstd::prelude::*;
use vstd::utf8::encode_utf8;

verus! {

/// The bytes that the sink writes for a run of calls, or `None` where it
/// refuses one of them.
pub open spec fn bytes_of(events: Seq<Event>) -> Option<Seq<u8>>
    decreases events.len(),
{
    if events.len() == 0 {
        Some(Seq::empty())
    } else {
        match (encoded(events[0]), bytes_of(events.drop_first())) {
            (Some(head), Some(tail)) => Some(head + tail),
            _ => None,
        }
    }
}

/// Whether the reader stands before these bytes.
pub open spec fn faces(de: Deserializer, bytes: Seq<u8>) -> bool {
    &&& de.well_formed()
    &&& de.pos + bytes.len() <= de.data@.len()
    &&& de.data@.subrange(de.pos as int, de.pos + bytes.len()) == bytes
}

/// What the sink holds after a run of calls is what it held before and the
/// bytes of the calls.
pub proof fn lemma_emit_all(state: Seq<u8>, events: Seq<Event>)
    ensures
        emit_all::<Serializer>(state, events) == match bytes_of(events) {
            Some(bytes) => Ok::<Seq<u8>, SerializeError>(state + bytes),
            None => Err::<Seq<u8>, SerializeError>(SerializeError),
        },
    decreases events.len(),
{
    if events.len() == 0 {
        assert(state + Seq::<u8>::empty() =~= state);
    } else {
        if let Some(head) = encoded(events[0]) {
            lemma_emit_all(state + head, events.drop_first());
            if let Some(tail) = bytes_of(events.drop_first()) {
                assert((state + head) + tail =~= state + (head + tail));
            }
        }
    }
}

/// The bytes of two runs of calls are the bytes of the one and of the other.
pub proof fn lemma_bytes_concat(first: Seq<Event>, second: Seq<Event>)
    ensures
        bytes_of(first + second) == match (bytes_of(first), bytes_of(second)) {
            (Some(head), Some(tail)) => Some(head + tail),
            _ => None,
        },
    decreases first.len(),
{
    if first.len() == 0 {
        assert(first + second =~= second);
        if let Some(tail) = bytes_of(second) {
            assert(Seq::<u8>::empty() + tail =~= tail);
        }
    } else {
        assert((first + second)[0] == first[0]);
        assert((first + second).drop_first() =~= first.drop_first() + second);
        lemma_bytes_concat(first.drop_first(), second);
        if let (Some(one), Some(head), Some(tail)) = (
            encoded(first[0]),
            bytes_of(first.drop_first()),
            bytes_of(second),
        ) {
            assert(one + (head + tail) =~= (one + head) + tail);
        }
    }
}

/// The bytes of one call.
pub proof fn lemma_bytes_one(event: Event)
    ensures
        bytes_of(seq![event]) == encoded(event),
{
    reveal_with_fuel(bytes_of, 2);
    assert(seq![event].drop_first() =~= Seq::<Event>::empty());
    if let Some(bytes) = encoded(event) {
        assert(bytes + Seq::<u8>::empty() =~= bytes);
    }
}

/// An unsigned number is written in the narrowest form that holds it: in
/// one byte up to 127, and else in no more bytes behind the tag than any
/// of the widths 1, 2, 4 and 8 that holds it.
pub proof fn lemma_unsigned_is_narrowest(value: u64, width: nat)
    requires
        width == 1 || width == 2 || width == 4 || width == 8,
        value < span(width),
    ensures
        value <= 0x7f ==> unsigned_bytes(value).len() == 1,
        unsigned_bytes(value).len() <= 1 + width,
{
    lemma_spans();
    lemma_be_len(value as nat, 1);
    lemma_be_len(value as nat, 2);
    lemma_be_len(value as nat, 4);
    lemma_be_len(value as nat, 8);
}

/// The number of `width` bytes that stands behind a tag is read back.
proof fn lemma_field(data: Seq<u8>, pos: int, tag: u8, value: nat, width: nat)
    requires
        0 <= pos,
        pos + 1 + width <= data.len(),
        data.subrange(pos, pos + 1 + width) == seq![tag] + be(value, width),
        width == 1 && value < 0x100 || width == 2 && value < 0x1_0000 || width == 4 && value
            < 0x1_0000_0000 || width == 8 && value < 0x1_0000_0000_0000_0000,
    ensures
        data[pos] == tag,
        crate::msgpack::wire::field(data, pos + 1, width) == Some(value),
{
    lemma_spans();
    lemma_be_len(value, width);
    lemma_number_of_be(value, width);
    let whole = data.subrange(pos, pos + 1 + width);
    assert(whole[0] == tag);
    assert(data[pos] == whole[0]);
    assert(data.subrange(pos + 1, pos + 1 + width) =~= whole.subrange(1, 1 + width as int));
    assert(whole.subrange(1, 1 + width as int) =~= be(value, width));
}

/// An unsigned number is read back from its bytes.
pub proof fn lemma_unsigned(data: Seq<u8>, pos: int, value: u64)
    requires
        0 <= pos,
        pos + unsigned_bytes(value).len() <= data.len(),
        data.subrange(pos, pos + unsigned_bytes(value).len()) == unsigned_bytes(value),
    ensures
        token_at(data, pos) == Ok::<(Token, int), crate::error::DeserializeError>(
            (Token::Unsigned(value), pos + unsigned_bytes(value).len()),
        ),
        unsigned_bytes(value).len() > 0,
{
    if value <= 0x7f {
        assert(data[pos] == data.subrange(pos, pos + 1)[0]);
    } else if value <= 0xff {
        lemma_be_len(value as nat, 1);
        lemma_field(data, pos, 0xcc, value as nat, 1);
    } else if value <= 0xffff {
        lemma_be_len(value as nat, 2);
        lemma_field(data, pos, 0xcd, value as nat, 2);
    } else if value <= 0xffff_ffff {
        lemma_be_len(value as nat, 4);
        lemma_field(data, pos, 0xce, value as nat, 4);
    } else {
        lemma_be_len(value as nat, 8);
        lemma_field(data, pos, 0xcf, value as nat, 8);
    }
}

/// A signed number is read back from its bytes: as an unsigned number where
/// it is written as one byte and not negative, as itself otherwise.
pub proof fn lemma_signed(data: Seq<u8>, pos: int, value: i64)
    requires
        0 <= pos,
        pos + signed_bytes(value).len() <= data.len(),
        data.subrange(pos, pos + signed_bytes(value).len()) == signed_bytes(value),
    ensures
        token_at(data, pos) == Ok::<(Token, int), crate::error::DeserializeError>(
            (
                if 0 <= value <= 0x7f {
                    Token::Unsigned(value as u64)
                } else {
                    Token::Signed(value)
                },
                pos + signed_bytes(value).len(),
            ),
        ),
        signed_bytes(value).len() > 0,
{
    lemma_spans();
    if -32 <= value <= 127 {
        let raw = twos_complement(value as int, 1);
        lemma_be_len(raw, 1);
        reveal_with_fuel(be, 2);
        assert(be(raw, 1) =~= seq![raw as u8]);
        assert(data[pos] == data.subrange(pos, pos + 1)[0]);
    } else if -0x80 <= value <= 0x7f {
        let raw = twos_complement(value as int, 1);
        lemma_be_len(raw, 1);
        lemma_field(data, pos, 0xd0, raw, 1);
    } else if -0x8000 <= value <= 0x7fff {
        let raw = twos_complement(value as int, 2);
        lemma_be_len(raw, 2);
        lemma_field(data, pos, 0xd1, raw, 2);
    } else if -0x8000_0000 <= value <= 0x7fff_ffff {
        let raw = twos_complement(value as int, 4);
        lemma_be_len(raw, 4);
        lemma_field(data, pos, 0xd2, raw, 4);
    } else {
        let raw = twos_complement(value as int, 8);
        lemma_be_len(raw, 8);
        lemma_field(data, pos, 0xd3, raw, 8);
    }
}

/// A string is read back from its bytes.
pub proof fn lemma_text(data: Seq<u8>, pos: int, text: Seq<char>)
    requires
        0 <= pos,
        text_bytes(text) is Some,
        pos + text_bytes(text).unwrap().len() <= data.len(),
        data.subrange(pos, pos + text_bytes(text).unwrap().len()) == text_bytes(text).unwrap(),
    ensures
        token_at(data, pos) == Ok::<(Token, int), crate::error::DeserializeError>(
            (Token::Str(text), pos + text_bytes(text).unwrap().len()),
        ),
        text_bytes(text).unwrap().len() > 0,
{
    let body = encode_utf8(text);
    let whole = text_bytes(text).unwrap();
    vstd::utf8::encode_utf8_valid_utf8(text);
    vstd::utf8::encode_utf8_decode_utf8(text);
    let seen = data.subrange(pos, pos + whole.len());
    if body.len() < 32 {
        assert(data[pos] == seen[0]);
        assert(data.subrange(pos + 1, pos + 1 + body.len()) =~= seen.subrange(
            1,
            1 + body.len() as int,
        ));
        assert(seen.subrange(1, 1 + body.len() as int) =~= body);
    } else {
        let len = body.len();
        let width: nat = if len <= 0xff {
            1
        } else if len <= 0xffff {
            2
        } else {
            4
        };
        let tag: u8 = if len <= 0xff {
            0xd9
        } else if len <= 0xffff {
            0xda
        } else {
            0xdb
        };
        lemma_be_len(len, width);
        assert(whole =~= seq![tag] + be(len, width) + body);
        assert(data.subrange(pos, pos + 1 + width) =~= seen.subrange(0, 1 + width as int));
        assert(seen.subrange(0, 1 + width as int) =~= seq![tag] + be(len, width));
        lemma_field(data, pos, tag, len, width);
        assert(data.subrange(pos + 1 + width, pos + 1 + width + len) =~= seen.subrange(
            1 + width as int,
            1 + width as int + len as int,
        ));
        assert(seen.subrange(1 + width as int, 1 + width as int + len as int) =~= body);
    }
}

/// The opening of a sequence is read back from its bytes.
pub proof fn lemma_sequence(data: Seq<u8>, pos: int, len: usize)
    requires
        0 <= pos,
        count_bytes(0x90, 0xdc, len as nat) is Some,
        pos + count_bytes(0x90, 0xdc, len as nat).unwrap().len() <= data.len(),
        data.subrange(pos, pos + count_bytes(0x90, 0xdc, len as nat).unwrap().len())
            == count_bytes(0x90, 0xdc, len as nat).unwrap(),
    ensures
        token_at(data, pos) == Ok::<(Token, int), crate::error::DeserializeError>(
            (Token::Sequence(Some(len)), pos + count_bytes(0x90, 0xdc, len as nat).unwrap().len()),
        ),
        count_bytes(0x90, 0xdc, len as nat).unwrap().len() > 0,
{
    if len < 16 {
        assert(data[pos] == data.subrange(pos, pos + 1)[0]);
    } else if len <= 0xffff {
        lemma_be_len(len as nat, 2);
        lemma_field(data, pos, 0xdc, len as nat, 2);
    } else {
        lemma_be_len(len as nat, 4);
        lemma_field(data, pos, 0xdd, len as nat, 4);
    }
}

/// A value that is read back from the bytes that the sink writes for it.
///
/// Every type that the library binds has this law. It holds of the values
/// that are `sound`: the format writes an absent optional value and a
/// present null alike, so a present value that is itself written as a null
/// is none.
pub trait Binary: Serialize + Deserialize<Deserializer> + Sized {
    /// Whether the format tells the value from every other of its type.
    spec fn sound(&self) -> bool;

    /// The value as it comes back: the value itself, but that a number in
    /// double precision which single precision holds exactly comes back as
    /// the same number in single precision.
    spec fn carried(&self) -> Self::Model;

    /// A reader that stands before the bytes of the value yields the value
    /// and stands behind the bytes. Its first token is a null only where
    /// the value's first call is one.
    proof fn round_trip(&self, de: Deserializer)
        requires
            self.sound(),
            bytes_of(self.events()) is Some,
            faces(de, bytes_of(self.events()).unwrap()),
        ensures
            Self::parsed(de) == Ok::<(Self::Model, Deserializer), crate::error::DeserializeError>(
                (self.carried(), de.at(de.pos + bytes_of(self.events()).unwrap().len())),
            ),
            bytes_of(self.events()).unwrap().len() > 0,
            de.head() matches Ok((Token::Null, _)) ==> self.events()[0] == Event::Null,
    ;
}

impl<T: Integer> Binary for T {
    open spec fn sound(&self) -> bool {
        true
    }

    open spec fn carried(&self) -> Self::Model {
        self.model()
    }

    proof fn round_trip(&self, de: Deserializer) {
        self.range();
        T::range_of_type();
        if T::signed() {
            lemma_bytes_one(Event::Signed(self.value() as i64));
            lemma_signed(de.data@, de.pos as int, self.value() as i64);
        } else {
            lemma_bytes_one(Event::Unsigned(self.value() as u64));
            lemma_unsigned(de.data@, de.pos as int, self.value() as u64);
        }
    }
}

impl Binary for bool {
    open spec fn sound(&self) -> bool {
        true
    }

    open spec fn carried(&self) -> Self::Model {
        self.model()
    }

    proof fn round_trip(&self, de: Deserializer) {
        lemma_bytes_one(Event::Bool(*self));
        assert(de.data@[de.pos as int] == de.data@.subrange(de.pos as int, de.pos + 1)[0]);
    }
}

impl Binary for () {
    open spec fn sound(&self) -> bool {
        true
    }

    open spec fn carried(&self) -> Self::Model {
        self.model()
    }

    proof fn round_trip(&self, de: Deserializer) {
        lemma_bytes_one(Event::Null);
        assert(de.data@[de.pos as int] == de.data@.subrange(de.pos as int, de.pos + 1)[0]);
    }
}

/// A number in either precision is read back. One in double precision
/// that single precision holds exactly is written in single precision, and
/// comes back as the pattern that was written: the same number in another
/// form. A decimal literal has no bytes.
impl Binary for Float {
    open spec fn sound(&self) -> bool {
        true
    }

    open spec fn carried(&self) -> Float {
        self.narrowed()
    }

    proof fn round_trip(&self, de: Deserializer) {
        lemma_bytes_one(Event::Float(*self));
        match *self {
            Float::Single(bits) => {
                lemma_be_len(bits as nat, 4);
                lemma_field(de.data@, de.pos as int, 0xca, bits as nat, 4);
            },
            Float::Double(bits) => {
                match single_of(bits) {
                    Some(single) => {
                        lemma_be_len(single as nat, 4);
                        lemma_field(de.data@, de.pos as int, 0xca, single as nat, 4);
                    },
                    None => {
                        lemma_be_len(bits as nat, 8);
                        lemma_field(de.data@, de.pos as int, 0xcb, bits as nat, 8);
                    },
                }
            },
            Float::Decimal { .. } => {},
        }
    }
}

/// A number bound for single precision is read back like any other
/// floating-point number: single precision's range holds what comes back.
impl Binary for SingleFloat {
    open spec fn sound(&self) -> bool {
        self.well_formed()
    }

    open spec fn carried(&self) -> SingleFloat {
        SingleFloat { value: self.value.narrowed() }
    }

    proof fn round_trip(&self, de: Deserializer) {
        self.value.round_trip(de);
        if let Float::Single(bits) = self.value.narrowed() {
            lemma_single_holds(bits);
        }
    }
}

impl Binary for String {
    open spec fn sound(&self) -> bool {
        true
    }

    open spec fn carried(&self) -> Self::Model {
        self.model()
    }

    proof fn round_trip(&self, de: Deserializer) {
        lemma_bytes_one(Event::Str(self@));
        lemma_text(de.data@, de.pos as int, self@);
    }
}

impl<T: Binary> Binary for Option<T> {
    open spec fn sound(&self) -> bool {
        match self {
            Some(value) => value.sound() && value.events()[0] != Event::Null,
            None => true,
        }
    }

    open spec fn carried(&self) -> Option<T::Model> {
        match self {
            Some(value) => Some(value.carried()),
            None => None,
        }
    }

    proof fn round_trip(&self, de: Deserializer) {
        match self {
            Some(value) => {
                value.round_trip(de);
            },
            None => {
                lemma_bytes_one(Event::Null);
                assert(de.data@[de.pos as int] == de.data@.subrange(de.pos as int, de.pos + 1)[0]);
            },
        }
    }
}

/// Whether every value is sound.
pub open spec fn all_sound<T: Binary>(values: Seq<T>) -> bool {
    forall|i: int| 0 <= i < values.len() ==> (#[trigger] values[i]).sound()
}

/// The values of a sequence as they come back, in order.
pub open spec fn carried_all<T: Binary>(values: Seq<T>) -> Seq<T::Model> {
    values.map_values(|value: T| value.carried())
}

/// The calls of the elements of a sequence are those of the first element
/// and those of the others.
pub proof fn lemma_element_events_first<T: Serialize>(values: Seq<T>)
    requires
        values.len() > 0,
    ensures
        element_events(values) == elmt_events(&values[0]) + element_events(values.drop_first()),
    decreases values.len(),
{
    if values.len() == 1 {
        assert(values.drop_last() =~= Seq::<T>::empty());
        assert(values.drop_first() =~= Seq::<T>::empty());
        reveal_with_fuel(element_events, 2);
        assert(element_events(values) =~= elmt_events(&values[0]) + element_events(
            values.drop_first(),
        ));
    } else {
        lemma_element_events_first(values.drop_last());
        assert(values.drop_last().drop_first() =~= values.drop_first().drop_last());
        assert(values.drop_last()[0] == values[0]);
        assert(values.drop_first().last() == values.last());
        assert(element_events(values) =~= elmt_events(&values[0]) + element_events(
            values.drop_first(),
        ));
    }
}

/// A reader that stands before the bytes of the elements of a sequence, and
/// counts as many as there are, yields them and stands behind the bytes.
pub proof fn lemma_elements<T: Binary>(values: Seq<T>, de: Deserializer, cursor: Cursor)
    requires
        all_sound(values),
        cursor.left == Some(values.len() as usize),
        values.len() <= usize::MAX,
        bytes_of(element_events(values)) is Some,
        faces(de, bytes_of(element_events(values)).unwrap()),
    ensures
        parsed_elements::<T, Deserializer>(de, cursor) == Ok::<
            (Seq<T::Model>, Deserializer),
            crate::error::DeserializeError,
        >((carried_all(values), de.at(de.pos + bytes_of(element_events(values)).unwrap().len()))),
    decreases values.len(),
{
    let whole = bytes_of(element_events(values)).unwrap();
    if values.len() == 0 {
        assert(carried_all(values) =~= Seq::<T::Model>::empty());
        assert(de.at(de.pos + 0) == de);
    } else {
        let first = values[0];
        let rest = values.drop_first();
        lemma_element_events_first(values);
        lemma_bytes_concat(elmt_events(&first), element_events(rest));
        lemma_bytes_concat(seq![Event::StartSeqElmt] + first.events(), seq![Event::EndSeqElmt]);
        lemma_bytes_concat(seq![Event::StartSeqElmt], first.events());
        lemma_bytes_one(Event::StartSeqElmt);
        lemma_bytes_one(Event::EndSeqElmt);
        let head = bytes_of(first.events()).unwrap();
        let tail = bytes_of(element_events(rest)).unwrap();
        assert(bytes_of(elmt_events(&first)).unwrap() =~= head);
        assert(whole =~= head + tail);
        assert(de.data@.subrange(de.pos as int, de.pos + head.len()) =~= whole.subrange(
            0,
            head.len() as int,
        ));
        assert(whole.subrange(0, head.len() as int) =~= head);
        assert(first.sound());
        first.round_trip(de);
        let behind = de.at(de.pos + head.len());
        let moved = Cursor { first: false, left: Some((values.len() - 1) as usize) };
        assert(behind.data@.subrange(behind.pos as int, behind.pos + tail.len())
            =~= whole.subrange(head.len() as int, whole.len() as int));
        assert(whole.subrange(head.len() as int, whole.len() as int) =~= tail);
        assert(all_sound(rest)) by {
            assert forall|i: int| 0 <= i < rest.len() implies (#[trigger] rest[i]).sound() by {
                assert(rest[i] == values[i + 1]);
            }
        }
        lemma_elements(rest, behind, moved);
        assert(carried_all(values) =~= seq![first.carried()] + carried_all(rest));
        assert(behind.at(behind.pos + tail.len()) == de.at(de.pos + whole.len()));
    }
}

impl<T: Binary> Binary for Vec<T> {
    open spec fn sound(&self) -> bool {
        all_sound(self@)
    }

    open spec fn carried(&self) -> Seq<T::Model> {
        carried_all(self@)
    }

    proof fn round_trip(&self, de: Deserializer) {
        let opening = seq![Event::StartSeq(self@.len() as usize)];
        lemma_bytes_concat(opening + element_events(self@), seq![Event::EndSeq]);
        lemma_bytes_concat(opening, element_events(self@));
        lemma_bytes_one(Event::StartSeq(self@.len() as usize));
        lemma_bytes_one(Event::EndSeq);
        let whole = bytes_of(self.events()).unwrap();
        let head = count_bytes(0x90, 0xdc, self@.len() as usize as nat).unwrap();
        let tail = bytes_of(element_events(self@)).unwrap();
        assert(self@.len() == self.len());
        assert(whole =~= head + tail);
        assert(de.data@.subrange(de.pos as int, de.pos + head.len()) =~= whole.subrange(
            0,
            head.len() as int,
        ));
        assert(whole.subrange(0, head.len() as int) =~= head);
        lemma_sequence(de.data@, de.pos as int, self@.len() as usize);
        let inside = de.at(de.pos + head.len());
        assert(inside.data@.subrange(inside.pos as int, inside.pos + tail.len())
            =~= whole.subrange(head.len() as int, whole.len() as int));
        assert(whole.subrange(head.len() as int, whole.len() as int) =~= tail);
        lemma_elements(self@, inside, Cursor { first: true, left: Some(self@.len() as usize) });
        assert(inside.at(inside.pos + tail.len()) == de.at(de.pos + whole.len()));
    }
}

/// What the binary sink has written to announce a member of a record, a
/// reader inside the record reads back as the member's key: the number of
/// the member, without a name. The reader then stands before the member's
/// value.
pub proof fn theorem_member_round_trip(id: u32, de: Deserializer, cursor: Cursor)
    requires
        faces(de, unsigned_bytes(id as u64)),
        cursor.left matches Some(left) && left > 0,
    ensures
        de.member(cursor) == Ok::<
            (Option<(Option<u32>, Name)>, Deserializer, Cursor),
            crate::error::DeserializeError,
        >(
            (
                Some((Some(id), None)),
                de.at(de.pos + unsigned_bytes(id as u64).len()),
                Cursor { first: false, left: Some((cursor.left.unwrap() - 1) as usize) },
            ),
        ),
{
    lemma_unsigned(de.data@, de.pos as int, id as u64);
}

/// What the binary sink has written for a value, a reader of the binary
/// format reads back: it yields the value as the format carries it, and
/// stands at the end of the bytes. What comes back is the value itself, but
/// that a floating-point number may come back in another form.
pub proof fn theorem_round_trip<T: Binary>(value: T, written: Seq<u8>, de: Deserializer)
    requires
        value.sound(),
        emit_all::<Serializer>(Seq::empty(), value.events()) == Ok::<Seq<u8>, SerializeError>(
            written,
        ),
        de.data@ == written,
        de.pos == 0,
    ensures
        T::parsed(de) == Ok::<(T::Model, Deserializer), crate::error::DeserializeError>(
            (value.carried(), de.at(written.len() as int)),
        ),
{
    lemma_emit_all(Seq::empty(), value.events());
    let bytes = bytes_of(value.events()).unwrap();
    assert(Seq::<u8>::empty() + bytes =~= bytes);
    assert(de.data@.len() == de.data.len());
    assert(de.data@.subrange(0, bytes.len() as int) =~= bytes);
    value.round_trip(de);
}

/// A floating-point number that the binary sink has written comes back as
/// the same number: in the form in which it was held, or, where it was held
/// in double precision and single precision holds it exactly, in single
/// precision.
pub proof fn theorem_float_round_trip(value: Float, written: Seq<u8>, de: Deserializer)
    requires
        emit_all::<Serializer>(Seq::empty(), value.events()) == Ok::<Seq<u8>, SerializeError>(
            written,
        ),
        de.data@ == written,
        de.pos == 0,
    ensures
        Float::parsed(de) matches Ok((read, behind)) && value.same_number(read) && behind == de.at(
            written.len() as int,
        ),
{
    theorem_round_trip(value, written, de);
}

} // verus!