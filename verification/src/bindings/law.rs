use crate::bindings::key::all_digits;
use crate::bindings::key::id_literal;
use crate::bindings::table::id_at;
use crate::bindings::table::Entry;
use crate::bindings::unique::unique_ids;
use crate::bindings::variant::parsed_enum;
use crate::bindings::variant::variant_of;
use crate::de::traits::Deserializer;
use crate::de::visitor::Token;
use crate::error::DeserializeError;
use crate::error::SerializeError;
use crate::msgpack;
use crate::ser::traits::emit_all;
use crate::ser::traits::Event;
use crate::text::chars::digits;
use crate::text::de::JsonDeserializer;
use crate::text::law::lemma_digits;
use crate::text::law::lemma_found_first;
use crate::text::law::lemma_string;
use crate::text::law::lemma_text_one;
use crate::text::ser::composite;
use crate::text::ser::quoted;
use crate::text::ser::JsonSerializer;
use vstd::prelude::*;

verus! {

/// The numbers of a table, in the table's order.
pub open spec fn ids(table: Seq<Entry>) -> Seq<u32> {
    table.map_values(|entry: Entry| entry.id)
}

/// In a table whose numbers are unique, the number of an entry leads to the
/// entry.
pub proof fn lemma_unique_id_found(table: Seq<Entry>, index: int)
    requires
        0 <= index < table.len(),
        unique_ids(ids(table)),
    ensures
        id_at(table, table[index].id as int, 0) == Some(index),
{
    lemma_first_with_id(table, index, 0);
}

/// A lookup that starts at or before an entry whose number no earlier entry
/// has finds the entry.
proof fn lemma_first_with_id(table: Seq<Entry>, index: int, from: int)
    requires
        0 <= from <= index < table.len(),
        unique_ids(ids(table)),
    ensures
        id_at(table, table[index].id as int, from) == Some(index),
    decreases index - from,
{
    if from < index {
        assert(ids(table)[from] == table[from].id);
        assert(ids(table)[index] == table[index].id);
        lemma_first_with_id(table, index, from + 1);
    }
}

/// In a table whose numbers are unique, a key that carries the number of an
/// entry names the entry, whatever name it carries.
pub proof fn lemma_key_names(table: Seq<Entry>, index: int, name: Option<Seq<char>>)
    requires
        0 <= index < table.len(),
        unique_ids(ids(table)),
    ensures
        crate::bindings::table::resolved(table, Some(table[index].id), name) == Some(index),
{
    lemma_unique_id_found(table, index);
}

/// A composite key names the variant whose number it carries.
pub proof fn lemma_composite_names(variants: Seq<Entry>, index: int)
    requires
        0 <= index < variants.len(),
        unique_ids(ids(variants)),
    ensures
        variant_of(
            variants,
            Token::Str(composite(variants[index].id, variants[index].name@)),
        ) == Ok::<int, DeserializeError>(index),
{
    let id = variants[index].id;
    let name = variants[index].name@;
    let text = composite(id, name);
    let figures = digits(id as nat);
    lemma_digits(id as nat);
    assert forall|i: int| 0 <= i < figures.len() implies #[trigger] text[i] != ':' by {
        assert(text[i] == figures[i]);
    }
    assert(text[figures.len() as int] == ':');
    lemma_found_first(text, 0, figures.len() as int, ':');
    assert(text.take(figures.len() as int) =~= figures);
    assert(text.skip(figures.len() as int + 1) =~= name);
    assert(all_digits(figures));
    assert(figures[0] != '+' && figures[0] != '-');
    assert(id_literal(figures) == Some(id));
    lemma_unique_id_found(variants, index);
}

/// What the compact writer has written for a variant of an enum, a reader
/// of the text format reads back as the same variant, where the numbers of
/// the binding are unique.
pub proof fn theorem_enum_text_round_trip(
    variants: Seq<Entry>,
    index: int,
    written: Seq<char>,
    de: JsonDeserializer,
)
    requires
        0 <= index < variants.len(),
        unique_ids(ids(variants)),
        emit_all::<JsonSerializer>(
            Seq::empty(),
            seq![Event::Enum(variants[index].id, variants[index].name@)],
        ) == Ok::<Seq<char>, SerializeError>(written),
        de.data@ == written,
        de.pos == 0,
    ensures
        parsed_enum(variants, de) == Ok::<(int, JsonDeserializer), DeserializeError>(
            (index, de.at(written.len() as int)),
        ),
{
    let id = variants[index].id;
    let name = variants[index].name@;
    let text = composite(id, name);
    crate::text::law::lemma_emit_all(Seq::empty(), seq![Event::Enum(id, name)]);
    lemma_text_one(Event::Enum(id, name));
    assert(Seq::<char>::empty() + quoted(text) =~= quoted(text));
    assert(de.data@.len() == de.data.len());
    assert(de.data@.subrange(0, quoted(text).len() as int) =~= quoted(text));
    lemma_string(de.data@, 0, text);
    lemma_composite_names(variants, index);
}

/// What the binary sink has written for a variant of an enum, a reader of
/// the binary format reads back as the same variant, where the numbers of
/// the binding are unique.
pub proof fn theorem_enum_binary_round_trip(
    variants: Seq<Entry>,
    index: int,
    written: Seq<u8>,
    de: msgpack::Deserializer,
)
    requires
        0 <= index < variants.len(),
        unique_ids(ids(variants)),
        emit_all::<msgpack::Serializer>(
            Seq::empty(),
            seq![Event::Enum(variants[index].id, variants[index].name@)],
        ) == Ok::<Seq<u8>, SerializeError>(written),
        de.data@ == written,
        de.pos == 0,
    ensures
        parsed_enum(variants, de) == Ok::<(int, msgpack::Deserializer), DeserializeError>(
            (index, de.at(written.len() as int)),
        ),
{
    let id = variants[index].id;
    let name = variants[index].name@;
    msgpack::law::lemma_emit_all(Seq::empty(), seq![Event::Enum(id, name)]);
    msgpack::law::lemma_bytes_one(Event::Enum(id, name));
    let bytes = msgpack::ser::unsigned_bytes(id as u64);
    assert(Seq::<u8>::empty() + bytes =~= bytes);
    assert(de.data@.len() == de.data.len());
    assert(de.data@.subrange(0, bytes.len() as int) =~= bytes);
    msgpack::law::lemma_unsigned(de.data@, 0, id as u64);
    lemma_unique_id_found(variants, index);
}

} // verus!
