use crate::text::chars::digits_end;
use vstd::prelude::*;

verus! {

#[verifier::external_type_specification]
#[verifier::external_body]
pub struct ExJsonValue(json::JsonValue);

/// What a JSON value holds.
pub enum Tree {
    Null,
    Boolean(bool),
    /// The number `mantissa * 10^exponent`, negated unless `positive`; or no
    /// number at all where `nan` is set.
    Number { nan: bool, positive: bool, mantissa: u64, exponent: i16 },
    Text(Seq<char>),
    Array(Seq<Tree>),
    /// The members of an object, in the order in which their keys came in.
    Object(Seq<(Seq<char>, Tree)>),
}

/// What a value of the JSON crate holds.
pub uninterp spec fn contents(value: json::JsonValue) -> Tree;

/// What `json::parse` makes of a text.
pub uninterp spec fn json_parse(source: Seq<char>) -> Option<Tree>;

/// What `JsonValue::dump` writes for a value that holds the tree.
pub uninterp spec fn json_dump(tree: Tree) -> Seq<char>;

/// What `JsonValue::pretty` writes for a value that holds the tree, with so
/// many spaces a level.
pub uninterp spec fn json_pretty(tree: Tree, spaces: u16) -> Seq<char>;

/// What a JSON value holds at its top: a scalar as it is, an aggregate by
/// the count of its parts.
pub enum Shallow {
    Null,
    Boolean(bool),
    Number { nan: bool, positive: bool, mantissa: u64, exponent: i16 },
    Text(String),
    Array(usize),
    Object(usize),
}

impl Shallow {
    /// Whether this is the top of the tree.
    pub open spec fn tops(self, tree: Tree) -> bool {
        match tree {
            Tree::Null => self is Null,
            Tree::Boolean(value) => self == Shallow::Boolean(value),
            Tree::Number { nan, positive, mantissa, exponent } => self == (Shallow::Number {
                nan,
                positive,
                mantissa,
                exponent,
            }),
            Tree::Text(text) => self matches Shallow::Text(own) && own@ == text,
            Tree::Array(items) => self matches Shallow::Array(len) && len == items.len(),
            Tree::Object(entries) => self matches Shallow::Object(len) && len == entries.len(),
        }
    }
}

/// The mantissa and the exponent without the zeros that end a fraction:
/// while the exponent is negative and the mantissa a multiple of ten, the
/// mantissa loses a zero and the exponent rises by one.
pub open spec fn stripped(mantissa: u64, exponent: i16) -> (u64, i16)
    decreases -exponent,
{
    if exponent < 0 && mantissa % 10 == 0 {
        stripped(mantissa / 10, (exponent + 1) as i16)
    } else {
        (mantissa, exponent)
    }
}

/// The position of the first member with the key, or the count of the
/// members where none has it.
pub open spec fn key_at(entries: Seq<(Seq<char>, Tree)>, key: Seq<char>, from: int) -> int
    decreases entries.len() - from,
{
    if 0 <= from < entries.len() && entries[from].0 != key {
        key_at(entries, key, from + 1)
    } else {
        from
    }
}

/// The members after one has been put in: under a key that the object
/// holds the value is replaced where it stands, a new key comes last.
pub open spec fn inserted(entries: Seq<(Seq<char>, Tree)>, key: Seq<char>, tree: Tree) -> Seq<
    (Seq<char>, Tree),
> {
    let at = key_at(entries, key, 0);
    if at < entries.len() {
        entries.update(at, (key, tree))
    } else {
        entries.push((key, tree))
    }
}

/// The most digits that may stand behind a point: the parser counts them
/// in a 16-bit exponent.
pub const FRACTION_LIMIT: usize = 32767;

/// Whether no point in the text is followed by a run of more than
/// `FRACTION_LIMIT` digits.
pub open spec fn short_fractions(source: Seq<char>) -> bool {
    forall|at: int|
        0 <= at < source.len() && source[at] == '.' ==> digits_end(source, at + 1) - (at + 1)
            <= FRACTION_LIMIT
}

/// How deep the aggregates that hold something nest in a tree: a scalar and
/// an empty aggregate have depth zero, another aggregate lies one above the
/// deepest of its parts.
pub open spec fn depth(tree: Tree) -> nat
    decreases tree, 0nat,
{
    match tree {
        Tree::Array(items) => if items.len() == 0 {
            0
        } else {
            1 + deepest_item(items, items.len())
        },
        Tree::Object(entries) => if entries.len() == 0 {
            0
        } else {
            1 + deepest_entry(entries, entries.len())
        },
        _ => 0,
    }
}

/// The greatest depth among the first `count` members of an array.
pub open spec fn deepest_item(items: Seq<Tree>, count: nat) -> nat
    decreases items, count,
{
    if count == 0 || count > items.len() {
        0
    } else {
        let before = deepest_item(items, (count - 1) as nat);
        let last = depth(items[count - 1]);
        if before >= last {
            before
        } else {
            last
        }
    }
}

/// The greatest depth among the first `count` members of an object.
pub open spec fn deepest_entry(entries: Seq<(Seq<char>, Tree)>, count: nat) -> nat
    decreases entries, count,
{
    if count == 0 || count > entries.len() {
        0
    } else {
        let before = deepest_entry(entries, (count - 1) as nat);
        let last = depth(entries[count - 1].1);
        if before >= last {
            before
        } else {
            last
        }
    }
}

/// Whether the pretty writer can indent the tree by so many spaces a level:
/// it counts the levels, and the spaces of a line, in 16 bits.
pub open spec fn indentable(tree: Tree, spaces: u16) -> bool {
    depth(tree) * spaces <= u16::MAX && depth(tree) <= u16::MAX
}

/// `json::parse`: the value that a JSON text stands for, or `None` where
/// the crate's parser does not take the text. The parser lowers a 16-bit
/// exponent by one for a digit behind a point, so a text with a longer run
/// of such digits than that holds is kept from it.
#[verifier::external_body]
pub(crate) fn parse(source: &str) -> (value: Option<json::JsonValue>)
    requires
        short_fractions(source@),
    ensures
        match value {
            Some(value) => json_parse(source@) == Some(contents(value)),
            None => json_parse(source@) is None,
        },
{
    json::parse(source).ok()
}

/// Tells the variants of `JsonValue` apart: a scalar is handed out (a short
/// string like a long one, a number by `Number::as_parts` and
/// `Number::is_nan`), an array or an object by its length.
#[verifier::external_body]
pub(crate) fn shallow(value: &json::JsonValue) -> (top: Shallow)
    ensures
        top.tops(contents(*value)),
{
    match value {
        json::JsonValue::Null => Shallow::Null,
        json::JsonValue::Short(text) => Shallow::Text(text.as_str().to_owned()),
        json::JsonValue::String(text) => Shallow::Text(text.clone()),
        json::JsonValue::Number(number) => {
            let (positive, mantissa, exponent) = number.as_parts();
            Shallow::Number { nan: number.is_nan(), positive, mantissa, exponent }
        },
        json::JsonValue::Boolean(value) => Shallow::Boolean(*value),
        json::JsonValue::Object(object) => Shallow::Object(object.len()),
        json::JsonValue::Array(array) => Shallow::Array(array.len()),
    }
}

/// Indexing a `JsonValue` by a number: the member of an array at that
/// position.
#[verifier::external_body]
pub(crate) fn member(value: &json::JsonValue, index: usize) -> (item: &json::JsonValue)
    requires
        contents(*value) is Array,
        index < contents(*value)->Array_0.len(),
    ensures
        contents(*item) == contents(*value)->Array_0[index as int],
{
    &value[index]
}

/// `JsonValue::entries`: the member of an object at a position in the order
/// in which the keys came in, as its key and its value.
#[verifier::external_body]
pub(crate) fn entry(value: &json::JsonValue, index: usize) -> (pair: Option<
    (&str, &json::JsonValue),
>)
    requires
        contents(*value) is Object,
    ensures
        match pair {
            Some((key, item)) => {
                &&& index < contents(*value)->Object_0.len()
                &&& key@ == contents(*value)->Object_0[index as int].0
                &&& contents(*item) == contents(*value)->Object_0[index as int].1
            },
            None => index >= contents(*value)->Object_0.len(),
        },
{
    value.entries().nth(index)
}

/// `JsonValue::Null`: the value that holds a null.
#[verifier::external_body]
pub(crate) fn null() -> (value: json::JsonValue)
    ensures
        contents(value) == Tree::Null,
{
    json::JsonValue::Null
}

/// `JsonValue::Boolean`: the value that holds a boolean.
#[verifier::external_body]
pub(crate) fn boolean(flag: bool) -> (value: json::JsonValue)
    ensures
        contents(value) == Tree::Boolean(flag),
{
    json::JsonValue::Boolean(flag)
}

/// `Number::from_parts`: the value that holds the number of these parts,
/// without the zeros that end a fraction.
#[verifier::external_body]
pub(crate) fn number(positive: bool, mantissa: u64, exponent: i16) -> (value: json::JsonValue)
    ensures
        contents(value) == (Tree::Number {
            nan: false,
            positive,
            mantissa: stripped(mantissa, exponent).0,
            exponent: stripped(mantissa, exponent).1,
        }),
{
    json::JsonValue::Number(json::number::Number::from_parts(positive, mantissa, exponent))
}

/// `JsonValue::from` on a string slice: the value that holds the string.
#[verifier::external_body]
pub(crate) fn string(text: &str) -> (value: json::JsonValue)
    ensures
        contents(value) == Tree::Text(text@),
{
    json::JsonValue::from(text)
}

/// `JsonValue::new_object`: an object without members.
#[verifier::external_body]
pub(crate) fn new_object() -> (value: json::JsonValue)
    ensures
        contents(value) == Tree::Object(Seq::empty()),
{
    json::JsonValue::new_object()
}

/// `JsonValue::new_array`: an array without members.
#[verifier::external_body]
pub(crate) fn new_array() -> (value: json::JsonValue)
    ensures
        contents(value) == Tree::Array(Seq::empty()),
{
    json::JsonValue::new_array()
}

/// `JsonValue::insert`: puts a member into an object, in place of the one
/// that has the key or else behind the others. Any other value is left as
/// it is.
#[verifier::external_body]
pub(crate) fn insert(target: &mut json::JsonValue, key: &str, item: json::JsonValue)
    ensures
        contents(*final(target)) == match contents(*old(target)) {
            Tree::Object(entries) => Tree::Object(inserted(entries, key@, contents(item))),
            other => other,
        },
{
    let _ = target.insert(key, item);
}

/// `JsonValue::push`: puts a member behind the others of an array. Any
/// other value is left as it is.
#[verifier::external_body]
pub(crate) fn push(target: &mut json::JsonValue, item: json::JsonValue)
    ensures
        contents(*final(target)) == match contents(*old(target)) {
            Tree::Array(items) => Tree::Array(items.push(contents(item))),
            other => other,
        },
{
    let _ = target.push(item);
}

/// `JsonValue::dump`: the value as JSON text without blanks.
#[verifier::external_body]
pub(crate) fn dump(value: &json::JsonValue) -> (text: String)
    ensures
        text@ == json_dump(contents(*value)),
{
    value.dump()
}

/// `JsonValue::pretty`: the value as JSON text, a member a line, indented
/// by so many spaces a level. The generator counts the levels in 16 bits and
/// multiplies them by the spaces in 16 bits, so a value that nests deeper
/// than that holds is kept from it.
#[verifier::external_body]
pub(crate) fn pretty(value: &json::JsonValue, spaces: u16) -> (text: String)
    requires
        indentable(contents(*value), spaces),
    ensures
        text@ == json_pretty(contents(*value), spaces),
{
    value.pretty(spaces)
}

} // verus!
