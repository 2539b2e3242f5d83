use crate::error::SerializeError;
use crate::json::value::boolean;
use crate::json::value::contents;
use crate::json::value::deepest_entry;
use crate::json::value::deepest_item;
use crate::json::value::depth;
use crate::json::value::entry;
use crate::json::value::indentable;
use crate::json::value::member;
use crate::json::value::dump;
use crate::json::value::insert;
use crate::json::value::inserted;
use crate::json::value::json_dump;
use crate::json::value::json_pretty;
use crate::json::value::new_array;
use crate::json::value::new_object;
use crate::json::value::null;
use crate::json::value::number;
use crate::json::value::pretty;
use crate::json::value::push;
use crate::json::value::shallow;
use crate::json::value::string;
use crate::json::value::stripped;
use crate::json::value::Shallow;
use crate::json::value::Tree;
use crate::number::Float;
use crate::ser::traits::Event;
use crate::ser::traits::Serializer as Sink;
use crate::text::chars::push_digits;
use crate::text::chars::push_str;
use crate::text::chars::string_of;
use crate::text::ser::composite;
use vstd::prelude::*;

verus! {

/// What the sink has built: the value that was completed last, the
/// aggregates that are open, innermost last, and the keys of the members
/// whose values are being written.
pub struct Build {
    pub current: Tree,
    pub stack: Seq<Tree>,
    pub keys: Seq<Seq<char>>,
}

/// The number of an integer.
pub open spec fn integer_tree(value: int) -> Tree {
    if value < 0 {
        Tree::Number { nan: false, positive: false, mantissa: (-value) as u64, exponent: 0 }
    } else {
        Tree::Number { nan: false, positive: true, mantissa: value as u64, exponent: 0 }
    }
}

/// The value of a scalar, or `None` where the sink has no form for it or
/// the call is none of a scalar. A floating-point number is taken as a
/// decimal literal, without the zeros that end its fraction; an enum's
/// variant is the string of its composite key.
pub open spec fn scalar_tree(event: Event) -> Option<Tree> {
    match event {
        Event::Null => Some(Tree::Null),
        Event::Bool(value) => Some(Tree::Boolean(value)),
        Event::Signed(value) => Some(integer_tree(value as int)),
        Event::Unsigned(value) => Some(integer_tree(value as int)),
        Event::Float(Float::Decimal { negative, mantissa, exponent }) => Some(
            Tree::Number {
                nan: false,
                positive: !negative,
                mantissa: stripped(mantissa, exponent).0,
                exponent: stripped(mantissa, exponent).1,
            },
        ),
        Event::Str(text) => Some(Tree::Text(text)),
        Event::Enum(id, name) => Some(Tree::Text(composite(id, name))),
        _ => None,
    }
}

/// The aggregate with the value that was completed last put into it: an
/// object takes it under the key, an array behind its members.
pub open spec fn absorbed(top: Tree, key: Option<Seq<char>>, item: Tree) -> Tree {
    match (top, key) {
        (Tree::Object(entries), Some(key)) => Tree::Object(inserted(entries, key, item)),
        (Tree::Array(items), None) => Tree::Array(items.push(item)),
        _ => top,
    }
}

/// What the sink has built after a call. A scalar becomes the current
/// value. Opening an aggregate puts an empty one on the stack, closing it
/// takes it off the stack and makes it the current value. Announcing a
/// member puts its composite key aside; closing the member, or an element,
/// moves the current value into the aggregate on top of the stack and
/// leaves a null in its place.
pub open spec fn built(state: Build, event: Event) -> Option<Build> {
    match event {
        Event::StartStruct(_) => Some(
            Build { stack: state.stack.push(Tree::Object(Seq::empty())), ..state },
        ),
        Event::StartSeq(_) => Some(
            Build { stack: state.stack.push(Tree::Array(Seq::empty())), ..state },
        ),
        Event::StartStructField(id, name) => Some(
            Build { keys: state.keys.push(composite(id, name)), ..state },
        ),
        Event::StartSeqElmt => Some(state),
        Event::EndStructField => if state.keys.len() == 0 {
            None
        } else if state.stack.len() > 0 && state.stack.last() is Object {
            Some(
                Build {
                    current: Tree::Null,
                    stack: state.stack.drop_last().push(
                        absorbed(state.stack.last(), Some(state.keys.last()), state.current),
                    ),
                    keys: state.keys.drop_last(),
                },
            )
        } else {
            Some(Build { keys: state.keys.drop_last(), ..state })
        },
        Event::EndSeqElmt => if state.stack.len() > 0 && state.stack.last() is Array {
            Some(
                Build {
                    current: Tree::Null,
                    stack: state.stack.drop_last().push(
                        absorbed(state.stack.last(), None, state.current),
                    ),
                    ..state
                },
            )
        } else {
            Some(state)
        },
        Event::EndStruct | Event::EndSeq => if state.stack.len() > 0 {
            Some(Build { current: state.stack.last(), stack: state.stack.drop_last(), ..state })
        } else {
            None
        },
        _ => match scalar_tree(event) {
            Some(tree) => Some(Build { current: tree, ..state }),
            None => None,
        },
    }
}

/// Whether the aggregates of the value nest no deeper than `limit`.
pub fn nests_within(value: &json::JsonValue, limit: u16) -> (fits: bool)
    ensures
        fits == (depth(contents(*value)) <= limit),
    decreases contents(*value),
{
    match shallow(value) {
        Shallow::Array(len) => {
            if len == 0 {
                return true;
            }
            if limit == 0 {
                return false;
            }
            let ghost items = contents(*value)->Array_0;
            let mut index: usize = 0;
            while index < len
                invariant
                    index <= len == items.len(),
                    limit > 0,
                    contents(*value) == Tree::Array(items),
                    deepest_item(items, index as nat) <= limit - 1,
                decreases len - index,
            {
                if !nests_within(member(value, index), limit - 1) {
                    proof {
                        lemma_deepest_item(items, index as int, len as nat);
                    }
                    return false;
                }
                index = index + 1;
            }
            true
        },
        Shallow::Object(len) => {
            if len == 0 {
                return true;
            }
            if limit == 0 {
                return false;
            }
            let ghost entries = contents(*value)->Object_0;
            let mut index: usize = 0;
            while index < len
                invariant
                    index <= len == entries.len(),
                    limit > 0,
                    contents(*value) == Tree::Object(entries),
                    deepest_entry(entries, index as nat) <= limit - 1,
                decreases len - index,
            {
                match entry(value, index) {
                    Some((_, item)) => {
                        if !nests_within(item, limit - 1) {
                            proof {
                                lemma_deepest_entry(entries, index as int, len as nat);
                            }
                            return false;
                        }
                    },
                    None => {},
                }
                index = index + 1;
            }
            true
        },
        _ => true,
    }
}

/// The deepest of the first members is no less deep than any one of them.
proof fn lemma_deepest_item(items: Seq<Tree>, at: int, count: nat)
    requires
        0 <= at < count <= items.len(),
    ensures
        depth(items[at]) <= deepest_item(items, count),
    decreases count,
{
    if at < count - 1 {
        lemma_deepest_item(items, at, (count - 1) as nat);
    }
}

/// The deepest of the first members is no less deep than any one of them.
proof fn lemma_deepest_entry(entries: Seq<(Seq<char>, Tree)>, at: int, count: nat)
    requires
        0 <= at < count <= entries.len(),
    ensures
        depth(entries[at].1) <= deepest_entry(entries, count),
    decreases count,
{
    if at < count - 1 {
        lemma_deepest_entry(entries, at, (count - 1) as nat);
    }
}

/// The sink that builds a value of the JSON crate.
pub struct Serializer {
    pub current_value: json::JsonValue,
    pub stack: Vec<json::JsonValue>,
    pub keys: Vec<String>,
}

impl Serializer {
    /// A sink that has built a null.
    pub fn new() -> (serializer: Self)
        ensures
            serializer.state() == (Build {
                current: Tree::Null,
                stack: Seq::empty(),
                keys: Seq::empty(),
            }),
    {
        let serializer = Serializer { current_value: null(), stack: Vec::new(), keys: Vec::new() };
        assert(serializer.state().stack =~= Seq::<Tree>::empty());
        assert(serializer.state().keys =~= Seq::<Seq<char>>::empty());
        serializer
    }

    /// The value that was completed last, as the JSON crate writes it
    /// without blanks.
    pub fn write(&self) -> (text: String)
        ensures
            text@ == json_dump(self.state().current),
    {
        dump(&self.current_value)
    }

    /// The value that was completed last, as the JSON crate writes it with
    /// a member a line, indented by so many spaces a level; or `None` where
    /// the value nests deeper than the crate's writer can indent.
    pub fn write_pretty(&self, spaces: u16) -> (text: Option<String>)
        ensures
            match text {
                Some(text) => indentable(self.state().current, spaces) && text@ == json_pretty(
                    self.state().current,
                    spaces,
                ),
                None => !indentable(self.state().current, spaces),
            },
    {
        let limit: u16 = if spaces == 0 {
            u16::MAX
        } else {
            u16::MAX / spaces
        };
        proof {
            let levels = depth(self.state().current) as int;
            if spaces != 0 {
                assert(levels <= 0xffffint / (spaces as int) <==> levels * spaces <= 0xffff)
                    by (nonlinear_arith)
                    requires
                        0 <= levels,
                        0 < spaces,
                ;
                assert(levels * spaces <= 0xffff ==> levels <= 0xffff) by (nonlinear_arith)
                    requires
                        0 <= levels,
                        0 < spaces,
                ;
            } else {
                assert(levels * spaces == 0) by (nonlinear_arith)
                    requires
                        spaces == 0,
                ;
            }
        }
        if nests_within(&self.current_value, limit) {
            Some(pretty(&self.current_value, spaces))
        } else {
            None
        }
    }

    /// Closes the aggregate on top of the stack.
    fn close(&mut self) -> (verdict: Result<(), SerializeError>)
        ensures
            match built(old(self).state(), Event::EndSeq) {
                Some(next) => verdict is Ok && final(self).state() == next,
                None => verdict is Err && final(self).state() == old(self).state(),
            },
    {
        match self.stack.pop() {
            Some(top) => {
                self.current_value = top;
                assert(self.state().stack =~= old(self).state().stack.drop_last());
                Ok(())
            },
            None => Err(SerializeError),
        }
    }

    /// Opens an aggregate that starts as `empty`.
    fn open(&mut self, empty: json::JsonValue)
        ensures
            final(self).state() == (Build {
                stack: old(self).state().stack.push(contents(empty)),
                ..old(self).state()
            }),
    {
        self.stack.push(empty);
        assert(self.state().stack =~= old(self).state().stack.push(contents(empty)));
    }

    /// Moves the current value into the aggregate on top of the stack:
    /// into an object under `key`, into an array where there is no key.
    fn absorb(&mut self, key: Option<&str>)
        ensures
            final(self).keys == old(self).keys,
            final(self).state().keys == old(self).state().keys,
            if old(self).state().stack.len() > 0 && match key {
                Some(_) => old(self).state().stack.last() is Object,
                None => old(self).state().stack.last() is Array,
            } {
                &&& final(self).state().current == Tree::Null
                &&& final(self).state().stack == old(self).state().stack.drop_last().push(
                    absorbed(
                        old(self).state().stack.last(),
                        match key {
                            Some(key) => Some(key@),
                            None => None,
                        },
                        old(self).state().current,
                    ),
                )
            } else {
                &&& final(self).state().current == old(self).state().current
                &&& final(self).state().stack == old(self).state().stack
            },
    {
        match self.stack.pop() {
            Some(mut top) => {
                let ghost below = self.state().stack;
                assert(below =~= old(self).state().stack.drop_last());
                match (shallow(&top), key) {
                    (Shallow::Object(_), Some(key)) => {
                        let mut item = null();
                        std::mem::swap(&mut self.current_value, &mut item);
                        insert(&mut top, key, item);
                    },
                    (Shallow::Array(_), None) => {
                        let mut item = null();
                        std::mem::swap(&mut self.current_value, &mut item);
                        push(&mut top, item);
                    },
                    _ => {},
                }
                self.stack.push(top);
                assert(self.state().stack =~= below.push(contents(top)));
                assert(old(self).state().stack =~= below.push(old(self).state().stack.last()));
            },
            None => {
                assert(self.state().stack =~= old(self).state().stack);
            },
        }
    }
}

impl Sink for Serializer {
    type State = Build;

    open spec fn state(&self) -> Build {
        Build {
            current: contents(self.current_value),
            stack: self.stack@.map_values(|value: json::JsonValue| contents(value)),
            keys: self.keys@.map_values(|key: String| key@),
        }
    }

    open spec fn emit(state: Build, event: Event) -> Result<Build, SerializeError> {
        match built(state, event) {
            Some(next) => Ok(next),
            None => Err(SerializeError),
        }
    }

    fn serialize_null(&mut self) -> (verdict: Result<(), SerializeError>) {
        self.current_value = null();
        Ok(())
    }

    fn serialize_bool(&mut self, value: bool) -> (verdict: Result<(), SerializeError>) {
        self.current_value = boolean(value);
        Ok(())
    }

    fn serialize_signed(&mut self, value: i64) -> (verdict: Result<(), SerializeError>) {
        if value < 0 {
            self.current_value = number(false, (-(value as i128)) as u64, 0);
        } else {
            self.current_value = number(true, value as u64, 0);
        }
        Ok(())
    }

    fn serialize_unsigned(&mut self, value: u64) -> (verdict: Result<(), SerializeError>) {
        self.current_value = number(true, value, 0);
        Ok(())
    }

    fn serialize_float(&mut self, value: Float) -> (verdict: Result<(), SerializeError>) {
        match value {
            Float::Decimal { negative, mantissa, exponent } => {
                self.current_value = number(!negative, mantissa, exponent);
                Ok(())
            },
            _ => Err(SerializeError),
        }
    }

    fn serialize_str(&mut self, value: &str) -> (verdict: Result<(), SerializeError>) {
        self.current_value = string(value);
        Ok(())
    }

    fn serialize_enum(&mut self, value: u32, name: &'static str) -> (verdict: Result<
        (),
        SerializeError,
    >) {
        let key = composite_key(value, name);
        self.current_value = string(key.as_str());
        Ok(())
    }

    fn start_struct(&mut self, len: usize) -> (verdict: Result<(), SerializeError>) {
        self.open(new_object());
        Ok(())
    }

    fn start_struct_field(&mut self, field_id: u32, field_name: &'static str) -> (verdict: Result<
        (),
        SerializeError,
    >) {
        let key = composite_key(field_id, field_name);
        self.keys.push(key);
        assert(self.state().keys =~= old(self).state().keys.push(
            composite(field_id, field_name@),
        ));
        Ok(())
    }

    fn end_struct_field(&mut self) -> (verdict: Result<(), SerializeError>) {
        match self.keys.pop() {
            Some(key) => {
                assert(self.state().keys =~= old(self).state().keys.drop_last());
                self.absorb(Some(key.as_str()));
                Ok(())
            },
            None => Err(SerializeError),
        }
    }

    fn end_struct(&mut self) -> (verdict: Result<(), SerializeError>) {
        self.close()
    }

    fn start_seq(&mut self, len: usize) -> (verdict: Result<(), SerializeError>) {
        self.open(new_array());
        Ok(())
    }

    fn start_seq_elmt(&mut self) -> (verdict: Result<(), SerializeError>) {
        Ok(())
    }

    fn end_seq_elmt(&mut self) -> (verdict: Result<(), SerializeError>) {
        self.absorb(None);
        Ok(())
    }

    fn end_seq(&mut self) -> (verdict: Result<(), SerializeError>) {
        self.close()
    }
}

/// The composite key of a member or a variant, as a string.
pub fn composite_key(id: u32, name: &str) -> (key: String)
    ensures
        key@ == composite(id, name@),
{
    let mut chars: Vec<char> = Vec::new();
    push_digits(&mut chars, id as u64);
    chars.push(':');
    push_str(&mut chars, name);
    assert(chars@ =~= composite(id, name@));
    string_of(chars.as_slice())
}

} // verus!
