use crate::text::chars::decimal;
use crate::text::chars::first_of;
use crate::text::chars::is_digit;
use crate::text::chars::lemma_decimal_grows;
use vstd::prelude::*;

verus! {

/// Whether every character is a digit.
pub open spec fn all_digits(run: Seq<char>) -> bool {
    forall|i: int| 0 <= i < run.len() ==> is_digit(#[trigger] run[i])
}

/// The number that a run of one or more digits stands for; no other text
/// stands for one.
pub open spec fn digits_literal(run: Seq<char>) -> Option<nat> {
    if run.len() > 0 && all_digits(run) {
        Some(decimal(run))
    } else {
        None
    }
}

/// The number that a text stands for, if it is a run of one or more digits
/// with or without a plus sign before it.
pub open spec fn unsigned_literal(text: Seq<char>) -> Option<nat> {
    if text.len() > 0 && text[0] == '+' {
        digits_literal(text.skip(1))
    } else {
        digits_literal(text)
    }
}

/// The number of a variant that a text can name: that of a run of digits
/// with or without a sign before it, where it is not negative and 32 bits
/// hold it.
pub open spec fn id_literal(text: Seq<char>) -> Option<u32> {
    if text.len() > 0 && text[0] == '-' {
        if digits_literal(text.skip(1)) == Some(0nat) {
            Some(0u32)
        } else {
            None
        }
    } else {
        match unsigned_literal(text) {
            Some(id) => if id <= u32::MAX {
                Some(id as u32)
            } else {
                None
            },
            None => None,
        }
    }
}

/// The two parts of a composite key `id:name`. Where the text before the
/// first colon is a number that 32 bits hold, it is the member's number and
/// the text behind the colon its name. Any other key is a name as a whole.
pub open spec fn split(key: Seq<char>) -> (Option<u32>, Seq<char>) {
    let colon = first_of(key, 0, ':');
    if colon < key.len() {
        match unsigned_literal(key.take(colon)) {
            Some(id) => if id <= u32::MAX {
                (Some(id as u32), key.skip(colon + 1))
            } else {
                (None, key)
            },
            None => (None, key),
        }
    } else {
        (None, key)
    }
}

/// Reads a run of digits as a number of at most `limit`.
pub fn parse_digits(run: &[char], limit: u64) -> (value: Option<u64>)
    ensures
        value == match digits_literal(run@) {
            Some(number) => if number <= limit {
                Some(number as u64)
            } else {
                None
            },
            None => None,
        },
{
    if run.len() == 0 {
        return None;
    }
    let mut checked: usize = 0;
    while checked < run.len()
        invariant
            checked <= run@.len(),
            forall|i: int| 0 <= i < checked ==> is_digit(#[trigger] run@[i]),
        decreases run@.len() - checked,
    {
        let c = run[checked];
        if c < '0' || c > '9' {
            assert(!is_digit(run@[checked as int]));
            return None;
        }
        checked = checked + 1;
    }
    let mut value: u64 = 0;
    let mut index: usize = 0;
    proof {
        assert(run@.take(0) =~= Seq::<char>::empty());
    }
    while index < run.len()
        invariant
            index <= run@.len(),
            all_digits(run@),
            value == decimal(run@.take(index as int)),
            value <= limit,
        decreases run@.len() - index,
    {
        let c = run[index];
        assert(is_digit(run@[index as int]));
        let digit = (c as u32 - '0' as u32) as u64;
        proof {
            let longer = run@.take(index + 1);
            assert(longer.drop_last() =~= run@.take(index as int));
            assert(longer.last() == c);
            lemma_decimal_grows(run@, index + 1);
        }
        if limit < digit || value > (limit - digit) / 10 {
            return None;
        }
        value = value * 10 + digit;
        index = index + 1;
    }
    proof {
        assert(run@.take(index as int) =~= run@);
    }
    Some(value)
}

/// Reads a text as an unsigned number of at most `limit`.
pub fn parse_unsigned(text: &[char], limit: u64) -> (value: Option<u64>)
    ensures
        value == match unsigned_literal(text@) {
            Some(number) => if number <= limit {
                Some(number as u64)
            } else {
                None
            },
            None => None,
        },
{
    if text.len() > 0 && text[0] == '+' {
        let run = vstd::slice::slice_subrange(text, 1, text.len());
        assert(run@ =~= text@.skip(1));
        parse_digits(run, limit)
    } else {
        parse_digits(text, limit)
    }
}

/// Reads a text as the number of a variant.
pub fn parse_id(text: &[char]) -> (id: Option<u32>)
    ensures
        id == id_literal(text@),
{
    if text.len() > 0 && text[0] == '-' {
        let run = vstd::slice::slice_subrange(text, 1, text.len());
        assert(run@ =~= text@.skip(1));
        match parse_digits(run, 0) {
            Some(_) => Some(0),
            None => None,
        }
    } else {
        match parse_unsigned(text, 0xffff_ffff) {
            Some(id) => Some(id as u32),
            None => None,
        }
    }
}

/// Splits a composite key `id:name` into its number and its name.
pub fn split_key(key: &[char]) -> (parts: (Option<u32>, Vec<char>))
    ensures
        parts.0 == split(key@).0,
        parts.1@ == split(key@).1,
{
    let mut colon: usize = 0;
    while colon < key.len() && key[colon] != ':'
        invariant
            colon <= key@.len(),
            first_of(key@, 0, ':') == first_of(key@, colon as int, ':'),
        decreases key@.len() - colon,
    {
        colon = colon + 1;
    }
    if colon < key.len() {
        let prefix = vstd::slice::slice_subrange(key, 0, colon);
        assert(prefix@ =~= key@.take(colon as int));
        match parse_unsigned(prefix, 0xffff_ffff) {
            Some(id) => {
                let name = vstd::slice::slice_subrange(key, colon + 1, key.len());
                assert(name@ =~= key@.skip(colon + 1));
                (Some(id as u32), vstd::slice::slice_to_vec(name))
            },
            None => (None, vstd::slice::slice_to_vec(key)),
        }
    } else {
        (None, vstd::slice::slice_to_vec(key))
    }
}

} // verus!
