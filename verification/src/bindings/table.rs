use crate::text::chars::chars_of;
use vstd::prelude::*;

verus! {

/// One line of a binding's table: the number and the name of a record's
/// member or of a variant.
#[derive(Debug, Clone, Copy, PartialEq, Eq)]
pub struct Entry {
    pub id: u32,
    pub name: &'static str,
}

/// The position of the first entry at or behind `from` that has the number.
pub open spec fn id_at(table: Seq<Entry>, id: int, from: int) -> Option<int>
    decreases table.len() - from,
{
    if from < 0 || from >= table.len() {
        None
    } else if table[from].id == id {
        Some(from)
    } else {
        id_at(table, id, from + 1)
    }
}

/// The position of the first entry at or behind `from` that has the name.
pub open spec fn name_at(table: Seq<Entry>, name: Seq<char>, from: int) -> Option<int>
    decreases table.len() - from,
{
    if from < 0 || from >= table.len() {
        None
    } else if table[from].name@ == name {
        Some(from)
    } else {
        name_at(table, name, from + 1)
    }
}

/// The position of the entry that a key names: the first with the key's
/// number, or else the first with the key's name.
pub open spec fn resolved(table: Seq<Entry>, id: Option<u32>, name: Option<Seq<char>>) -> Option<
    int,
> {
    let by_id = match id {
        Some(id) => id_at(table, id as int, 0),
        None => None,
    };
    match by_id {
        Some(index) => Some(index),
        None => match name {
            Some(name) => name_at(table, name, 0),
            None => None,
        },
    }
}

/// A position that a lookup gives lies within the table, and holds what
/// was looked for.
pub proof fn lemma_id_at(table: Seq<Entry>, id: int, from: int)
    requires
        0 <= from,
    ensures
        id_at(table, id, from) matches Some(index) ==> from <= index < table.len()
            && table[index].id == id,
        id_at(table, id, from) is None ==> forall|i: int|
            from <= i < table.len() ==> (#[trigger] table[i]).id != id,
    decreases table.len() - from,
{
    if from < table.len() && table[from].id != id {
        lemma_id_at(table, id, from + 1);
    }
}

/// A position that a lookup gives lies within the table, and holds what
/// was looked for.
pub proof fn lemma_name_at(table: Seq<Entry>, name: Seq<char>, from: int)
    requires
        0 <= from,
    ensures
        name_at(table, name, from) matches Some(index) ==> from <= index < table.len()
            && table[index].name@ == name,
        name_at(table, name, from) is None ==> forall|i: int|
            from <= i < table.len() ==> (#[trigger] table[i]).name@ != name,
    decreases table.len() - from,
{
    if from < table.len() && table[from].name@ != name {
        lemma_name_at(table, name, from + 1);
    }
}

/// A position that a key resolves to lies within the table.
pub proof fn lemma_resolved(table: Seq<Entry>, id: Option<u32>, name: Option<Seq<char>>)
    ensures
        resolved(table, id, name) matches Some(index) ==> 0 <= index < table.len(),
{
    if let Some(id) = id {
        lemma_id_at(table, id as int, 0);
    }
    if let Some(name) = name {
        lemma_name_at(table, name, 0);
    }
}

/// Whether two texts hold the same characters.
pub fn same_text(left: &[char], right: &[char]) -> (same: bool)
    ensures
        same == (left@ == right@),
{
    if left.len() != right.len() {
        return false;
    }
    let mut index: usize = 0;
    while index < left.len()
        invariant
            index <= left@.len() == right@.len(),
            forall|i: int| 0 <= i < index ==> left@[i] == right@[i],
        decreases left@.len() - index,
    {
        if left[index] != right[index] {
            return false;
        }
        index = index + 1;
    }
    assert(left@ =~= right@);
    true
}

/// Looks for the first entry with the number.
pub fn find_id(table: &[Entry], id: u64) -> (found: Option<usize>)
    ensures
        match id_at(table@, id as int, 0) {
            Some(index) => found == Some(index as usize),
            None => found is None,
        },
{
    let mut index: usize = 0;
    while index < table.len()
        invariant
            index <= table@.len(),
            id_at(table@, id as int, 0) == id_at(table@, id as int, index as int),
        decreases table@.len() - index,
    {
        if table[index].id as u64 == id {
            return Some(index);
        }
        index = index + 1;
    }
    None
}

/// Looks for the first entry with the name.
pub fn find_name(table: &[Entry], name: &[char]) -> (found: Option<usize>)
    ensures
        match name_at(table@, name@, 0) {
            Some(index) => found == Some(index as usize),
            None => found is None,
        },
{
    let mut index: usize = 0;
    while index < table.len()
        invariant
            index <= table@.len(),
            name_at(table@, name@, 0) == name_at(table@, name@, index as int),
        decreases table@.len() - index,
    {
        let own = chars_of(table[index].name);
        if same_text(own.as_slice(), name) {
            return Some(index);
        }
        index = index + 1;
    }
    None
}

/// Looks for the entry that a key names: by the key's number first, by its
/// name where no entry has the number.
pub fn resolve(table: &[Entry], id: Option<u32>, name: Option<&[char]>) -> (found: Option<usize>)
    ensures
        match resolved(
            table@,
            id,
            match name {
                Some(name) => Some(name@),
                None => None,
            },
        ) {
            Some(index) => found == Some(index as usize),
            None => found is None,
        },
{
    if let Some(id) = id {
        if let Some(index) = find_id(table, id as u64) {
            return Some(index);
        }
    }
    if let Some(name) = name {
        return find_name(table, name);
    }
    None
}

} // verus!
