use vstd::prelude::*;

verus! {

/// The identifiers of a record's members, or of an enum's variants, are
/// unique when no two positions hold the same number.
pub open spec fn unique_ids(ids: Seq<u32>) -> bool {
    forall|i: int, j: int| 0 <= i < j < ids.len() ==> ids[i] != ids[j]
}

/// Tells whether every identifier of a binding occurs once.
pub fn check_unique_ids(ids: &[u32]) -> (unique: bool)
    ensures
        unique == unique_ids(ids@),
{
    let mut i: usize = 0;
    while i < ids.len()
        invariant
            i <= ids.len(),
            forall|a: int, b: int| 0 <= a < i && a < b < ids.len() ==> ids[a] != ids[b],
        decreases ids.len() - i,
    {
        let mut j: usize = i + 1;
        while j < ids.len()
            invariant
                i < j <= ids.len(),
                forall|b: int| i < b < j ==> ids[i as int] != ids[b],
            decreases ids.len() - j,
        {
            if ids[i] == ids[j] {
                return false;
            }
            j += 1;
        }
        i += 1;
    }
    true
}

} // verus!
