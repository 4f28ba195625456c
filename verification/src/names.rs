//! Looking a name up in a list of names. Assets and menu routes are both
//! found by name, and in both the first match wins.

use vstd::prelude::*;

verus! {

/// The first position at or after `from` at which `names` holds `name`.
pub open spec fn first_match(names: Seq<Seq<char>>, name: Seq<char>, from: int) -> Option<int>
    decreases names.len() - from,
{
    if from < 0 || from >= names.len() {
        None
    } else if names[from] == name {
        Some(from)
    } else {
        first_match(names, name, from + 1)
    }
}

/// A name that a stretch of the list does not hold is found, if at all,
/// behind that stretch.
pub proof fn lemma_first_match_skip(names: Seq<Seq<char>>, name: Seq<char>, from: int, to: int)
    requires
        0 <= from <= to <= names.len(),
        forall|k: int| from <= k < to ==> #[trigger] names[k] != name,
    ensures
        first_match(names, name, from) == first_match(names, name, to),
    decreases to - from,
{
    if from < to {
        lemma_first_match_skip(names, name, from + 1, to);
    }
}

/// A name that is found is found at a position that holds it, and nowhere
/// earlier; a name that is not found is nowhere in the list.
pub proof fn lemma_first_match_is_first(names: Seq<Seq<char>>, name: Seq<char>, from: int)
    requires
        0 <= from,
    ensures
        match first_match(names, name, from) {
            Some(i) => from <= i < names.len() && names[i] == name && forall|k: int|
                from <= k < i ==> #[trigger] names[k] != name,
            None => forall|k: int| from <= k < names.len() ==> #[trigger] names[k] != name,
        },
    decreases names.len() - from,
{
    if from < names.len() && names[from] != name {
        lemma_first_match_is_first(names, name, from + 1);
    }
}

} // verus!
