//! The host's asset lookup: named resources, such as fonts, and the ids
//! under which they were loaded.

use vstd::prelude::*;
use crate::names::first_match;
use crate::names::lemma_first_match_is_first;
use crate::names::lemma_first_match_skip;
use crate::ui::AssetId;

verus! {

/// The id under which `name` was loaded, if it was.
pub open spec fn resolve_spec(names: Seq<Seq<char>>, name: Seq<char>) -> Option<AssetId> {
    match first_match(names, name, 0) {
        Some(i) => Some(i as usize),
        None => None,
    }
}

/// The table of loaded assets. An asset's id is its position in the table.
pub struct AssetLookup {
    names: Vec<String>,
}

impl View for AssetLookup {
    type V = Seq<Seq<char>>;

    closed spec fn view(&self) -> Seq<Seq<char>> {
        Seq::new(self.names@.len(), |i: int| self.names@[i]@)
    }
}

impl AssetLookup {
    /// A table without assets.
    pub fn new() -> (assets: AssetLookup)
        ensures
            assets@ == Seq::<Seq<char>>::empty(),
    {
        AssetLookup { names: Vec::new() }
    }

    /// Number of loaded assets.
    pub fn len(&self) -> (n: usize)
        ensures
            n == self@.len(),
    {
        self.names.len()
    }

    /// The id under which `name` was loaded; `None` if it was not.
    pub fn resolve(&self, name: &str) -> (id: Option<AssetId>)
        ensures
            id == resolve_spec(self@, name@),
    {
        let key = name.to_owned();
        let n = self.names.len();
        let mut j: usize = 0;
        while j < n
            invariant
                j <= n,
                n == self.names.len(),
                n == self@.len(),
                key@ == name@,
                forall|k: int| 0 <= k < j ==> #[trigger] self@[k] != name@,
            decreases n - j,
        {
            if self.names[j] == key {
                proof {
                    lemma_first_match_skip(self@, name@, 0, j as int);
                }
                return Some(j);
            }
            j = j + 1;
        }
        proof {
            lemma_first_match_skip(self@, name@, 0, n as int);
        }
        None
    }

    /// Loads `name` and returns its id. An asset that is already loaded
    /// keeps its id, and the table stays as it is.
    pub fn load(&mut self, name: &str) -> (id: AssetId)
        ensures
            match resolve_spec(old(self)@, name@) {
                Some(i) => id == i && final(self)@ == old(self)@,
                None => id == old(self)@.len() && final(self)@ == old(self)@.push(name@),
            },
            resolve_spec(final(self)@, name@) == Some(id),
    {
        match self.resolve(name) {
            Some(i) => i,
            None => {
                let id = self.names.len();
                self.names.push(name.to_owned());
                proof {
                    assert(self@ =~= old(self)@.push(name@));
                    lemma_first_match_is_first(old(self)@, name@, 0);
                    lemma_first_match_skip(self@, name@, 0, id as int);
                }
                id
            },
        }
    }
}

} // verus!
