//! The set of heavily used package names.

use vstd::hash_set::StringHashSet;
use vstd::prelude::*;

verus! {

/// The names of the packages that are considered heavily used.
pub struct MostUsedMap {
    names: StringHashSet,
}

impl View for MostUsedMap {
    type V = Set<Seq<char>>;

    closed spec fn view(&self) -> Set<Seq<char>> {
        self.names@
    }
}

impl MostUsedMap {
    /// A set with no names in it.
    pub fn new() -> (result: Self)
        ensures
            result@ == Set::<Seq<char>>::empty(),
    {
        MostUsedMap { names: StringHashSet::new() }
    }

    /// Adds `name` to the set; adding a name twice leaves one copy.
    pub fn insert(&mut self, name: String)
        ensures
            final(self)@ == old(self)@.insert(name@),
    {
        self.names.insert(name);
    }

    /// Whether `name` is one of the heavily used packages.
    pub fn contains(&self, name: &str) -> (result: bool)
        ensures
            result == self@.contains(name@),
    {
        self.names.contains(name)
    }
}

/// Builds the set of the names in `lines`, one name per line. The order of the
/// lines does not matter, and a name that occurs on several lines is in the set
/// once.
pub fn create_most_used_map(lines: &Vec<String>) -> (result: MostUsedMap)
    ensures
        result@ == lines.deep_view().to_set(),
{
    let mut most_used = MostUsedMap::new();
    let mut done: usize = 0;
    assert(lines.deep_view().take(0).to_set() =~= Set::<Seq<char>>::empty());
    while done < lines.len()
        invariant
            done <= lines.len(),
            most_used@ == lines.deep_view().take(done as int).to_set(),
        decreases lines.len() - done,
    {
        proof {
            let names = lines.deep_view();
            assert(names.take(done + 1) =~= names.take(done as int).push(lines[done as int]@));
            names.take(done as int).lemma_push_to_set_commute(lines[done as int]@);
        }
        most_used.insert(lines[done].clone());
        done += 1;
    }
    assert(lines.deep_view().take(done as int) =~= lines.deep_view());
    most_used
}

} // verus!
