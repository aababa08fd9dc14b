//! The results of the searches that were made, kept by start package so that
//! no search is made twice.

use crate::closure::Findings;
use crate::search::SearchResult;
use vstd::hash_map::StringHashMap;
use vstd::prelude::*;

verus! {

/// The results of earlier searches, by start package. A result that is stored
/// stays as it is: it is never replaced and never removed.
pub struct ResultCache {
    results: StringHashMap<SearchResult>,
}

impl View for ResultCache {
    type V = Map<Seq<char>, Findings>;

    closed spec fn view(&self) -> Map<Seq<char>, Findings> {
        Map::new(
            |package: Seq<char>| self.results@.contains_key(package),
            |package: Seq<char>| self.results@[package]@,
        )
    }
}

impl ResultCache {
    /// Finitely many results are stored.
    #[verifier::type_invariant]
    pub closed spec fn well_formed(&self) -> bool {
        self.results@.dom().finite()
    }

    /// A well-formed cache holds finitely many results.
    pub proof fn lemma_finitely_many_results(&self)
        requires
            self.well_formed(),
        ensures
            self@.dom().finite(),
    {
        assert(self@.dom() =~= self.results@.dom());
    }

    /// A cache that holds no result.
    pub fn new() -> (result: Self)
        ensures
            result@ == Map::<Seq<char>, Findings>::empty(),
    {
        let result = ResultCache { results: StringHashMap::new() };
        assert(result@ =~= Map::<Seq<char>, Findings>::empty());
        result
    }

    /// The number of results held, which is the number of computations that
    /// `get_or_compute` has made for this cache.
    pub fn len(&self) -> (count: usize)
        ensures
            count == self@.dom().len(),
    {
        assert(self@.dom() =~= self.results@.dom());
        self.results.len()
    }

    /// A copy of the result stored for `key`, or `None` where none is stored.
    pub fn get(&self, key: &str) -> (result: Option<SearchResult>)
        ensures
            match result {
                Some(found) => self@.contains_key(key@) && found@ == self@[key@],
                None => !self@.contains_key(key@),
            },
    {
        match self.results.get(key) {
            Some(found) => Some(found.clone()),
            None => None,
        }
    }

    /// The result stored for `key`; where none is stored, the result of
    /// `compute`, which is then stored for `key`. So `compute` runs only where
    /// no result is stored for `key`, and then once.
    pub fn get_or_compute<F: FnOnce() -> SearchResult>(&mut self, key: &str, compute: F) -> (result:
        SearchResult)
        requires
            compute.requires(()),
        ensures
            old(self)@.contains_key(key@) ==> final(self)@ == old(self)@ && result@ == old(self)@[key@],
            !old(self)@.contains_key(key@) ==> final(self)@ == old(self)@.insert(key@, result@)
                && compute.ensures((), result),
    {
        proof {
            use_type_invariant(&*self);
        }
        match self.get(key) {
            Some(found) => found,
            None => {
                let found = compute();
                let mut results: StringHashMap<SearchResult> = StringHashMap::new();
                core::mem::swap(&mut self.results, &mut results);
                results.insert(key.to_owned(), found.clone());
                core::mem::swap(&mut self.results, &mut results);
                assert(self@ =~= old(self)@.insert(key@, found@));
                found
            },
        }
    }
}

} // verus!
