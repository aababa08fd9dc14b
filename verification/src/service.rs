//! The query service: searches from a package on the first query for it, and
//! answers every later query for it from the stored result.

use crate::cache::ResultCache;
use crate::closure::{search, Findings};
use crate::graph::DependenciesMap;
use crate::most_used::MostUsedMap;
use crate::search::{count_depended_upon, SearchResult};
use vstd::prelude::*;

verus! {

/// What a query service is made of: the graph and the heavily used packages,
/// which never change, and the packages that were searched from so far.
pub struct ServiceState {
    pub graph: Map<Seq<char>, Seq<Seq<char>>>,
    pub most_used: Set<Seq<char>>,
    pub searched: Set<Seq<char>>,
}

/// A query for `package`: the state after it, and its answer. The answer is the
/// findings of a search from `package`, whatever was searched before; the
/// package then counts as searched.
pub open spec fn lookup(state: ServiceState, package: Seq<char>) -> (ServiceState, Findings) {
    (
        ServiceState {
            graph: state.graph,
            most_used: state.most_used,
            searched: state.searched.insert(package),
        },
        search(state.graph, state.most_used, package),
    )
}

/// The number of searches that were run to reach `state`: one for each
/// package that was searched from.
pub open spec fn searches_run(state: ServiceState) -> nat {
    state.searched.len()
}

/// The state after `times` queries for `package`, one after the other.
pub open spec fn after_lookups(state: ServiceState, package: Seq<char>, times: nat) -> ServiceState
    decreases times,
{
    if times == 0 {
        state
    } else {
        lookup(after_lookups(state, package, (times - 1) as nat), package).0
    }
}

/// A query for a package that was searched from before changes nothing and
/// runs no search.
pub proof fn lemma_lookup_of_searched_package(state: ServiceState, package: Seq<char>)
    requires
        state.searched.contains(package),
    ensures
        lookup(state, package).0 == state,
        searches_run(lookup(state, package).0) == searches_run(state),
{
    assert(state.searched.insert(package) =~= state.searched);
}

/// Two queries for one package, one after the other, have the same answer, and
/// the second one runs no search and leaves the state as the first one left it.
pub proof fn lemma_lookup_twice(state: ServiceState, package: Seq<char>)
    ensures
        ({
            let (once, first) = lookup(state, package);
            let (twice, second) = lookup(once, package);
            &&& second == first
            &&& twice == once
            &&& searches_run(twice) == searches_run(once)
        }),
{
    lemma_lookup_of_searched_package(lookup(state, package).0, package);
}

/// Any number of queries for one package, one after the other, run one search
/// if the package was not searched from before and none if it was, and each of
/// them has the same answer.
pub proof fn lemma_repeated_lookups(state: ServiceState, package: Seq<char>, times: nat)
    requires
        state.searched.finite(),
        times >= 1,
    ensures
        after_lookups(state, package, times) == lookup(state, package).0,
        searches_run(after_lookups(state, package, times)) == searches_run(state) + (
        if state.searched.contains(package) {
            0nat
        } else {
            1nat
        }),
        lookup(after_lookups(state, package, (times - 1) as nat), package).1 == lookup(
            state,
            package,
        ).1,
    decreases times,
{
    if times > 1 {
        lemma_repeated_lookups(state, package, (times - 1) as nat);
        lemma_lookup_of_searched_package(lookup(state, package).0, package);
    } else {
        assert(after_lookups(state, package, 0) == state);
    }
    if state.searched.contains(package) {
        assert(state.searched.insert(package) =~= state.searched);
    }
}

/// Answers queries over one graph and one set of heavily used packages, and
/// keeps each answer so that the search behind it runs once.
pub struct QueryService {
    dependencies_map: DependenciesMap,
    most_used_packages: MostUsedMap,
    searches_cache: ResultCache,
}

impl View for QueryService {
    type V = ServiceState;

    closed spec fn view(&self) -> ServiceState {
        ServiceState {
            graph: self.dependencies_map@,
            most_used: self.most_used_packages@,
            searched: self.searches_cache@.dom(),
        }
    }
}

impl QueryService {
    /// Each stored result is what a search from its package finds.
    #[verifier::type_invariant]
    pub closed spec fn well_formed(&self) -> bool {
        forall|package: Seq<char>| #[trigger]
            self.searches_cache@.contains_key(package) ==> self.searches_cache@[package] == search(
                self.dependencies_map@,
                self.most_used_packages@,
                package,
            )
    }

    /// A service over `dependencies_map` and `most_used_packages` that has
    /// searched from no package yet.
    pub fn new(dependencies_map: DependenciesMap, most_used_packages: MostUsedMap) -> (result: Self)
        ensures
            result@ == (ServiceState {
                graph: dependencies_map@,
                most_used: most_used_packages@,
                searched: Set::<Seq<char>>::empty(),
            }),
    {
        let result = QueryService {
            dependencies_map,
            most_used_packages,
            searches_cache: ResultCache::new(),
        };
        assert(result@.searched =~= Set::<Seq<char>>::empty());
        result
    }

    /// The number of searches that this service has run.
    pub fn searches_run(&self) -> (count: usize)
        ensures
            count == searches_run(self@),
    {
        self.searches_cache.len()
    }

    /// Answers a query for `package`. The first query for a package runs the
    /// search and stores its result; every later one returns a copy of the
    /// stored result and runs no search.
    pub fn lookup(&mut self, package: &str) -> (result: SearchResult)
        ensures
            (final(self)@, result@) == lookup(old(self)@, package@),
            final(self)@.searched.finite(),
    {
        proof {
            use_type_invariant(&*self);
        }
        let mut searches_cache = ResultCache::new();
        core::mem::swap(&mut self.searches_cache, &mut searches_cache);
        let dependencies_map = &self.dependencies_map;
        let most_used_packages = &self.most_used_packages;
        let search_from_package = || -> (found: SearchResult)
            ensures
                found@ == search(dependencies_map@, most_used_packages@, package@),
            { count_depended_upon(dependencies_map, most_used_packages, package) };
        let result = searches_cache.get_or_compute(package, search_from_package);
        proof {
            use_type_invariant(&searches_cache);
            searches_cache.lemma_finitely_many_results();
        }
        core::mem::swap(&mut self.searches_cache, &mut searches_cache);
        assert(self@.searched =~= old(self)@.searched.insert(package@));
        result
    }
}

} // verus!
