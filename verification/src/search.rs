//! The search itself: a walk over everything that a package reaches through
//! its dependents.

use crate::closure::{
    closure, has_dependent, holds_its_dependents, is_leaf, leaves_among, lemma_closure_is,
    lemma_reaches_dependent, lemma_reaches_itself, reaches, search, Findings,
};
use crate::graph::DependenciesMap;
use crate::most_used::MostUsedMap;
use vstd::hash_set::StringHashSet;
use vstd::prelude::*;

verus! {

/// The number of packages in the registry when the dependency listing was
/// taken; leaf counts are reported as a share of it.
pub const TOTAL_NPM_PACKAGES: usize = 633947;

/// What a search from one package found.
pub struct SearchResult {
    leaf_count: usize,
    well_known_hits: Vec<String>,
}

impl View for SearchResult {
    type V = Findings;

    closed spec fn view(&self) -> Findings {
        Findings {
            leaf_count: self.leaf_count as nat,
            well_known_hits: self.well_known_hits.deep_view().to_set(),
        }
    }
}

impl SearchResult {
    /// No heavily used package is listed twice.
    #[verifier::type_invariant]
    pub closed spec fn well_formed(&self) -> bool {
        self.well_known_hits.deep_view().no_duplicates()
    }

    /// How many leaves the start package reaches.
    pub fn leaf_count(&self) -> (count: usize)
        ensures
            count == self@.leaf_count,
    {
        self.leaf_count
    }

    /// The heavily used packages that the start package reaches, each once, in
    /// no particular order.
    pub fn well_known_hits(&self) -> (hits: &Vec<String>)
        ensures
            hits.deep_view().to_set() == self@.well_known_hits,
            hits.deep_view().no_duplicates(),
            hits.len() == self@.well_known_hits.len(),
    {
        proof {
            use_type_invariant(self);
            self.well_known_hits.deep_view().unique_seq_to_set();
        }
        &self.well_known_hits
    }
}

impl Clone for SearchResult {
    /// A copy with the same findings.
    fn clone(&self) -> (copy: Self)
        ensures
            copy@ == self@,
    {
        proof {
            use_type_invariant(self);
        }
        let well_known_hits = self.well_known_hits.clone();
        assert(well_known_hits.deep_view() =~= self.well_known_hits.deep_view());
        SearchResult { leaf_count: self.leaf_count, well_known_hits }
    }
}

/// Every dependent of a visited package is visited itself or waits to be.
spec fn frontier_covers(
    graph: Map<Seq<char>, Seq<Seq<char>>>,
    visited: Set<Seq<char>>,
    waiting: Seq<Seq<char>>,
) -> bool {
    forall|package: Seq<char>, dependent: Seq<char>|
        visited.contains(package) && #[trigger] has_dependent(graph, package, dependent)
            ==> visited.contains(dependent) || waiting.contains(dependent)
}

/// The start package reaches every name of `names`.
spec fn all_reached(graph: Map<Seq<char>, Seq<Seq<char>>>, start: Seq<char>, names: Seq<Seq<char>>) -> bool {
    forall|i: int| 0 <= i < names.len() ==> reaches(graph, start, #[trigger] names[i])
}

/// Visiting one more package adds it to the leaves if it is one, and changes
/// nothing else among them.
proof fn lemma_leaves_among_insert(
    graph: Map<Seq<char>, Seq<Seq<char>>>,
    visited: Set<Seq<char>>,
    package: Seq<char>,
)
    requires
        visited.finite(),
        !visited.contains(package),
    ensures
        leaves_among(graph, visited).finite(),
        leaves_among(graph, visited).len() <= visited.len(),
        leaves_among(graph, visited.insert(package)).len() == leaves_among(graph, visited).len() + (
        if is_leaf(graph, package) {
            1nat
        } else {
            0nat
        }),
{
    visited.lemma_len_filter(|name: Seq<char>| is_leaf(graph, name));
    if is_leaf(graph, package) {
        assert(leaves_among(graph, visited.insert(package)) =~= leaves_among(graph, visited).insert(
            package,
        ));
    } else {
        assert(leaves_among(graph, visited.insert(package)) =~= leaves_among(graph, visited));
    }
}

/// Searches from `package`: walks everything that `package` reaches through
/// chains of dependents, counts the leaves among it, and collects the heavily
/// used packages among it. The start package itself is part of what it
/// reaches. Cycles in the graph are walked once.
pub fn count_depended_upon(
    dependencies_map: &DependenciesMap,
    most_used_packages: &MostUsedMap,
    package: &str,
) -> (result: SearchResult)
    ensures
        result@ == search(dependencies_map@, most_used_packages@, package@),
        closure(dependencies_map@, package@).finite(),
{
    let ghost graph = dependencies_map@;
    let ghost most_used = most_used_packages@;
    let ghost start = package@;
    proof {
        use_type_invariant(dependencies_map);
        dependencies_map.lemma_finitely_many_packages();
        lemma_reaches_itself(graph, start);
    }
    let mut hits: Vec<String> = Vec::new();
    let mut hit_names = StringHashSet::new();
    let mut seen = StringHashSet::new();
    let mut leaves: usize = 0;

    // The packages that wait to be visited, the next one last.
    let mut stack: Vec<String> = Vec::new();
    stack.push(package.to_owned());

    assert(stack.deep_view() =~= seq![start]);
    assert(stack.deep_view()[0] == start);
    assert(seen@.intersect(most_used) =~= hit_names@);
    assert(hits.deep_view().to_set() =~= hit_names@);
    assert(leaves_among(graph, seen@) =~= Set::<Seq<char>>::empty());

    while stack.len() > 0
        invariant
            graph == dependencies_map@,
            most_used == most_used_packages@,
            graph.dom().finite(),
            seen@.finite(),
            all_reached(graph, start, stack.deep_view()),
            seen@.subset_of(closure(graph, start)),
            seen@.contains(start) || stack.deep_view().contains(start),
            frontier_covers(graph, seen@, stack.deep_view()),
            hit_names@ == seen@.intersect(most_used),
            hits.deep_view().to_set() == hit_names@,
            hits.deep_view().no_duplicates(),
            leaves == leaves_among(graph, seen@).len(),
        decreases graph.dom().difference(seen@).len(), stack.len(),
    {
        let ghost waiting = stack.deep_view();
        let ghost visited = seen@;
        let current = stack.pop().unwrap();
        let ghost name = current@;
        let ghost rest = stack.deep_view();
        assert(rest =~= waiting.drop_last());
        assert(name == waiting.last());
        assert(reaches(graph, start, name));
        assert forall|other: Seq<char>| waiting.contains(other) implies rest.contains(other)
            || other == name by {
            let i = choose|i: int| 0 <= i < waiting.len() && waiting[i] == other;
            if i < rest.len() {
                assert(rest[i] == other);
            }
        }

        if most_used_packages.contains(current.as_str()) {
            let ghost listed = hits.deep_view();
            if hit_names.insert(current.clone()) {
                hits.push(current.clone());
                proof {
                    assert(hits.deep_view() =~= listed.push(name));
                    listed.lemma_push_to_set_commute(name);
                }
            }
        }
        assert(hit_names@ =~= visited.insert(name).intersect(most_used));

        if !seen.contains(current.as_str()) {
            seen.insert(current.clone());
            proof {
                lemma_leaves_among_insert(graph, visited, name);
                vstd::hash_set::axiom_string_hash_set_spec_len(&seen);
                if graph.contains_key(name) {
                    graph.dom().lemma_set_insert_diff_decreases(visited, name);
                } else {
                    assert(graph.dom().difference(visited.insert(name)) =~= graph.dom().difference(
                        visited,
                    ));
                }
            }
            match dependencies_map.get(current.as_str()) {
                Some(dependents) => {
                    // A package that is listed, but with no dependents
                    if dependents.len() == 0 {
                        leaves += 1;
                    } else {
                        // A package with dependents: each of them waits its turn
                        let mut next: usize = 0;
                        while next < dependents.len()
                            invariant
                                next <= dependents.len(),
                                stack.deep_view() == rest + dependents.deep_view().take(next as int),
                            decreases dependents.len() - next,
                        {
                            let ghost before = stack.deep_view();
                            stack.push(dependents[next].clone());
                            assert(stack.deep_view() =~= before.push(dependents[next as int]@));
                            assert(dependents.deep_view().take(next + 1) =~= dependents.deep_view().take(
                                next as int,
                            ).push(dependents[next as int]@));
                            next += 1;
                        }
                        proof {
                            let added = dependents.deep_view();
                            assert(added.take(next as int) =~= added);
                            assert forall|i: int| 0 <= i < stack.deep_view().len() implies reaches(
                                graph,
                                start,
                                #[trigger] stack.deep_view()[i],
                            ) by {
                                if i >= rest.len() {
                                    assert(added.contains(added[i - rest.len()]));
                                    lemma_reaches_dependent(graph, start, name, stack.deep_view()[i]);
                                } else {
                                    assert(stack.deep_view()[i] == rest[i]);
                                }
                            }
                            assert forall|other: Seq<char>| rest.contains(other) || added.contains(
                                other,
                            ) implies stack.deep_view().contains(other) by {
                                if rest.contains(other) {
                                    let i = choose|i: int| 0 <= i < rest.len() && rest[i] == other;
                                    assert(stack.deep_view()[i] == other);
                                } else {
                                    let i = choose|i: int|
                                        0 <= i < added.len() && added[i] == other;
                                    assert(stack.deep_view()[rest.len() + i] == other);
                                }
                            }
                        }
                    }
                },
                None => {
                    // A package that is not listed: nothing depends on it
                    leaves += 1;
                },
            }
        }
    }

    proof {
        assert(seen@.contains(start));
        assert(holds_its_dependents(graph, seen@));
        lemma_closure_is(graph, start, seen@);
    }
    SearchResult { leaf_count: leaves, well_known_hits: hits }
}

} // verus!
