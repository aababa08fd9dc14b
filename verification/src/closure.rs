//! The mathematical model of a search: which packages a start package reaches
//! through chains of dependents, which of them are leaves, and which are
//! heavily used.
//!
//! A graph is a map from a package name to the names of its dependents, in the
//! order in which they were recorded. A name need not be a key of the map, and
//! the map may hold cycles.

use vstd::prelude::*;

verus! {

/// `dependent` is recorded as a dependent of `package`.
pub open spec fn has_dependent(
    graph: Map<Seq<char>, Seq<Seq<char>>>,
    package: Seq<char>,
    dependent: Seq<char>,
) -> bool {
    graph.contains_key(package) && graph[package].contains(dependent)
}

/// The name at position `i + 1` of `chain` is a dependent of the name at `i`.
pub open spec fn links(graph: Map<Seq<char>, Seq<Seq<char>>>, chain: Seq<Seq<char>>, i: int) -> bool {
    has_dependent(graph, chain[i], chain[i + 1])
}

/// A non-empty sequence of names in which each name but the first is a
/// dependent of the one before it.
pub open spec fn is_chain(graph: Map<Seq<char>, Seq<Seq<char>>>, chain: Seq<Seq<char>>) -> bool {
    &&& chain.len() > 0
    &&& forall|i: int| 0 <= i < chain.len() - 1 ==> #[trigger] links(graph, chain, i)
}

/// `chain` leads from `start` to `target`.
pub open spec fn connects(
    graph: Map<Seq<char>, Seq<Seq<char>>>,
    chain: Seq<Seq<char>>,
    start: Seq<char>,
    target: Seq<char>,
) -> bool {
    is_chain(graph, chain) && chain.first() == start && chain.last() == target
}

/// Some chain of dependents leads from `start` to `target`. Every package
/// reaches itself.
pub open spec fn reaches(
    graph: Map<Seq<char>, Seq<Seq<char>>>,
    start: Seq<char>,
    target: Seq<char>,
) -> bool {
    exists|chain: Seq<Seq<char>>| #[trigger] connects(graph, chain, start, target)
}

/// Every package that `start` reaches, `start` included.
pub open spec fn closure(graph: Map<Seq<char>, Seq<Seq<char>>>, start: Seq<char>) -> Set<Seq<char>> {
    Set::new(|package: Seq<char>| reaches(graph, start, package))
}

/// A package with no recorded dependents: either the graph does not know it,
/// or it knows it with an empty list.
pub open spec fn is_leaf(graph: Map<Seq<char>, Seq<Seq<char>>>, package: Seq<char>) -> bool {
    !graph.contains_key(package) || graph[package].len() == 0
}

/// The leaves among `packages`.
pub open spec fn leaves_among(
    graph: Map<Seq<char>, Seq<Seq<char>>>,
    packages: Set<Seq<char>>,
) -> Set<Seq<char>> {
    packages.filter(|package: Seq<char>| is_leaf(graph, package))
}

/// The leaves that `start` reaches.
pub open spec fn leaves(graph: Map<Seq<char>, Seq<Seq<char>>>, start: Seq<char>) -> Set<Seq<char>> {
    leaves_among(graph, closure(graph, start))
}

/// What a search finds: how many leaves the start package reaches, and which
/// heavily used packages it reaches.
pub struct Findings {
    pub leaf_count: nat,
    pub well_known_hits: Set<Seq<char>>,
}

/// The findings of a search from `start`.
pub open spec fn search(
    graph: Map<Seq<char>, Seq<Seq<char>>>,
    most_used: Set<Seq<char>>,
    start: Seq<char>,
) -> Findings {
    Findings {
        leaf_count: leaves(graph, start).len(),
        well_known_hits: closure(graph, start).intersect(most_used),
    }
}

/// `packages` holds every dependent of each of its members.
pub open spec fn holds_its_dependents(
    graph: Map<Seq<char>, Seq<Seq<char>>>,
    packages: Set<Seq<char>>,
) -> bool {
    forall|package: Seq<char>, dependent: Seq<char>|
        packages.contains(package) && #[trigger] has_dependent(graph, package, dependent)
            ==> packages.contains(dependent)
}

/// Every name that occurs as a dependent of some package of the graph.
pub open spec fn recorded_dependents(graph: Map<Seq<char>, Seq<Seq<char>>>) -> Set<Seq<char>> {
    Set::new(
        |dependent: Seq<char>|
            exists|package: Seq<char>| #[trigger] has_dependent(graph, package, dependent),
    )
}

/// Every package reaches itself.
pub proof fn lemma_reaches_itself(graph: Map<Seq<char>, Seq<Seq<char>>>, start: Seq<char>)
    ensures
        reaches(graph, start, start),
        closure(graph, start).contains(start),
{
    assert(connects(graph, seq![start], start, start));
}

/// A dependent of a reached package is reached too.
pub proof fn lemma_reaches_dependent(
    graph: Map<Seq<char>, Seq<Seq<char>>>,
    start: Seq<char>,
    package: Seq<char>,
    dependent: Seq<char>,
)
    requires
        reaches(graph, start, package),
        has_dependent(graph, package, dependent),
    ensures
        reaches(graph, start, dependent),
{
    let chain = choose|chain: Seq<Seq<char>>| connects(graph, chain, start, package);
    let longer = chain.push(dependent);
    assert forall|i: int| 0 <= i < longer.len() - 1 implies #[trigger] links(graph, longer, i) by {
        if i < chain.len() - 1 {
            assert(links(graph, chain, i));
        }
    }
    assert(connects(graph, longer, start, dependent));
}

/// A chain that starts inside a set that holds its dependents ends inside it.
proof fn lemma_chain_stays_inside(
    graph: Map<Seq<char>, Seq<Seq<char>>>,
    packages: Set<Seq<char>>,
    chain: Seq<Seq<char>>,
)
    requires
        is_chain(graph, chain),
        packages.contains(chain.first()),
        holds_its_dependents(graph, packages),
    ensures
        packages.contains(chain.last()),
    decreases chain.len(),
{
    if chain.len() > 1 {
        let shorter = chain.drop_last();
        assert forall|i: int| 0 <= i < shorter.len() - 1 implies #[trigger] links(
            graph,
            shorter,
            i,
        ) by {
            assert(links(graph, chain, i));
        }
        lemma_chain_stays_inside(graph, packages, shorter);
        assert(links(graph, chain, chain.len() - 2));
    }
}

/// The closure is the least set that holds `start` and its own dependents.
pub proof fn lemma_closure_is_least(
    graph: Map<Seq<char>, Seq<Seq<char>>>,
    start: Seq<char>,
    packages: Set<Seq<char>>,
)
    requires
        packages.contains(start),
        holds_its_dependents(graph, packages),
    ensures
        closure(graph, start).subset_of(packages),
{
    assert forall|package: Seq<char>| closure(graph, start).contains(package) implies packages.contains(
        package,
    ) by {
        let chain = choose|chain: Seq<Seq<char>>| connects(graph, chain, start, package);
        lemma_chain_stays_inside(graph, packages, chain);
    }
}

/// A set of reached packages that holds `start` and its own dependents is the
/// closure.
pub proof fn lemma_closure_is(
    graph: Map<Seq<char>, Seq<Seq<char>>>,
    start: Seq<char>,
    packages: Set<Seq<char>>,
)
    requires
        packages.contains(start),
        holds_its_dependents(graph, packages),
        packages.subset_of(closure(graph, start)),
    ensures
        closure(graph, start) == packages,
{
    lemma_closure_is_least(graph, start, packages);
    assert(closure(graph, start) =~= packages);
}

/// A search that starts at a leaf reaches that leaf and nothing else: it counts
/// one leaf, and its only possible hit is the start package itself.
pub proof fn lemma_search_from_leaf(
    graph: Map<Seq<char>, Seq<Seq<char>>>,
    most_used: Set<Seq<char>>,
    start: Seq<char>,
)
    requires
        is_leaf(graph, start),
    ensures
        closure(graph, start) == set![start],
        search(graph, most_used, start).leaf_count == 1,
        search(graph, most_used, start).well_known_hits == if most_used.contains(start) {
            set![start]
        } else {
            Set::<Seq<char>>::empty()
        },
{
    let only = set![start];
    assert(holds_its_dependents(graph, only)) by {
        assert forall|package: Seq<char>, dependent: Seq<char>|
            only.contains(package) && #[trigger] has_dependent(
                graph,
                package,
                dependent,
            ) implies only.contains(dependent) by {
            assert(package == start);
            assert(graph[start].len() > 0);
        }
    }
    lemma_reaches_itself(graph, start);
    lemma_closure_is(graph, start, only);
    assert(leaves(graph, start) =~= only);
    assert(closure(graph, start).intersect(most_used) =~= if most_used.contains(start) {
        set![start]
    } else {
        Set::<Seq<char>>::empty()
    });
}

/// A package that the graph does not know counts as one leaf.
pub proof fn lemma_unknown_package_counts_once(
    graph: Map<Seq<char>, Seq<Seq<char>>>,
    most_used: Set<Seq<char>>,
    package: Seq<char>,
)
    requires
        !graph.contains_key(package),
    ensures
        search(graph, most_used, package).leaf_count == 1,
{
    lemma_search_from_leaf(graph, most_used, package);
}

/// A package that the graph knows with an empty list of dependents counts as
/// one leaf.
pub proof fn lemma_package_without_dependents_counts_once(
    graph: Map<Seq<char>, Seq<Seq<char>>>,
    most_used: Set<Seq<char>>,
    package: Seq<char>,
)
    requires
        graph.contains_key(package),
        graph[package].len() == 0,
    ensures
        search(graph, most_used, package).leaf_count == 1,
{
    lemma_search_from_leaf(graph, most_used, package);
}

/// In a graph that knows no package, a search from any package counts that
/// package as its one leaf, and hits it alone, if it is heavily used.
pub proof fn lemma_search_in_empty_graph(most_used: Set<Seq<char>>, package: Seq<char>)
    ensures
        search(Map::empty(), most_used, package).leaf_count == 1,
        search(Map::empty(), most_used, package).well_known_hits == if most_used.contains(package) {
            set![package]
        } else {
            Set::<Seq<char>>::empty()
        },
{
    lemma_search_from_leaf(Map::empty(), most_used, package);
}

/// In a graph with finitely many keys, finitely many names occur as dependents.
proof fn lemma_recorded_dependents_finite(graph: Map<Seq<char>, Seq<Seq<char>>>)
    requires
        graph.dom().finite(),
    ensures
        recorded_dependents(graph).finite(),
    decreases graph.dom().len(),
{
    if graph.dom().len() == 0 {
        assert(graph.dom() =~= Set::<Seq<char>>::empty());
        assert(recorded_dependents(graph) =~= Set::<Seq<char>>::empty());
    } else {
        let key = graph.dom().choose();
        let rest = graph.remove(key);
        lemma_recorded_dependents_finite(rest);
        vstd::seq_lib::seq_to_set_is_finite(graph[key]);
        let joined = recorded_dependents(rest).union(graph[key].to_set());
        assert forall|dependent: Seq<char>| recorded_dependents(graph).contains(
            dependent,
        ) implies joined.contains(dependent) by {
            let package = choose|package: Seq<char>| has_dependent(graph, package, dependent);
            if package != key {
                assert(has_dependent(rest, package, dependent));
            }
        }
        vstd::set_lib::lemma_set_subset_finite(joined, recorded_dependents(graph));
    }
}

/// In a graph with finitely many keys every closure is finite, whether or not
/// the graph holds cycles, and so is its number of leaves.
pub proof fn lemma_closure_finite(graph: Map<Seq<char>, Seq<Seq<char>>>, start: Seq<char>)
    requires
        graph.dom().finite(),
    ensures
        closure(graph, start).finite(),
        leaves(graph, start).finite(),
        leaves(graph, start).len() <= closure(graph, start).len(),
{
    lemma_recorded_dependents_finite(graph);
    let bound = recorded_dependents(graph).insert(start);
    assert forall|package: Seq<char>| closure(graph, start).contains(package) implies bound.contains(
        package,
    ) by {
        let chain = choose|chain: Seq<Seq<char>>| connects(graph, chain, start, package);
        if chain.len() > 1 {
            assert(links(graph, chain, chain.len() - 2));
        }
    }
    vstd::set_lib::lemma_set_subset_finite(bound, closure(graph, start));
    closure(graph, start).lemma_len_filter(|package: Seq<char>| is_leaf(graph, package));
}

} // verus!
