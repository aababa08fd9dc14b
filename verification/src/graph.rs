//! The dependency graph: for each package, the packages that depend on it.

use vstd::hash_map::StringHashMap;
use vstd::prelude::*;

verus! {

/// The dependents that `graph` records for `package`; none for a package that
/// it does not know.
pub open spec fn dependents_in(graph: Map<Seq<char>, Seq<Seq<char>>>, package: Seq<char>) -> Seq<
    Seq<char>,
> {
    if graph.contains_key(package) {
        graph[package]
    } else {
        Seq::empty()
    }
}

/// `graph` after `dependent` has been recorded as one more dependent of
/// `package`, behind those already recorded.
pub open spec fn with_dependent(
    graph: Map<Seq<char>, Seq<Seq<char>>>,
    package: Seq<char>,
    dependent: Seq<char>,
) -> Map<Seq<char>, Seq<Seq<char>>> {
    graph.insert(package, dependents_in(graph, package).push(dependent))
}

/// One entry of the dependency listing, as names: `dependent` depends on
/// `package`.
pub struct Dependency {
    pub dependent: Seq<char>,
    pub package: Seq<char>,
}

/// One entry of the dependency listing: `dependent` depends on `package`.
pub struct DependencyRecord {
    pub dependent: String,
    pub package: String,
}

impl View for DependencyRecord {
    type V = Dependency;

    open spec fn view(&self) -> Dependency {
        Dependency { dependent: self.dependent@, package: self.package@ }
    }
}

impl DeepView for DependencyRecord {
    type V = Dependency;

    open spec fn deep_view(&self) -> Dependency {
        self@
    }
}

/// Some entry of `listing` names `package` as the package depended upon.
pub open spec fn is_depended_upon(listing: Seq<Dependency>, package: Seq<char>) -> bool {
    exists|i: int| 0 <= i < listing.len() && (#[trigger] listing[i]).package == package
}

/// The dependents that `listing` names for `package`, in the order of the
/// listing, each as often as the listing names it.
pub open spec fn dependents_of(listing: Seq<Dependency>, package: Seq<char>) -> Seq<Seq<char>> {
    listing.filter(|entry: Dependency| entry.package == package).map_values(
        |entry: Dependency| entry.dependent,
    )
}

/// The graph that a listing describes: its keys are the packages that some
/// entry depends upon, each with its dependents in the order of the listing.
pub open spec fn graph_of(listing: Seq<Dependency>) -> Map<Seq<char>, Seq<Seq<char>>> {
    Map::new(
        |package: Seq<char>| is_depended_upon(listing, package),
        |package: Seq<char>| dependents_of(listing, package),
    )
}

/// A listing names no dependents for a package that none of its entries
/// depends upon.
proof fn lemma_no_dependents_of_other_packages(listing: Seq<Dependency>, package: Seq<char>)
    requires
        !is_depended_upon(listing, package),
    ensures
        dependents_of(listing, package) == Seq::<Seq<char>>::empty(),
{
    let wanted = |entry: Dependency| entry.package == package;
    assert(listing.all(|entry: Dependency| !wanted(entry))) by {
        assert forall|i: int| 0 <= i < listing.len() implies !wanted(#[trigger] listing[i]) by {
            assert(listing[i].package != package);
        }
    }
    listing.lemma_all_neg_filter_empty(wanted);
    assert(dependents_of(listing, package) =~= Seq::<Seq<char>>::empty());
}

/// One more entry at the end of a listing records one more dependent in its
/// graph.
pub proof fn lemma_graph_of_push(listing: Seq<Dependency>, entry: Dependency)
    ensures
        graph_of(listing.push(entry)) == with_dependent(
            graph_of(listing),
            entry.package,
            entry.dependent,
        ),
{
    let longer = listing.push(entry);
    let left = graph_of(longer);
    let right = with_dependent(graph_of(listing), entry.package, entry.dependent);
    assert forall|package: Seq<char>| left.contains_key(package) <==> right.contains_key(
        package,
    ) by {
        if is_depended_upon(longer, package) && package != entry.package {
            let i = choose|i: int| 0 <= i < longer.len() && (#[trigger] longer[i]).package == package;
            assert(listing[i].package == package);
        }
        if is_depended_upon(listing, package) {
            let i = choose|i: int|
                0 <= i < listing.len() && (#[trigger] listing[i]).package == package;
            assert(longer[i].package == package);
        }
        if package == entry.package {
            assert(longer[listing.len() as int].package == package);
        }
    }
    assert forall|package: Seq<char>| left.contains_key(package) implies left[package]
        == right[package] by {
        let wanted = |other: Dependency| other.package == package;
        let dependent = |other: Dependency| other.dependent;
        listing.lemma_filter_push(entry, wanted);
        if package == entry.package {
            listing.filter(wanted).lemma_push_map_commute(dependent, entry);
            if !is_depended_upon(listing, package) {
                lemma_no_dependents_of_other_packages(listing, package);
            }
        }
    }
    assert(left =~= right);
}

/// For each package the packages that depend on it, in the order in which they
/// were recorded. A dependent may occur more than once in a list.
pub struct DependenciesMap {
    index: StringHashMap<usize>,
    lists: Vec<Vec<String>>,
}

impl View for DependenciesMap {
    type V = Map<Seq<char>, Seq<Seq<char>>>;

    closed spec fn view(&self) -> Map<Seq<char>, Seq<Seq<char>>> {
        Map::new(
            |package: Seq<char>| self.index@.contains_key(package),
            |package: Seq<char>| self.lists@[self.index@[package] as int].deep_view(),
        )
    }
}

impl DependenciesMap {
    /// Each known package has a list of its own.
    #[verifier::type_invariant]
    pub closed spec fn well_formed(&self) -> bool {
        &&& self.index@.dom().finite()
        &&& forall|package: Seq<char>|
            self.index@.contains_key(package) ==> (#[trigger] self.index@[package])
                < self.lists@.len()
        &&& forall|first: Seq<char>, second: Seq<char>|
            self.index@.contains_key(first) && self.index@.contains_key(second)
                && #[trigger] self.index@[first] == #[trigger] self.index@[second] ==> first
                == second
    }

    /// A well-formed graph knows finitely many packages.
    pub proof fn lemma_finitely_many_packages(&self)
        requires
            self.well_formed(),
        ensures
            self@.dom().finite(),
    {
        assert(self@.dom() =~= self.index@.dom());
    }

    /// A graph that knows no package.
    pub fn new() -> (result: Self)
        ensures
            result@ == Map::<Seq<char>, Seq<Seq<char>>>::empty(),
    {
        let result = DependenciesMap { index: StringHashMap::new(), lists: Vec::new() };
        assert(result@ =~= Map::<Seq<char>, Seq<Seq<char>>>::empty());
        result
    }

    /// The dependents recorded for `package`, or `None` for a package that the
    /// graph does not know.
    pub fn get(&self, package: &str) -> (result: Option<&Vec<String>>)
        ensures
            match result {
                Some(dependents) => self@.contains_key(package@) && dependents.deep_view()
                    == self@[package@],
                None => !self@.contains_key(package@),
            },
    {
        proof {
            use_type_invariant(self);
        }
        match self.index.get(package) {
            Some(position) => Some(&self.lists[*position]),
            None => None,
        }
    }

    /// Makes `dependents` the dependents of `package`, in place of any that
    /// were recorded for it.
    pub fn insert(&mut self, package: String, dependents: Vec<String>)
        ensures
            final(self)@ == old(self)@.insert(package@, dependents.deep_view()),
    {
        proof {
            use_type_invariant(&*self);
        }
        let mut index: StringHashMap<usize> = StringHashMap::new();
        let mut lists: Vec<Vec<String>> = Vec::new();
        core::mem::swap(&mut self.index, &mut index);
        core::mem::swap(&mut self.lists, &mut lists);
        let known = match index.get(package.as_str()) {
            Some(position) => Some(*position),
            None => None,
        };
        match known {
            Some(position) => {
                lists[position] = dependents;
            },
            None => {
                let position: usize = lists.len();
                lists.push(dependents);
                index.insert(package, position);
            },
        }
        core::mem::swap(&mut self.lists, &mut lists);
        core::mem::swap(&mut self.index, &mut index);
        assert(self@ =~= old(self)@.insert(package@, dependents.deep_view()));
    }

    /// Records `dependent` as one more dependent of `package`, behind those
    /// already recorded; a package that was not known becomes known.
    pub fn add_dependent(&mut self, package: String, dependent: String)
        ensures
            final(self)@ == with_dependent(old(self)@, package@, dependent@),
    {
        proof {
            use_type_invariant(&*self);
        }
        let mut index: StringHashMap<usize> = StringHashMap::new();
        let mut lists: Vec<Vec<String>> = Vec::new();
        core::mem::swap(&mut self.index, &mut index);
        core::mem::swap(&mut self.lists, &mut lists);
        let known = match index.get(package.as_str()) {
            Some(position) => Some(*position),
            None => None,
        };
        let ghost before = lists@;
        match known {
            Some(position) => {
                lists[position].push(dependent);
                assert(lists@[position as int].deep_view() =~= before[position as int].deep_view().push(
                    dependent@,
                ));
            },
            None => {
                let position: usize = lists.len();
                let mut list: Vec<String> = Vec::new();
                list.push(dependent);
                assert(list.deep_view() =~= Seq::<Seq<char>>::empty().push(dependent@));
                lists.push(list);
                index.insert(package, position);
            },
        }
        core::mem::swap(&mut self.lists, &mut lists);
        core::mem::swap(&mut self.index, &mut index);
        assert(self@ =~= with_dependent(old(self)@, package@, dependent@));
    }
}

/// The text of a record: `line` without its last character, the separator that
/// ends each line of the listing. An empty line has an empty text.
pub fn record_text<'a>(line: &'a str) -> (text: &'a str)
    ensures
        text@ == if line@.len() > 0 {
            line@.drop_last()
        } else {
            line@
        },
{
    let length: usize = line.unicode_len();
    if length == 0 {
        line
    } else {
        line.substring_char(0, length - 1)
    }
}

/// Builds the graph that `records` describe: each package that some record
/// depends upon, with its dependents in the order of the records. Nothing is
/// left out or merged: a dependent that is named twice is listed twice.
pub fn create_dependencies_map(records: &Vec<DependencyRecord>) -> (result: DependenciesMap)
    ensures
        result@ == graph_of(records.deep_view()),
{
    let mut dependents = DependenciesMap::new();
    let mut done: usize = 0;
    assert(records.deep_view().take(0) =~= Seq::<Dependency>::empty());
    assert(graph_of(Seq::<Dependency>::empty()) =~= Map::<Seq<char>, Seq<Seq<char>>>::empty());
    while done < records.len()
        invariant
            done <= records.len(),
            dependents@ == graph_of(records.deep_view().take(done as int)),
        decreases records.len() - done,
    {
        let record = &records[done];
        proof {
            let listing = records.deep_view();
            assert(listing.take(done + 1) =~= listing.take(done as int).push(record@));
            lemma_graph_of_push(listing.take(done as int), record@);
        }
        dependents.add_dependent(record.package.clone(), record.dependent.clone());
        done += 1;
    }
    assert(records.deep_view().take(done as int) =~= records.deep_view());
    dependents
}

} // verus!
