use depended_upon::{
    count_depended_upon, DependenciesMap, MostUsedMap, SearchResult, TOTAL_NPM_PACKAGES,
};

fn names(list: &[&str]) -> Vec<String> {
    list.iter().map(|name| name.to_string()).collect()
}

fn graph(entries: &[(&str, &[&str])]) -> DependenciesMap {
    let mut map = DependenciesMap::new();
    for (package, dependents) in entries {
        map.insert(package.to_string(), names(dependents));
    }
    map
}

fn most_used(list: &[&str]) -> MostUsedMap {
    let mut set = MostUsedMap::new();
    for name in list {
        set.insert(name.to_string());
    }
    set
}

fn sorted_hits(result: &SearchResult) -> Vec<String> {
    let mut hits = result.well_known_hits().clone();
    hits.sort();
    hits
}

fn percentage(result: &SearchResult) -> f32 {
    result.leaf_count() as f32 * 100. / TOTAL_NPM_PACKAGES as f32
}

#[test]
fn unknown_package_counts_as_one_leaf() {
    let map = graph(&[("left-pad", &["a", "b"]), ("b", &["c"])]);
    let set = most_used(&["b"]);
    for name in ["nobody", "", "c", "a", "LEFT-PAD"] {
        let result = count_depended_upon(&map, &set, name);
        assert_eq!(result.leaf_count(), 1);
        assert!(result.well_known_hits().is_empty());
    }
}

#[test]
fn package_with_empty_dependents_counts_as_one_leaf() {
    let map = graph(&[("lonely", &[]), ("left-pad", &["lonely"])]);
    let set = most_used(&[]);
    let result = count_depended_upon(&map, &set, "lonely");
    assert_eq!(result.leaf_count(), 1);
    assert!(result.well_known_hits().is_empty());
}

#[test]
fn cycle_of_two_terminates_without_leaves() {
    let map = graph(&[("A", &["B"]), ("B", &["A"])]);
    let set = most_used(&["A"]);
    let result = count_depended_upon(&map, &set, "A");
    assert_eq!(result.leaf_count(), 0);
    assert_eq!(sorted_hits(&result), names(&["A"]));
}

#[test]
fn package_that_depends_on_itself_terminates() {
    let map = graph(&[("A", &["A", "leaf"])]);
    let set = most_used(&[]);
    let result = count_depended_upon(&map, &set, "A");
    assert_eq!(result.leaf_count(), 1);
}

#[test]
fn cycle_with_a_way_out_counts_the_leaf_behind_it() {
    let map = graph(&[("A", &["B"]), ("B", &["C", "A"]), ("C", &["A", "D"]), ("D", &[])]);
    let set = most_used(&["C", "D", "elsewhere"]);
    let result = count_depended_upon(&map, &set, "A");
    assert_eq!(result.leaf_count(), 1);
    assert_eq!(sorted_hits(&result), names(&["C", "D"]));
}

#[test]
fn heavily_used_dependent_listed_twice_is_one_hit() {
    let map = graph(&[("A", &["B", "B"])]);
    let set = most_used(&["B"]);
    let result = count_depended_upon(&map, &set, "A");
    assert_eq!(result.well_known_hits(), &names(&["B"]));
    assert_eq!(result.leaf_count(), 1);
}

#[test]
fn heavily_used_package_reached_on_two_ways_is_one_hit() {
    let map = graph(&[("A", &["B", "C"]), ("B", &["D"]), ("C", &["D"]), ("D", &["E", "E"])]);
    let set = most_used(&["D", "E"]);
    let result = count_depended_upon(&map, &set, "A");
    assert_eq!(sorted_hits(&result), names(&["D", "E"]));
    assert_eq!(result.leaf_count(), 1);
}

#[test]
fn left_pad_example() {
    let map = graph(&[("left-pad", &["a", "b"]), ("a", &[]), ("b", &["c"])]);
    let set = most_used(&["b"]);
    let result = count_depended_upon(&map, &set, "left-pad");
    assert_eq!(result.leaf_count(), 2);
    assert_eq!(result.well_known_hits(), &names(&["b"]));
    assert_eq!(percentage(&result), 2. * 100. / 633947.);
}

#[test]
fn empty_graph_counts_the_start_package() {
    let map = DependenciesMap::new();
    let set = most_used(&["express"]);
    let result = count_depended_upon(&map, &set, "left-pad");
    assert_eq!(result.leaf_count(), 1);
    assert!(result.well_known_hits().is_empty());
    let result = count_depended_upon(&map, &set, "express");
    assert_eq!(result.leaf_count(), 1);
    assert_eq!(result.well_known_hits(), &names(&["express"]));
}

#[test]
fn start_package_is_a_hit_when_heavily_used() {
    let map = graph(&[("lodash", &["a"])]);
    let set = most_used(&["lodash"]);
    let result = count_depended_upon(&map, &set, "lodash");
    assert_eq!(result.well_known_hits(), &names(&["lodash"]));
    assert_eq!(result.leaf_count(), 1);
}

#[test]
fn leaf_reached_on_two_ways_counts_once() {
    let map = graph(&[("A", &["B", "C"]), ("B", &["D"]), ("C", &["D"])]);
    let set = most_used(&[]);
    let result = count_depended_upon(&map, &set, "A");
    assert_eq!(result.leaf_count(), 1);
}

#[test]
fn every_leaf_of_a_tree_counts() {
    let map = graph(&[
        ("root", &["l", "r"]),
        ("l", &["ll", "lr"]),
        ("r", &["rl", "rr", "rx"]),
        ("rx", &[]),
    ]);
    let set = most_used(&["rr", "root", "absent"]);
    let result = count_depended_upon(&map, &set, "root");
    assert_eq!(result.leaf_count(), 5);
    assert_eq!(sorted_hits(&result), names(&["root", "rr"]));
    let result = count_depended_upon(&map, &set, "r");
    assert_eq!(result.leaf_count(), 3);
    assert_eq!(sorted_hits(&result), names(&["rr"]));
}

#[test]
fn search_follows_dependents_only_downwards() {
    let map = graph(&[("A", &["B"]), ("B", &["C"])]);
    let set = most_used(&["A", "B", "C"]);
    let result = count_depended_upon(&map, &set, "B");
    assert_eq!(result.leaf_count(), 1);
    assert_eq!(sorted_hits(&result), names(&["B", "C"]));
}

#[test]
fn names_are_case_sensitive() {
    let map = graph(&[("a", &["b", "c"])]);
    let set = most_used(&["B"]);
    let result = count_depended_upon(&map, &set, "A");
    assert_eq!(result.leaf_count(), 1);
    assert!(result.well_known_hits().is_empty());
    let result = count_depended_upon(&map, &set, "a");
    assert_eq!(result.leaf_count(), 2);
    assert!(result.well_known_hits().is_empty());
}

#[test]
fn long_chain_is_walked_to_its_end() {
    let mut map = DependenciesMap::new();
    for i in 0..50_000 {
        map.add_dependent(format!("p{}", i), format!("p{}", i + 1));
    }
    let set = most_used(&["p50000", "p0"]);
    let result = count_depended_upon(&map, &set, "p0");
    assert_eq!(result.leaf_count(), 1);
    assert_eq!(sorted_hits(&result), names(&["p0", "p50000"]));
}

#[test]
fn copy_of_a_result_has_the_same_findings() {
    let map = graph(&[("left-pad", &["a", "b"]), ("a", &[]), ("b", &["c"])]);
    let set = most_used(&["b", "c"]);
    let result = count_depended_upon(&map, &set, "left-pad");
    let copy = result.clone();
    assert_eq!(copy.leaf_count(), result.leaf_count());
    assert_eq!(copy.well_known_hits(), result.well_known_hits());
}

#[test]
fn share_of_the_registry() {
    assert_eq!(TOTAL_NPM_PACKAGES, 633947);
    let map = graph(&[("left-pad", &["a", "b", "c"])]);
    let set = most_used(&[]);
    let result = count_depended_upon(&map, &set, "left-pad");
    assert_eq!(result.leaf_count(), 3);
    assert_eq!(percentage(&result), 300. / 633947.);
    assert!((percentage(&result) - 0.000473225).abs() < 1e-9);
}
