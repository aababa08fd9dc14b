use depended_upon::{
    count_depended_upon, DependenciesMap, MostUsedMap, QueryService, ResultCache,
};

fn names(list: &[&str]) -> Vec<String> {
    list.iter().map(|name| name.to_string()).collect()
}

fn graph() -> DependenciesMap {
    let mut map = DependenciesMap::new();
    map.insert("left-pad".to_string(), names(&["a", "b"]));
    map.insert("a".to_string(), Vec::new());
    map.insert("b".to_string(), names(&["c"]));
    map
}

fn most_used() -> MostUsedMap {
    let mut set = MostUsedMap::new();
    set.insert("b".to_string());
    set
}

#[test]
fn second_lookup_runs_no_search() {
    let mut service = QueryService::new(graph(), most_used());
    assert_eq!(service.searches_run(), 0);
    let first = service.lookup("left-pad");
    assert_eq!(service.searches_run(), 1);
    let second = service.lookup("left-pad");
    assert_eq!(service.searches_run(), 1);
    assert_eq!(first.leaf_count(), 2);
    assert_eq!(second.leaf_count(), 2);
    assert_eq!(first.well_known_hits(), &names(&["b"]));
    assert_eq!(second.well_known_hits(), first.well_known_hits());
}

#[test]
fn many_lookups_of_one_package_run_one_search() {
    let mut service = QueryService::new(graph(), most_used());
    for _ in 0..100 {
        let result = service.lookup("b");
        assert_eq!(result.leaf_count(), 1);
        assert_eq!(result.well_known_hits(), &names(&["b"]));
        assert_eq!(service.searches_run(), 1);
    }
}

#[test]
fn each_package_is_searched_once() {
    let mut service = QueryService::new(graph(), most_used());
    let queries = ["left-pad", "a", "left-pad", "unknown", "b", "a", "unknown", "c"];
    let searches = [1, 2, 2, 3, 4, 4, 4, 5];
    let leaves = [2, 1, 2, 1, 1, 1, 1, 1];
    for i in 0..queries.len() {
        let result = service.lookup(queries[i]);
        assert_eq!(result.leaf_count(), leaves[i]);
        assert_eq!(service.searches_run(), searches[i]);
    }
}

#[test]
fn lookup_answers_as_the_search_does() {
    let map = graph();
    let set = most_used();
    let mut service = QueryService::new(graph(), most_used());
    for name in ["left-pad", "a", "b", "c", "nobody", "left-pad", "b"] {
        let direct = count_depended_upon(&map, &set, name);
        let answer = service.lookup(name);
        assert_eq!(answer.leaf_count(), direct.leaf_count());
        assert_eq!(answer.well_known_hits(), direct.well_known_hits());
    }
}

#[test]
fn lookup_in_an_empty_graph() {
    let mut service = QueryService::new(DependenciesMap::new(), most_used());
    let result = service.lookup("anything");
    assert_eq!(result.leaf_count(), 1);
    assert!(result.well_known_hits().is_empty());
    let result = service.lookup("b");
    assert_eq!(result.leaf_count(), 1);
    assert_eq!(result.well_known_hits(), &names(&["b"]));
    assert_eq!(service.searches_run(), 2);
}

#[test]
fn cache_computes_once_for_a_key() {
    let map = graph();
    let set = most_used();
    let mut cache = ResultCache::new();
    let mut computations = 0;
    assert!(cache.get("left-pad").is_none());
    for _ in 0..5 {
        let result = cache.get_or_compute("left-pad", || {
            computations += 1;
            count_depended_upon(&map, &set, "left-pad")
        });
        assert_eq!(result.leaf_count(), 2);
        assert_eq!(result.well_known_hits(), &names(&["b"]));
    }
    assert_eq!(computations, 1);
    assert_eq!(cache.len(), 1);
    let stored = cache.get("left-pad").unwrap();
    assert_eq!(stored.leaf_count(), 2);
    assert_eq!(stored.well_known_hits(), &names(&["b"]));
}

#[test]
fn cache_keeps_the_first_result_of_a_key() {
    let map = graph();
    let set = most_used();
    let mut cache = ResultCache::new();
    let first = cache.get_or_compute("key", || count_depended_upon(&map, &set, "left-pad"));
    let second = cache.get_or_compute("key", || count_depended_upon(&map, &set, "a"));
    assert_eq!(first.leaf_count(), 2);
    assert_eq!(second.leaf_count(), 2);
    assert_eq!(second.well_known_hits(), &names(&["b"]));
    assert_eq!(cache.len(), 1);
}

#[test]
fn cache_computes_for_each_key() {
    let map = graph();
    let set = most_used();
    let mut cache = ResultCache::new();
    let mut computations = 0;
    assert_eq!(cache.len(), 0);
    for name in ["left-pad", "a", "b", "a", "left-pad", "b", "c"] {
        let result = cache.get_or_compute(name, || {
            computations += 1;
            count_depended_upon(&map, &set, name)
        });
        assert_eq!(result.leaf_count(), count_depended_upon(&map, &set, name).leaf_count());
    }
    assert_eq!(computations, 4);
    assert_eq!(cache.len(), 4);
    assert!(cache.get("c").is_some());
    assert!(cache.get("d").is_none());
}
