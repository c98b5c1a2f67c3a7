use std::collections::HashSet;

use cosmox::dependency_graph::ReverseDeps;
use cosmox::plugin_loader::{PluginDependencyErrorInner, PluginLoader};
use cosmox::types::PluginId;

/// Turns a list of (plugin, the plugins it depends on) into the reverse
/// dependency graph (provider to dependents), with the number of plugins.
fn build_reverse_deps(input: Vec<(u64, Vec<u64>)>) -> (ReverseDeps, usize) {
    let mut reverse_map = ReverseDeps::new();
    let mut all_ids = HashSet::new();

    for (id, deps) in input {
        let id = PluginId::new(id);
        all_ids.insert(id.0);
        reverse_map.insert_node(id);

        for dep_id in deps {
            let dep_id = PluginId::new(dep_id);
            all_ids.insert(dep_id.0);
            reverse_map.add_dependent(dep_id, id);
        }
    }
    (reverse_map, all_ids.len())
}

#[test]
fn test_dependencies_analyzer_simple_linear() {
    let (deps, total) = build_reverse_deps(vec![(1, vec![2]), (2, vec![3]), (3, vec![])]);

    let result = PluginLoader::dependencies_analyzer(deps, total).unwrap();

    assert_eq!(result[0], vec![PluginId::new(3)]);
    assert_eq!(result[1], vec![PluginId::new(2)]);
    assert_eq!(result[2], vec![PluginId::new(1)]);
}

#[test]
fn test_dependencies_analyzer_parallel_batches() {
    let (deps, total) = build_reverse_deps(vec![(1, vec![]), (2, vec![]), (3, vec![1, 2])]);

    let result = PluginLoader::dependencies_analyzer(deps, total).unwrap();

    assert_eq!(result.len(), 2);
    assert!(result[0].contains(&PluginId::new(1)));
    assert!(result[0].contains(&PluginId::new(2)));
    assert_eq!(result[1], vec![PluginId::new(3)]);
}

#[test]
fn test_dependencies_analyzer_circular() {
    let (deps, total) = build_reverse_deps(vec![(1, vec![2]), (2, vec![1])]);

    let result = PluginLoader::dependencies_analyzer(deps, total);

    assert!(result.is_err());
    let err_ids = result.unwrap_err();
    assert!(err_ids.iter().any(|x| x.id == PluginId::new(1)));
    assert!(err_ids.iter().any(|x| x.id == PluginId::new(2)));
}

#[test]
fn test_dependencies_analyzer_complex_graph() {
    let (deps, total) = build_reverse_deps(vec![
        (1, vec![2, 3]),
        (2, vec![4]),
        (3, vec![4]),
        (4, vec![]),
    ]);

    let result = PluginLoader::dependencies_analyzer(deps, total).unwrap();

    assert_eq!(result[0], vec![PluginId::new(4)]);
    assert!(result[1].contains(&PluginId::new(2)));
    assert!(result[1].contains(&PluginId::new(3)));
    assert_eq!(result[2], vec![PluginId::new(1)]);
}

#[test]
fn test_dependencies_analyzer_real_world_complex() {
    let (deps, total) = build_reverse_deps(vec![
        (0, vec![]),
        (8, vec![]),
        (1, vec![0]),
        (2, vec![0]),
        (3, vec![1]),
        (4, vec![1, 2]),
        (5, vec![2]),
        (6, vec![3, 4]),
        (7, vec![4, 5]),
    ]);

    let result = PluginLoader::dependencies_analyzer(deps, total).expect("Analysis failed");

    assert_eq!(result.len(), 4);
    assert!(result[0].contains(&PluginId::new(0)) && result[0].contains(&PluginId::new(8)));
    assert!(result[3].contains(&PluginId::new(6)) && result[3].contains(&PluginId::new(7)));

    let total_processed: usize = result.iter().map(|b| b.len()).sum();
    assert_eq!(total_processed, 9);
}

#[test]
fn analyzer_reports_cycle_members_and_waiters_only() {
    // 1 <-> 2 form a cycle, 3 waits on 2, 4 stands alone.
    let (deps, total) = build_reverse_deps(vec![(1, vec![2]), (2, vec![1]), (3, vec![2]), (4, vec![])]);
    let errors = PluginLoader::dependencies_analyzer(deps, total).unwrap_err();
    let mut ids: Vec<u64> = errors.iter().map(|e| e.id.0).collect();
    ids.sort();
    assert_eq!(ids, vec![1, 2, 3]);
    for e in &errors {
        match &e.error {
            PluginDependencyErrorInner::Circular(text) => {
                assert_eq!(text, &format!("PluginId({})", e.id.0))
            }
            other => panic!("unexpected error {other:?}"),
        }
    }
    assert_eq!(
        errors[0].to_string(),
        format!(
            "Dependency cycle detected involving plugin PluginId({}) (plugin id is PluginId({}))",
            errors[0].id.0, errors[0].id.0
        )
    );
}

#[test]
fn analyzer_fails_when_the_count_is_off() {
    let (deps, total) = build_reverse_deps(vec![(1, vec![]), (2, vec![1])]);
    let errors = PluginLoader::dependencies_analyzer(deps, total + 1).unwrap_err();
    assert!(errors.is_empty());
}

#[test]
fn analyzer_on_empty_graph() {
    let deps = ReverseDeps::new();
    let result = PluginLoader::dependencies_analyzer(deps, 0).unwrap();
    assert!(result.is_empty());
}

#[test]
fn analyzer_counts_repeated_edges() {
    // plugin 2 lists 1 twice; it still comes right after 1
    let mut deps = ReverseDeps::new();
    deps.insert_node(PluginId::new(2));
    deps.add_dependent(PluginId::new(1), PluginId::new(2));
    deps.add_dependent(PluginId::new(1), PluginId::new(2));
    let result = PluginLoader::dependencies_analyzer(deps, 2).unwrap();
    assert_eq!(result, vec![vec![PluginId::new(1)], vec![PluginId::new(2)]]);
}

#[test]
fn reverse_deps_lists_providers_once() {
    let mut deps = ReverseDeps::new();
    deps.insert_node(PluginId::new(5));
    deps.insert_node(PluginId::new(5));
    deps.add_dependent(PluginId::new(5), PluginId::new(6));
    deps.add_dependent(PluginId::new(7), PluginId::new(6));
    assert_eq!(deps.len(), 2);
    assert_eq!(deps.get(PluginId::new(5)), Some(vec![PluginId::new(6)]));
    assert_eq!(deps.get(PluginId::new(7)), Some(vec![PluginId::new(6)]));
    assert_eq!(deps.get(PluginId::new(6)), None);
}
