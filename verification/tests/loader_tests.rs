use cosmox::lazy_plugin::{About, LazyLoadPlugin};
use cosmox::plugin_loader::{
    PluginDependencyErrorInner, PluginLoadError, PluginLoader, PluginPreloadError, PluginRaw,
};
use cosmox::requirement::Dependency;
use cosmox::types::{PluginId, PluginName, PluginWasmId};
use cosmox::version::Version;

fn external(name: &str, version: &str, deps: &[&str], conflicts: &[&str]) -> LazyLoadPlugin {
    LazyLoadPlugin::ExternalPlugin {
        name: PluginName::new(name),
        author: String::new(),
        email: String::new(),
        version: Version::from(version),
        description: String::new(),
        path: format!("/plugins/{name}"),
        permission: vec![],
        dependencies: Some(deps.iter().map(|d| Dependency::parse(d).unwrap()).collect()),
        conflicts: Some(conflicts.iter().map(|d| Dependency::parse(d).unwrap()).collect()),
    }
}

fn builtin(name: &str, version: &str) -> LazyLoadPlugin {
    LazyLoadPlugin::BuiltinPlugin {
        name: PluginName::new(name),
        version: Version::from(version),
        description: String::new(),
    }
}

#[test]
fn plugin_ids_are_handed_out_smallest_first() {
    let mut loader = PluginLoader::new();
    assert_eq!(loader.alloc_plugin_id().unwrap(), PluginId::new(0));
    assert_eq!(loader.alloc_plugin_id().unwrap(), PluginId::new(1));
    assert_eq!(loader.alloc_plugin_id().unwrap(), PluginId::new(2));
    loader.free_plugin_id(PluginId::new(1));
    assert_eq!(loader.alloc_plugin_id().unwrap(), PluginId::new(1));
    assert_eq!(loader.alloc_plugin_id().unwrap(), PluginId::new(3));
}

#[test]
fn wasm_ids_are_separate_from_plugin_ids() {
    let mut loader = PluginLoader::new();
    assert_eq!(loader.alloc_plugin_id().unwrap(), PluginId::new(0));
    assert_eq!(loader.alloc_plugin_wasm_id().unwrap(), PluginWasmId::new(0));
    assert_eq!(loader.alloc_plugin_wasm_id().unwrap(), PluginWasmId::new(1));
    loader.free_plugin_wasm_id(PluginWasmId::new(0));
    assert_eq!(loader.alloc_plugin_wasm_id().unwrap(), PluginWasmId::new(0));
}

#[test]
fn ids_cross_word_boundaries() {
    let mut loader = PluginLoader::new();
    for i in 0..130u64 {
        assert_eq!(loader.alloc_plugin_id().unwrap(), PluginId::new(i));
    }
    loader.free_plugin_id(PluginId::new(64));
    loader.free_plugin_id(PluginId::new(127));
    assert_eq!(loader.alloc_plugin_id().unwrap(), PluginId::new(64));
    assert_eq!(loader.alloc_plugin_id().unwrap(), PluginId::new(127));
    assert_eq!(loader.alloc_plugin_id().unwrap(), PluginId::new(130));
}

#[test]
fn plugin_ids_run_out() {
    let mut loader = PluginLoader::new();
    for i in 0..(1023u64 * 64) {
        assert_eq!(loader.alloc_plugin_id().unwrap(), PluginId::new(i));
    }
    match loader.alloc_plugin_id() {
        Err(PluginLoadError::PreLoadError(PluginPreloadError::PluginIdCapacityReached(n))) => {
            assert_eq!(n, 65535)
        }
        other => panic!("unexpected {other:?}"),
    }
    loader.free_plugin_id(PluginId::new(4000));
    assert_eq!(loader.alloc_plugin_id().unwrap(), PluginId::new(4000));
}

#[test]
fn preload_error_messages() {
    assert_eq!(
        PluginPreloadError::PluginIdCapacityReached(65535).to_string(),
        "Plugin ID allocation failed, the maximum capacity of 65535 has been reached"
    );
    assert_eq!(
        PluginPreloadError::PluginWasmIdCapacityReached(7).to_string(),
        "Plugin Wasm ID allocation failed, the maximum capacity of 7 has been reached"
    );
    assert_eq!(
        PluginPreloadError::MissingManifest.to_string(),
        "Missing manifest file (about.toml/json)."
    );
    assert_eq!(
        PluginPreloadError::InvalidManifest("bad yaml".to_string()).to_string(),
        "Plugin metadata is invalid bad yaml"
    );
}

#[test]
fn dependency_error_messages() {
    let missing = PluginDependencyErrorInner::Missing {
        name: PluginName::new("a"),
        requirement: "b@>=2".to_string(),
    };
    assert_eq!(missing.to_string(), "Missing required dependency: b@>=2 (required by a)");
    let conflict = PluginDependencyErrorInner::Conflict {
        name: PluginName::new("a"),
        conflicting_with: "c".to_string(),
        reason: "why".to_string(),
    };
    assert_eq!(conflict.to_string(), "Conflict detected: Plugin 'a' conflicts with 'c'. Reason is why");
}

#[test]
fn finalize_reports_missing_dependency() {
    let loader = PluginLoader::new();
    let plugins = vec![(PluginId::new(0), external("a", "1.0.0", &["b@1.0"], &[]))];
    let (graph, result) = loader.finalize_dependency_all(&plugins);
    assert_eq!(graph.len(), 1);
    let errors = result.unwrap_err();
    assert_eq!(errors.len(), 1);
    assert_eq!(errors[0].id, PluginId::new(0));
    match &errors[0].error {
        PluginDependencyErrorInner::Missing { name, requirement } => {
            assert_eq!(name.as_str(), "a");
            assert_eq!(requirement, "b");
        }
        other => panic!("unexpected {other:?}"),
    }
}

#[test]
fn finalize_reports_version_mismatch_and_keeps_the_edge() {
    let loader = PluginLoader::new();
    let plugins = vec![
        (PluginId::new(0), external("a", "1.0.0", &["b@>=2.0"], &[])),
        (PluginId::new(1), builtin("b", "1.0")),
    ];
    let (graph, result) = loader.finalize_dependency_all(&plugins);
    assert_eq!(graph.get(PluginId::new(1)), Some(vec![PluginId::new(0)]));
    let errors = result.unwrap_err();
    assert_eq!(errors.len(), 1);
    match &errors[0].error {
        PluginDependencyErrorInner::Missing { name, requirement } => {
            assert_eq!(name.as_str(), "a");
            assert_eq!(requirement, "b@>=2.0");
        }
        other => panic!("unexpected {other:?}"),
    }
}

#[test]
fn finalize_accepts_met_requirements() {
    let loader = PluginLoader::new();
    let plugins = vec![
        (PluginId::new(0), external("a", "1.0.0", &["b@^1.2", "c@~2.1", "d@3.0", "e"], &[])),
        (PluginId::new(1), builtin("b", "1.4.0")),
        (PluginId::new(2), builtin("c", "2.1.7")),
        (PluginId::new(3), builtin("d", "3.0.0")),
        (PluginId::new(4), builtin("e", "0.1")),
    ];
    let (graph, result) = loader.finalize_dependency_all(&plugins);
    assert!(result.is_ok());
    assert_eq!(graph.len(), 5);
    assert_eq!(graph.get(PluginId::new(1)), Some(vec![PluginId::new(0)]));
    assert_eq!(graph.get(PluginId::new(3)), Some(vec![PluginId::new(0)]));
    // a dependency on any version still lists its dependent
    assert_eq!(graph.get(PluginId::new(4)), Some(vec![PluginId::new(0)]));
    let order = PluginLoader::dependencies_analyzer(graph, 5).unwrap();
    assert_eq!(order.len(), 2);
    assert_eq!(order[1], vec![PluginId::new(0)]);
}

#[test]
fn finalize_reports_conflicts() {
    let loader = PluginLoader::new();
    let plugins = vec![
        (PluginId::new(0), external("a", "1.0.0", &[], &["c@^1.2", "d", "e@<=1.0"])),
        (PluginId::new(1), external("c", "1.5", &[], &[])),
        (PluginId::new(2), builtin("d", "9")),
        (PluginId::new(3), builtin("e", "2.0")),
    ];
    let (_, result) = loader.finalize_dependency_all(&plugins);
    let errors = result.unwrap_err();
    assert_eq!(errors.len(), 2);
    match &errors[0].error {
        PluginDependencyErrorInner::Conflict { name, conflicting_with, reason } => {
            assert_eq!(name.as_str(), "a");
            assert_eq!(conflicting_with, "c@^1.2");
            assert_eq!(
                reason,
                "Conflict: 'a' has a Caret conflict with 'c' ^1.2 (found incompatible 1.5)"
            );
        }
        other => panic!("unexpected {other:?}"),
    }
    match &errors[1].error {
        PluginDependencyErrorInner::Conflict { reason, .. } => {
            assert_eq!(reason, "Plugin a conflicts with plugin d.");
        }
        other => panic!("unexpected {other:?}"),
    }
}

#[test]
fn finalize_conflict_reasons_for_each_operator() {
    let loader = PluginLoader::new();
    let plugins = vec![
        (PluginId::new(0), external("a", "1", &[], &["x@1.0", "y@>=2", "z@~3.1"])),
        (PluginId::new(1), builtin("x", "1.0.0")),
        (PluginId::new(2), builtin("y", "2.5")),
        (PluginId::new(3), builtin("z", "3.1.4")),
    ];
    let (_, result) = loader.finalize_dependency_all(&plugins);
    let errors = result.unwrap_err();
    let reasons: Vec<String> = errors
        .iter()
        .map(|e| match &e.error {
            PluginDependencyErrorInner::Conflict { reason, .. } => reason.clone(),
            other => panic!("unexpected {other:?}"),
        })
        .collect();
    assert_eq!(
        reasons,
        vec![
            "Conflict: 'a' cannot coexist with 'x' at version 1.0, but 1.0.0 is installed".to_string(),
            "Conflict: 'a' is incompatible with 'y' >= 2 (found 2.5 in forbidden range)".to_string(),
            "Conflict: 'a' has a Tilde conflict with 'z' ~3.1 (found incompatible 3.1.4)".to_string(),
        ]
    );
}

#[test]
fn load_order_fails_when_a_dependency_is_missing() {
    let loader = PluginLoader::new();
    let plugins = vec![
        (PluginId::new(0), external("a", "1.0.0", &["zzz"], &[])),
        (PluginId::new(1), builtin("b", "1.0")),
    ];
    assert!(loader.enabled_plugins_load_order(&plugins).is_err());
    let ok = vec![
        (PluginId::new(0), external("a", "1.0.0", &["b@1"], &[])),
        (PluginId::new(1), builtin("b", "1.0")),
    ];
    let order = loader.enabled_plugins_load_order(&ok).unwrap();
    assert_eq!(order, vec![vec![PluginId::new(1)], vec![PluginId::new(0)]]);
}

#[test]
fn builtin_plugins_take_over_their_name() {
    let mut loader = PluginLoader::new();
    let first = loader.alloc_plugin_id().unwrap();
    let second = loader.alloc_plugin_id().unwrap();
    let p = loader.load_builtin_plugin(first, builtin("core", "1.0")).unwrap();
    assert_eq!(p.id(), first);
    assert_eq!(loader.plugin_id_by_name(&PluginName::new("core")), Some(first));
    match loader.load_builtin_plugin(second, builtin("core", "1.1")).unwrap() {
        PluginRaw::BuiltinPlugin { id, enable, .. } => {
            assert_eq!(id, second);
            assert!(enable);
        }
        other => panic!("unexpected {other:?}"),
    }
    assert_eq!(loader.plugin_id_by_name(&PluginName::new("core")), Some(second));
    // the first id was given back
    assert_eq!(loader.alloc_plugin_id().unwrap(), first);
}

#[test]
fn loading_the_wrong_kind_gives_the_id_back() {
    let mut loader = PluginLoader::new();
    let id = loader.alloc_plugin_id().unwrap();
    match loader.load_builtin_plugin(id, external("x", "1", &[], &[])) {
        Err(PluginLoadError::WasmInstantiationError(name, why)) => {
            assert_eq!(name, "x");
            assert_eq!(why, "Expected a builtin plugin but got an external plugin");
        }
        other => panic!("unexpected {other:?}"),
    }
    assert_eq!(loader.alloc_plugin_id().unwrap(), id);
    match loader.load_external_plugin(id, builtin("y", "1"), vec![]) {
        Err(PluginLoadError::WasmInstantiationError(name, why)) => {
            assert_eq!(name, "y");
            assert_eq!(why, "Not an external plugin");
        }
        other => panic!("unexpected {other:?}"),
    }
    let invalid = LazyLoadPlugin::InvalidPlugin {
        name: PluginName::new("z"),
        error: PluginPreloadError::MissingManifest,
    };
    assert!(matches!(
        loader.load_external_plugin(id, invalid, vec![]),
        Err(PluginLoadError::PreLoadError(PluginPreloadError::MissingManifest))
    ));
}

#[test]
fn external_plugins_start_disabled() {
    let mut loader = PluginLoader::new();
    let id = loader.alloc_plugin_id().unwrap();
    let plugin = loader
        .load_external_plugin(id, external("ext", "2.0", &[], &[]), vec![PluginWasmId::new(3)])
        .unwrap();
    match plugin {
        PluginRaw::ExternalPlugin { id: pid, enable, wasm_extensions, .. } => {
            assert_eq!(pid, id);
            assert!(!enable);
            assert_eq!(wasm_extensions, Some(vec![PluginWasmId::new(3)]));
        }
        other => panic!("unexpected {other:?}"),
    }
    let id2 = loader.alloc_plugin_id().unwrap();
    match loader.load_external_plugin(id2, external("ext2", "2.0", &[], &[]), vec![]).unwrap() {
        PluginRaw::ExternalPlugin { wasm_extensions, .. } => assert_eq!(wasm_extensions, None),
        other => panic!("unexpected {other:?}"),
    }
}

#[test]
fn manifest_becomes_an_external_plugin() {
    let about = About {
        name: "demo".to_string(),
        version: "1.2.3".to_string(),
        license: "MIT".to_string(),
        authors: vec![],
        description: None,
        email: Some("a@b.c".to_string()),
        permission: None,
        url: None,
        dependencies: Some(vec!["core@^1".to_string(), "broken@".to_string()]),
        conflicts: None,
    };
    match cosmox::lazy_plugin::external_plugin_from_manifest(about, "/p/demo".to_string()) {
        LazyLoadPlugin::ExternalPlugin {
            name, email, version, description, path, dependencies, conflicts, ..
        } => {
            assert_eq!(name.as_str(), "demo");
            assert_eq!(email, "a@b.c");
            assert_eq!(version, Version::from("1.2.3"));
            assert_eq!(description, "");
            assert_eq!(path, "/p/demo");
            let deps = dependencies.unwrap();
            assert_eq!(deps.len(), 1);
            assert_eq!(deps[0].to_string(), "core@^1");
            assert!(conflicts.is_none());
        }
        other => panic!("unexpected {other:?}"),
    }
}

#[test]
fn unload_plugin_gives_its_ids_back() {
    let mut loader = PluginLoader::new();
    let w0 = loader.alloc_plugin_wasm_id().unwrap();
    let w1 = loader.alloc_plugin_wasm_id().unwrap();
    let id = loader.alloc_plugin_id().unwrap();
    let plugin = loader
        .load_external_plugin(id, external("ext", "1.0", &[], &[]), vec![w0, w1])
        .unwrap();
    loader.register_plugin(plugin);
    assert!(loader.get_plugin(id).is_some());
    assert_eq!(loader.unload_plugin(&PluginName::new("ext")), Some(id));
    assert!(loader.get_plugin(id).is_none());
    assert_eq!(loader.plugin_id_by_name(&PluginName::new("ext")), None);
    // both the plugin id and the wasm ids are free again
    assert_eq!(loader.alloc_plugin_id().unwrap(), id);
    assert_eq!(loader.alloc_plugin_wasm_id().unwrap(), w0);
    assert_eq!(loader.alloc_plugin_wasm_id().unwrap(), w1);
    // an unknown name unloads nothing
    assert_eq!(loader.unload_plugin(&PluginName::new("nope")), None);
}

#[test]
fn register_plugin_replaces_by_id() {
    let mut loader = PluginLoader::new();
    let id = loader.alloc_plugin_id().unwrap();
    let a = loader.load_builtin_plugin(id, builtin("core", "1.0")).unwrap();
    loader.register_plugin(a);
    let b = loader.load_builtin_plugin(id, builtin("core", "2.0")).unwrap();
    loader.register_plugin(b);
    match loader.get_plugin(id) {
        Some(PluginRaw::BuiltinPlugin { version, .. }) => assert_eq!(version.to_string(), "2.0"),
        other => panic!("unexpected {other:?}"),
    }
}
