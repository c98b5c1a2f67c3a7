use cosmox::lazy_plugin::LazyLoadPlugin;
use cosmox::plugin_loader::{PluginDependencyError, PluginDependencyErrorInner, PluginLoader};
use cosmox::types::{PluginId, PluginName};
use cosmox::version::Version;

fn builtin(name: &str, version: &str) -> LazyLoadPlugin {
    LazyLoadPlugin::BuiltinPlugin {
        name: PluginName::new(name),
        version: Version::from(version),
        description: String::new(),
    }
}

#[test]
fn ids_for_a_batch_are_taken_together() {
    let mut loader = PluginLoader::new();
    let ids = loader.allocate_plugin_ids(3).unwrap();
    assert_eq!(ids, vec![PluginId::new(0), PluginId::new(1), PluginId::new(2)]);
    assert_eq!(loader.alloc_plugin_id().unwrap(), PluginId::new(3));
}

#[test]
fn settling_a_load_order_keeps_the_loaded_ids_only() {
    let mut loader = PluginLoader::new();
    let ids = loader.allocate_plugin_ids(3).unwrap();
    let plan = vec![(ids[0], 7), (ids[1], 4), (ids[2], 9)];
    // the third plugin had a problem and is not in the order
    let order = Ok(vec![vec![ids[1]], vec![ids[0]]]);
    let loads = loader.settle_enabled_plugins(&plan, 1, order);
    assert_eq!(loads, vec![(ids[1], 4), (ids[0], 7)]);
    assert_eq!(loader.plugin_enable_count(), 2);
    // the id of the plugin left out is free again
    assert_eq!(loader.alloc_plugin_id().unwrap(), ids[2]);
}

#[test]
fn settling_cycles_loads_nothing_and_frees_every_id() {
    let mut loader = PluginLoader::new();
    let ids = loader.allocate_plugin_ids(2).unwrap();
    let plan = vec![(ids[0], 0), (ids[1], 1)];
    let errors = vec![PluginDependencyError {
        id: ids[0],
        error: PluginDependencyErrorInner::Circular("cycle".to_string()),
    }];
    let loads = loader.settle_enabled_plugins(&plan, 0, Err(errors));
    assert!(loads.is_empty());
    assert_eq!(loader.plugin_enable_count(), 2);
    assert_eq!(loader.allocate_plugin_ids(2).unwrap(), ids);
}

#[test]
fn finished_loads_are_registered_or_freed() {
    let mut loader = PluginLoader::new();
    let ids = loader.allocate_plugin_ids(2).unwrap();
    let plugin = loader.load_builtin_plugin(ids[0], builtin("core", "1.0")).unwrap();
    loader.finish_plugin_load(ids[0], Some(plugin));
    loader.finish_plugin_load(ids[1], None);
    assert!(loader.get_plugin(ids[0]).is_some());
    assert!(loader.get_plugin(ids[1]).is_none());
    assert_eq!(loader.alloc_plugin_id().unwrap(), ids[1]);
}

#[test]
fn unloading_counts_one_plugin_fewer() {
    let mut loader = PluginLoader::new();
    let ids = loader.allocate_plugin_ids(1).unwrap();
    let loads = loader.settle_enabled_plugins(&vec![(ids[0], 0)], 0, Ok(vec![vec![ids[0]]]));
    assert_eq!(loads.len(), 1);
    assert_eq!(loader.plugin_enable_count(), 1);
    let plugin = loader.load_builtin_plugin(ids[0], builtin("core", "1.0")).unwrap();
    loader.finish_plugin_load(ids[0], Some(plugin));
    assert_eq!(loader.unload_plugin(&PluginName::new("core")), Some(ids[0]));
    assert_eq!(loader.plugin_enable_count(), 0);
    assert_eq!(loader.unload_plugin(&PluginName::new("core")), None);
    assert_eq!(loader.plugin_enable_count(), 0);
}
