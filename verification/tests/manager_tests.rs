use cosmox::lazy_plugin::LazyLoadPlugin;
use cosmox::plugin_loader::PluginPreloadError;
use cosmox::plugin_manager::{MediaTypeError, PluginError, PluginManager, PluginManagerState, PluginState};
use cosmox::types::{PluginId, PluginName};
use cosmox::version::Version;

#[test]
fn media_types_are_registered_once() {
    let mut pm = PluginManager::new();
    assert!(pm.push_media_types(vec!["Movie".to_string(), "TV Show".to_string()]).is_ok());
    let mut types = pm.get_supported_media_types();
    types.sort();
    assert_eq!(types, vec!["Movie".to_string(), "TV Show".to_string()]);
    match pm.push_media_types(vec!["Music".to_string(), "Movie".to_string()]) {
        Err(MediaTypeError::AlreadyExists(msg)) => assert_eq!(msg, "Type `Movie` already exists."),
        other => panic!("unexpected {other:?}"),
    }
    // nothing of a refused call is registered
    assert_eq!(pm.get_supported_media_types().len(), 2);
    assert!(pm.push_media_types(vec![]).is_ok());
}

#[test]
fn media_types_must_be_short_and_plain() {
    let mut pm = PluginManager::new();
    let long = "x".repeat(33);
    match pm.push_media_types(vec![long.clone()]) {
        Err(MediaTypeError::InvalidFormat(msg)) => assert!(msg.contains(&format!("At `{long}`"))),
        other => panic!("unexpected {other:?}"),
    }
    match pm.push_media_types(vec!["ok_one".to_string(), "bad/slash".to_string()]) {
        Err(MediaTypeError::InvalidFormat(msg)) => {
            assert_eq!(
                msg,
                "\n            At `bad/slash`:\n            The `media_type` length must not exceed 32 characters.\n            It can only contain alphanumeric characters (A-Z, a-z, 0-9), as well as spaces, underscores, and hyphens.\n            "
            )
        }
        other => panic!("unexpected {other:?}"),
    }
    assert!(pm.push_media_types(vec!["x".repeat(32), "A-b_c 9".to_string()]).is_ok());
    assert!(pm.get_supported_media_types().is_empty() == false);
}

#[test]
fn enabled_state_add_and_remove() {
    let mut state = PluginManagerState::new();
    assert!(state.add_enabled(PluginName::new("a")));
    assert!(state.add_enabled(PluginName::new("b")));
    assert!(!state.add_enabled(PluginName::new("a")));
    assert!(state.is_enabled(&PluginName::new("a")));
    state.remove_enabled(&PluginName::new("a"));
    assert!(!state.is_enabled(&PluginName::new("a")));
    assert!(state.is_enabled(&PluginName::new("b")));
    assert_eq!(state.enabled_plugins().len(), 1);
    let restored = PluginManagerState::from_enabled(vec![PluginState { name: PluginName::new("c") }]);
    assert!(restored.is_enabled(&PluginName::new("c")));
}

#[test]
fn query_lists_every_plugin_found() {
    let mut pm = PluginManager::new();
    pm.plugin_loader.add_lazy_plugins(vec![
        LazyLoadPlugin::BuiltinPlugin {
            name: PluginName::new("core"),
            version: Version::from("0.1.0"),
            description: "the core".to_string(),
        },
        LazyLoadPlugin::InvalidPlugin {
            name: PluginName::new("broken"),
            error: PluginPreloadError::MissingManifest,
        },
    ]);
    let id = pm.plugin_loader.alloc_plugin_id().unwrap();
    assert_eq!(id, PluginId::new(0));
    pm.plugin_loader.insert_plugin_name(PluginName::new("core"), id);
    let items = pm.query_plugins();
    assert_eq!(items.len(), 2);
    assert_eq!(items[0].name, "core");
    assert_eq!(items[0].version, "0.1.0");
    assert_eq!(items[0].description, "the core");
    assert!(items[0].enabled);
    assert_eq!(items[0].plugin_type, "builtin");
    assert_eq!(items[0].error, None);
    assert_eq!(items[1].name, "broken");
    assert!(!items[1].enabled);
    assert_eq!(items[1].plugin_type, "invalid");
    assert_eq!(items[1].error, Some("Missing manifest file (about.toml/json).".to_string()));
}

#[test]
fn builtin_plugin_list_holds_core() {
    let mut loader = cosmox::plugin_loader::PluginLoader::new();
    let list = loader.pre_load_builtin_plugins("0.3.1");
    assert_eq!(list.len(), 1);
    match &list[0] {
        LazyLoadPlugin::BuiltinPlugin { name, version, description } => {
            assert_eq!(name.as_str(), "core");
            assert_eq!(version.to_string(), "0.3.1");
            assert_eq!(description, "");
        }
        other => panic!("unexpected {other:?}"),
    }
}

#[test]
fn disabling_unloads_and_forgets_the_plugin() {
    let mut manager = PluginManager::new();
    match manager.disable(&PluginName::new("core")) {
        Err(PluginError::NotFound(n)) => assert_eq!(n, "core"),
        other => panic!("unexpected {other:?}"),
    }
    let id = manager.plugin_loader.alloc_plugin_id().unwrap();
    let core = LazyLoadPlugin::BuiltinPlugin {
        name: PluginName::new("core"),
        version: Version::from("1.0"),
        description: String::new(),
    };
    let plugin = manager.plugin_loader.load_builtin_plugin(id, core).unwrap();
    manager.plugin_loader.register_plugin(plugin);
    assert!(manager.stat.add_enabled(PluginName::new("core")));
    assert!(manager.disable(&PluginName::new("core")).is_ok());
    assert!(!manager.stat.is_enabled(&PluginName::new("core")));
    assert!(manager.plugin_loader.get_plugin(id).is_none());
}
