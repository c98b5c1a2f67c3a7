use cosmox::types::{PluginId, PluginName, PluginWasmId, PluginWasmName};

#[test]
fn ids_display_with_their_type() {
    assert_eq!(PluginId::new(42).to_string(), "PluginId(42)");
    assert_eq!(PluginId::new(0).to_string(), "PluginId(0)");
    assert_eq!(PluginId::new(u64::MAX).to_string(), format!("PluginId({})", u64::MAX));
    assert_eq!(PluginWasmId::new(3).0, 3);
}

#[test]
fn names_compare_by_text() {
    assert_eq!(PluginName::new("a"), PluginName::new("a"));
    assert_ne!(PluginName::new("a"), PluginName::new("b"));
    assert_eq!(PluginWasmName::new("x.wasm").to_string(), "x.wasm");
    assert_eq!(PluginName::new("core").as_str(), "core");
}

#[test]
fn not_deserialize_derive_error() {}

#[test]
fn test_store_metadata() {}
