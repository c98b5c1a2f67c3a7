//! Plugin metadata, versioning, dependency resolution and the pure parts of
//! the cosmox plugin host, its SDK and its tooling.

pub mod text;
pub mod types;
pub mod version;
pub mod version_order;
pub mod requirement;
pub mod dependency_graph;
pub mod plugin_loader;
pub mod id_bitmap;
pub mod lazy_plugin;
pub mod dependency_check;
pub mod enable_plan;
pub mod format_args;
pub mod context;
pub mod plugin_manager;
pub mod sdk;
pub mod sdk_types;
pub mod generator;
pub mod sql_tables;
pub mod packager;
pub mod macro_tokens;
pub mod plugin_rules;
pub mod error_macro;
pub mod metadata_tree;
pub mod scan_tree;
pub mod metadata_extend;
pub mod api_doc;
pub mod ipc_view;
pub mod builtin_access;
