# cosmox

The logic of the cosmox media-library plugin host, its SDK and its tools,
written in Verus: each public function states what it returns in its
`ensures`, and the laws that tie functions together are proof functions.

`src/` is the verified library:

- `version`, `version_order`, `requirement` — plugin versions, their order,
  caret and tilde requirements, and dependency declarations.
- `dependency_graph`, `dependency_check` — the dependency graph of the
  plugins to enable, its problems (missing, conflicting, circular) and the
  batches in which the plugins load.
- `enable_plan` — loading the enabled plugins in batches: ids taken and
  given back, the enabled count, and the loads to perform.
- `plugin_loader`, `id_bitmap`, `lazy_plugin`, `types` — plugin and wasm
  ids, the name registry, and loading plugins from their descriptions.
- `plugin_manager` — the enabled-plugin state, media types, plugin queries.
- `builtin_access` — the built-in roles and permissions a new database
  starts with, and the permissions each built-in role is granted.
- `context`, `metadata_tree`, `scan_tree` — what plugins record through
  their handles: tags, links, and the metadata tree they walk and edit, and
  that tree built from a directory scan.
- `plugin_rules`, `metadata_extend`, `error_macro`, `api_doc`,
  `macro_tokens`, `format_args`, `ipc_view` — the rules and grammars of the
  crate's macros, on plain tokens.
- `generator`, `sql_tables`, `packager`, `sdk`, `sdk_types`, `text` — model
  source generation from SQL scripts (read with sqlparser), plugin
  packaging, the SDK's pure parts, and text helpers.

`app/` is the command-line program and the macro layer around the library:
the loop that loads enabled plugins, directory scans, file and archive
I/O, manifests in JSON, YAML and TOML, and turning Rust syntax into the
library's plain values and back into tokens.

`tests/` runs the library on concrete values.
