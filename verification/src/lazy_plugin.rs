//! What is known of a plugin before it is loaded: its manifest, and the
//! descriptor built from it.

use vstd::prelude::*;

use crate::plugin_loader::{
    PluginLoadError, PluginLoader, PluginPreloadError, PluginRaw, PLUGIN_ID_BITMAP_SIZE,
};
use crate::types::PluginId;
use crate::types::PluginWasmId;
use crate::requirement::{dependency_accepted, parsed_from, Dependency};
use crate::types::PluginName;
use crate::version::{version_parts, Version};

verus! {

/// A plugin's manifest (`about.yaml`).
#[derive(Debug, Default)]
pub struct About {
    pub name: String,
    pub version: String,
    pub license: String,
    pub authors: Vec<String>,
    pub description: Option<String>,
    pub email: Option<String>,
    pub permission: Option<Vec<String>>,
    pub url: Option<String>,
    pub dependencies: Option<Vec<String>>,
    pub conflicts: Option<Vec<String>>,
}

/// A plugin found but not loaded yet.
#[derive(Debug, Clone)]
pub enum LazyLoadPlugin {
    /// A plugin installed in its own directory, described by its manifest.
    ExternalPlugin {
        name: PluginName,
        author: String,
        email: String,
        version: Version,
        description: String,
        path: String,
        permission: Vec<String>,
        dependencies: Option<Vec<Dependency>>,
        conflicts: Option<Vec<Dependency>>,
    },
    /// A plugin that ships with the application.
    BuiltinPlugin { name: PluginName, version: Version, description: String },
    /// A plugin whose manifest could not be read.
    InvalidPlugin { name: PluginName, error: PluginPreloadError },
}

/// The texts of `list` that are well-formed dependencies, in order.
pub open spec fn accepted_texts(list: Seq<Seq<char>>) -> Seq<Seq<char>>
    decreases list.len(),
{
    if list.len() == 0 {
        Seq::empty()
    } else if dependency_accepted(list.last()) {
        accepted_texts(list.drop_last()).push(list.last())
    } else {
        accepted_texts(list.drop_last())
    }
}

/// `deps` are the dependencies parsed from `ts`, one by one.
pub open spec fn parsed_list(deps: Seq<Dependency>, ts: Seq<Seq<char>>) -> bool {
    &&& deps.len() == ts.len()
    &&& forall|k: int| 0 <= k < deps.len() ==> parsed_from(#[trigger] deps[k], ts[k])
}

/// The texts of a list of strings.
pub open spec fn texts(list: Seq<String>) -> Seq<Seq<char>> {
    list.map_values(|s: String| s@)
}

/// Parses each dependency text and keeps those that parse, in order.
pub fn parse_dependencies(list: Option<Vec<String>>) -> (r: Option<Vec<Dependency>>)
    ensures
        list is None <==> r is None,
        r matches Some(deps) ==> parsed_list(deps@, accepted_texts(texts(list->0@))),
{
    match list {
        None => None,
        Some(items) => {
            let ghost all = texts(items@);
            let mut deps: Vec<Dependency> = Vec::new();
            let mut i: usize = 0;
            assert(all.take(0) =~= Seq::<Seq<char>>::empty());
            while i < items.len()
                invariant
                    all == texts(items@),
                    0 <= i <= items.len(),
                    parsed_list(deps@, accepted_texts(all.take(i as int))),
                decreases items.len() - i,
            {
                assert(all.take(i + 1).drop_last() =~= all.take(i as int));
                assert(all.take(i + 1).last() == items@[i as int]@);
                match Dependency::parse(items[i].as_str()) {
                    Ok(d) => {
                        let ghost before = deps@;
                        deps.push(d);
                        let ghost acc = accepted_texts(all.take(i as int));
                        assert(accepted_texts(all.take(i + 1)) == acc.push(items@[i as int]@));
                        assert forall|k: int| 0 <= k < deps@.len() implies parsed_from(
                            #[trigger] deps@[k],
                            acc.push(items@[i as int]@)[k],
                        ) by {
                            if k < before.len() {
                                assert(deps@[k] == before[k]);
                            }
                        }
                    },
                    Err(_) => {},
                }
                i = i + 1;
            }
            assert(all.take(items.len() as int) =~= all);
            Some(deps)
        },
    }
}

/// The descriptor of an external plugin installed at `path` with manifest
/// `manifest`: its dependencies and conflicts are the texts that parse.
pub fn external_plugin_from_manifest(manifest: About, path: String) -> (r: LazyLoadPlugin)
    ensures
        r matches LazyLoadPlugin::ExternalPlugin {
            name,
            author,
            email,
            version,
            description,
            path: p,
            permission,
            dependencies,
            conflicts,
        } && {
            &&& name@ == manifest.name@
            &&& author@ == Seq::<char>::empty()
            &&& email@ == (match manifest.email {
                Some(e) => e@,
                None => Seq::empty(),
            })
            &&& version@ == version_parts(manifest.version@)
            &&& description@ == (match manifest.description {
                Some(d) => d@,
                None => Seq::empty(),
            })
            &&& p@ == path@
            &&& permission@.len() == 0
            &&& (manifest.dependencies is None <==> dependencies is None)
            &&& (dependencies matches Some(d) ==> parsed_list(d@, accepted_texts(
                texts(manifest.dependencies->0@),
            )))
            &&& (manifest.conflicts is None <==> conflicts is None)
            &&& (conflicts matches Some(c) ==> parsed_list(c@, accepted_texts(
                texts(manifest.conflicts->0@),
            )))
        },
{
    let dependencies = parse_dependencies(manifest.dependencies);
    let conflicts = parse_dependencies(manifest.conflicts);
    let name = PluginName(manifest.name);
    let version = Version::from(manifest.version.as_str());
    let description = match manifest.description {
        Some(d) => d,
        None => String::new(),
    };
    let email = match manifest.email {
        Some(e) => e,
        None => String::new(),
    };
    LazyLoadPlugin::ExternalPlugin {
        name,
        author: String::new(),
        email,
        version,
        description,
        path,
        permission: Vec::new(),
        dependencies,
        conflicts,
    }
}

impl PluginLoader {
    /// The builtin plugins: `core`, at the application's version.
    pub fn pre_load_builtin_plugins(&mut self, app_version: &str) -> (r: Vec<LazyLoadPlugin>)
        ensures
            r.len() == 1,
            r[0] matches LazyLoadPlugin::BuiltinPlugin { name, version, description } && name@
                == seq!['c', 'o', 'r', 'e'] && version@ == version_parts(app_version@)
                && description@ == Seq::<char>::empty(),
    {
        let name = PluginName::new("core");
        proof {
            reveal_strlit("core");
        }
        let mut r: Vec<LazyLoadPlugin> = Vec::new();
        r.push(
            LazyLoadPlugin::BuiltinPlugin {
                name,
                version: Version::from(app_version),
                description: String::new(),
            },
        );
        r
    }
}


impl PluginLoader {
    /// Registers `name` under `id`, giving back the id the name had before.
    fn register_name(&mut self, id: PluginId, name: &PluginName)
        requires
            old(self).well_formed(),
            id.0 < PLUGIN_ID_BITMAP_SIZE * 64,
        ensures
            final(self).well_formed(),
            final(self).plugin_names() == old(self).plugin_names().insert(name@, id.0),
            final(self).plugin_ids() == (if old(self).plugin_names().contains_key(name@) {
                old(self).plugin_ids().remove(old(self).plugin_names()[name@] as nat)
            } else {
                old(self).plugin_ids()
            }),
            final(self).wasm_ids() == old(self).wasm_ids(),
            final(self).registered() == old(self).registered(),
    {
        proof {
            self.lemma_registered_ids();
        }
        if let Some(old_id) = self.plugin_id_by_name(name) {
            self.free_plugin_id(old_id);
        }
        self.insert_plugin_name(name.clone(), id);
    }

    /// Makes a builtin plugin of `lz_plugin` under id `id`: its name is
    /// registered under `id` (the id it had before is given back). For a
    /// plugin that is not builtin, `id` is given back and an error returned.
    pub fn load_builtin_plugin(&mut self, id: PluginId, lz_plugin: LazyLoadPlugin) -> (r: Result<
        PluginRaw,
        PluginLoadError,
    >)
        requires
            old(self).well_formed(),
            id.0 < PLUGIN_ID_BITMAP_SIZE * 64,
        ensures
            final(self).well_formed(),
            final(self).wasm_ids() == old(self).wasm_ids(),
            final(self).registered() == old(self).registered(),
            match lz_plugin {
                LazyLoadPlugin::BuiltinPlugin { name, version, description } => {
                    &&& final(self).plugin_names() == old(self).plugin_names().insert(name@, id.0)
                    &&& final(self).plugin_ids() == (if old(self).plugin_names().contains_key(name@) {
                        old(self).plugin_ids().remove(old(self).plugin_names()[name@] as nat)
                    } else {
                        old(self).plugin_ids()
                    })
                    &&& r matches Ok(PluginRaw::BuiltinPlugin { id: i, enable, version: v, name: n, description: d })
                        && i == id && enable && v == version && n == name && d == description
                },
                LazyLoadPlugin::ExternalPlugin { name, .. } => {
                    &&& final(self).plugin_names() == old(self).plugin_names()
                    &&& final(self).plugin_ids() == old(self).plugin_ids().remove(id.0 as nat)
                    &&& r matches Err(PluginLoadError::WasmInstantiationError(a, b)) && a@ == name@
                        && b@ == "Expected a builtin plugin but got an external plugin"@
                },
                LazyLoadPlugin::InvalidPlugin { error, .. } => {
                    &&& final(self).plugin_names() == old(self).plugin_names()
                    &&& final(self).plugin_ids() == old(self).plugin_ids().remove(id.0 as nat)
                    &&& r matches Err(PluginLoadError::PreLoadError(e)) && e == error
                },
            },
    {
        match lz_plugin {
            LazyLoadPlugin::ExternalPlugin { name, .. } => {
                self.free_plugin_id(id);
                Err(
                    PluginLoadError::WasmInstantiationError(
                        name.to_string(),
                        "Expected a builtin plugin but got an external plugin".to_owned(),
                    ),
                )
            },
            LazyLoadPlugin::InvalidPlugin { error, .. } => {
                self.free_plugin_id(id);
                Err(PluginLoadError::PreLoadError(error))
            },
            LazyLoadPlugin::BuiltinPlugin { name, version, description } => {
                self.register_name(id, &name);
                Ok(PluginRaw::BuiltinPlugin { id, enable: true, version, name, description })
            },
        }
    }

    /// Makes an external plugin of `lz_plugin` under id `id`, with the wasm
    /// components loaded for it (`wasm_extensions`, none when empty); it
    /// starts disabled. Its name is registered under `id` (the id it had
    /// before is given back). For a plugin that is not external, `id` is
    /// given back and an error returned.
    pub fn load_external_plugin(
        &mut self,
        id: PluginId,
        lz_plugin: LazyLoadPlugin,
        wasm_extensions: Vec<PluginWasmId>,
    ) -> (r: Result<PluginRaw, PluginLoadError>)
        requires
            old(self).well_formed(),
            id.0 < PLUGIN_ID_BITMAP_SIZE * 64,
        ensures
            final(self).well_formed(),
            final(self).wasm_ids() == old(self).wasm_ids(),
            final(self).registered() == old(self).registered(),
            match lz_plugin {
                LazyLoadPlugin::ExternalPlugin {
                    name,
                    author,
                    email,
                    version,
                    description,
                    dependencies,
                    conflicts,
                    ..
                } => {
                    &&& final(self).plugin_names() == old(self).plugin_names().insert(name@, id.0)
                    &&& final(self).plugin_ids() == (if old(self).plugin_names().contains_key(name@) {
                        old(self).plugin_ids().remove(old(self).plugin_names()[name@] as nat)
                    } else {
                        old(self).plugin_ids()
                    })
                    &&& r matches Ok(
                        PluginRaw::ExternalPlugin {
                            id: i,
                            enable,
                            version: v,
                            name: n,
                            description: d,
                            author: a,
                            email: e,
                            permission: p,
                            wasm_extensions: w,
                            dependencies: deps,
                            conflicts: cs,
                        },
                    ) && i == id && !enable && v == version && n == name && d == description && a
                        == author && e == email && p@.len() == 0 && deps == dependencies && cs
                        == conflicts && (wasm_extensions@.len() == 0 ==> w is None) && (
                    wasm_extensions@.len() > 0 ==> w == Some(wasm_extensions))
                },
                LazyLoadPlugin::BuiltinPlugin { name, .. } => {
                    &&& final(self).plugin_names() == old(self).plugin_names()
                    &&& final(self).plugin_ids() == old(self).plugin_ids().remove(id.0 as nat)
                    &&& r matches Err(PluginLoadError::WasmInstantiationError(a, b)) && a@ == name@
                        && b@ == "Not an external plugin"@
                },
                LazyLoadPlugin::InvalidPlugin { error, .. } => {
                    &&& final(self).plugin_names() == old(self).plugin_names()
                    &&& final(self).plugin_ids() == old(self).plugin_ids().remove(id.0 as nat)
                    &&& r matches Err(PluginLoadError::PreLoadError(e)) && e == error
                },
            },
    {
        match lz_plugin {
            LazyLoadPlugin::InvalidPlugin { error, .. } => {
                self.free_plugin_id(id);
                Err(PluginLoadError::PreLoadError(error))
            },
            LazyLoadPlugin::BuiltinPlugin { name, .. } => {
                self.free_plugin_id(id);
                Err(
                    PluginLoadError::WasmInstantiationError(
                        name.to_string(),
                        "Not an external plugin".to_owned(),
                    ),
                )
            },
            LazyLoadPlugin::ExternalPlugin {
                name,
                author,
                email,
                version,
                description,
                dependencies,
                conflicts,
                ..
            } => {
                let wasm_extensions = if wasm_extensions.len() == 0 {
                    None
                } else {
                    Some(wasm_extensions)
                };
                self.register_name(id, &name);
                Ok(
                    PluginRaw::ExternalPlugin {
                        id,
                        enable: false,
                        name,
                        version,
                        description,
                        author,
                        email,
                        permission: Vec::new(),
                        wasm_extensions,
                        dependencies,
                        conflicts,
                    },
                )
            },
        }
    }
}

} // verus!
