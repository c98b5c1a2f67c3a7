//! The plugin loader's bookkeeping: id allocation and the errors of
//! dependency resolution.

use vstd::prelude::*;
use vstd::string::*;

use crate::id_bitmap::IdBitmap;
use crate::text::{decimal, decimal_string};
use crate::lazy_plugin::LazyLoadPlugin;
use crate::requirement::Dependency;
use crate::types::{plugin_id_text, PluginId, PluginName, PluginWasmId};
use crate::version::Version;

verus! {

/// What is wrong with one plugin's dependencies.
#[derive(Debug)]
pub enum PluginDependencyErrorInner {
    /// The plugin (displayed as given) is part of, or waits on, a dependency cycle.
    Circular(String),
    /// A dependency is not installed, or not in a version that the plugin accepts.
    Missing { name: PluginName, requirement: String },
    /// An installed plugin is one that this plugin conflicts with.
    Conflict { name: PluginName, conflicting_with: String, reason: String },
}

/// A dependency error, with the id of the plugin it concerns.
#[derive(Debug)]
pub struct PluginDependencyError {
    pub id: PluginId,
    pub error: PluginDependencyErrorInner,
}

/// Why a plugin could not be pre-loaded.
#[derive(Debug)]
pub enum PluginPreloadError {
    InvalidManifest(String),
    MissingManifest,
    PluginIdCapacityReached(usize),
    PluginWasmIdCapacityReached(usize),
}

#[verifier::external_type_specification]
#[verifier::external_body]
pub struct ExIoError(std::io::Error);

#[verifier::external_type_specification]
#[verifier::external_body]
pub struct ExPathBuf(std::path::PathBuf);

/// A user-interface extension of a plugin: where its files lie.
#[derive(Debug)]
pub struct WasmUiExtension {
    pub path: std::path::PathBuf,
}

/// Why a plugin could not be loaded.
#[derive(Debug)]
pub enum PluginLoadError {
    NotFound(String),
    DependencyError(PluginDependencyError),
    WasmInstantiationError(String, String),
    IoError(std::io::Error),
    PreLoadError(PluginPreloadError),
    ParallelBatchError(usize),
    EngineIncompatible { id: String, required: String, current: String },
    BatchFailure(usize),
}

/// Number of bitmap words for plugin ids (`u16::MAX >> 6`).
pub const PLUGIN_ID_BITMAP_SIZE: usize = 1023;

/// The most plugins the loader reports it can hold (`u16::MAX`).
pub const PLUGIN_LIMIT: usize = 65535;

/// Number of bitmap words for wasm component ids (`u16::MAX >> 6`).
pub const PLUGIN_WASM_ID_BITMAP_SIZE: usize = 1023;

/// The most wasm components the loader reports it can hold (`u16::MAX`).
pub const PLUGIN_WASM_LIMIT: usize = 65535;

/// What `Display` shows for an inner dependency error.
pub open spec fn inner_error_text(e: PluginDependencyErrorInner) -> Seq<char> {
    match e {
        PluginDependencyErrorInner::Circular(s) => "Dependency cycle detected involving plugin "@
            + s@,
        PluginDependencyErrorInner::Missing { name, requirement } =>
            "Missing required dependency: "@ + requirement@ + " (required by "@ + name@ + ")"@,
        PluginDependencyErrorInner::Conflict { name, conflicting_with, reason } =>
            "Conflict detected: Plugin '"@ + name@ + "' conflicts with '"@ + conflicting_with@
            + "'. Reason is "@ + reason@,
    }
}

impl PluginDependencyErrorInner {
    /// The error as text (what `Display` shows).
    pub fn to_string(&self) -> (r: String)
        ensures
            r@ == inner_error_text(*self),
    {
        match self {
            PluginDependencyErrorInner::Circular(s) => {
                let mut m = "Dependency cycle detected involving plugin ".to_owned();
                m.append(s.as_str());
                m
            },
            PluginDependencyErrorInner::Missing { name, requirement } => {
                let mut m = "Missing required dependency: ".to_owned();
                m.append(requirement.as_str());
                m.append(" (required by ");
                m.append(name.as_str());
                m.append(")");
                m
            },
            PluginDependencyErrorInner::Conflict { name, conflicting_with, reason } => {
                let mut m = "Conflict detected: Plugin '".to_owned();
                m.append(name.as_str());
                m.append("' conflicts with '");
                m.append(conflicting_with.as_str());
                m.append("'. Reason is ");
                m.append(reason.as_str());
                m
            },
        }
    }
}

impl PluginDependencyError {
    /// The error as text (what `Display` shows): the inner error, then the
    /// plugin's id.
    pub fn to_string(&self) -> (r: String)
        ensures
            r@ == inner_error_text(self.error) + " (plugin id is "@ + plugin_id_text(self.id.0 as nat)
                + ")"@,
    {
        let mut m = self.error.to_string();
        m.append(" (plugin id is ");
        m.append(self.id.to_string().as_str());
        m.append(")");
        m
    }
}

/// What `Display` shows for a pre-load error.
pub open spec fn preload_error_text(e: PluginPreloadError) -> Seq<char> {
    match e {
        PluginPreloadError::InvalidManifest(s) => "Plugin metadata is invalid "@ + s@,
        PluginPreloadError::MissingManifest => "Missing manifest file (about.toml/json)."@,
        PluginPreloadError::PluginIdCapacityReached(n) =>
            "Plugin ID allocation failed, the maximum capacity of "@ + decimal(n as nat)
            + " has been reached"@,
        PluginPreloadError::PluginWasmIdCapacityReached(n) =>
            "Plugin Wasm ID allocation failed, the maximum capacity of "@ + decimal(n as nat)
            + " has been reached"@,
    }
}

impl PluginPreloadError {
    /// The error as text (what `Display` shows).
    pub fn to_string(&self) -> (r: String)
        ensures
            r@ == preload_error_text(*self),
    {
        match self {
            PluginPreloadError::InvalidManifest(s) => {
                let mut m = "Plugin metadata is invalid ".to_owned();
                m.append(s.as_str());
                m
            },
            PluginPreloadError::MissingManifest => "Missing manifest file (about.toml/json).".to_owned(),
            PluginPreloadError::PluginIdCapacityReached(n) => {
                let mut m = "Plugin ID allocation failed, the maximum capacity of ".to_owned();
                m.append(decimal_string(*n as u64).as_str());
                m.append(" has been reached");
                m
            },
            PluginPreloadError::PluginWasmIdCapacityReached(n) => {
                let mut m = "Plugin Wasm ID allocation failed, the maximum capacity of ".to_owned();
                m.append(decimal_string(*n as u64).as_str());
                m.append(" has been reached");
                m
            },
        }
    }
}

/// The two errors are the same variant with the same text and numbers.
pub open spec fn same_preload_error(a: PluginPreloadError, b: PluginPreloadError) -> bool {
    match (a, b) {
        (PluginPreloadError::InvalidManifest(x), PluginPreloadError::InvalidManifest(y)) => x@ == y@,
        (PluginPreloadError::MissingManifest, PluginPreloadError::MissingManifest) => true,
        (PluginPreloadError::PluginIdCapacityReached(x), PluginPreloadError::PluginIdCapacityReached(y)) => x == y,
        (PluginPreloadError::PluginWasmIdCapacityReached(x), PluginPreloadError::PluginWasmIdCapacityReached(y)) => x == y,
        _ => false,
    }
}

impl Clone for PluginPreloadError {
    fn clone(&self) -> (r: Self)
        ensures
            same_preload_error(r, *self),
    {
        match self {
            PluginPreloadError::InvalidManifest(s) => PluginPreloadError::InvalidManifest(s.clone()),
            PluginPreloadError::MissingManifest => PluginPreloadError::MissingManifest,
            PluginPreloadError::PluginIdCapacityReached(n) => PluginPreloadError::PluginIdCapacityReached(*n),
            PluginPreloadError::PluginWasmIdCapacityReached(n) => PluginPreloadError::PluginWasmIdCapacityReached(*n),
        }
    }
}

/// A loaded plugin; its wasm components are referred to by id.
#[derive(Debug)]
pub enum PluginRaw {
    ExternalPlugin {
        id: PluginId,
        enable: bool,
        version: Version,
        name: PluginName,
        description: String,
        author: String,
        email: String,
        permission: Vec<String>,
        wasm_extensions: Option<Vec<PluginWasmId>>,
        dependencies: Option<Vec<Dependency>>,
        conflicts: Option<Vec<Dependency>>,
    },
    BuiltinPlugin { id: PluginId, enable: bool, version: Version, name: PluginName, description: String },
}

impl PluginRaw {
    pub fn id(&self) -> (r: PluginId)
        ensures
            r == (match *self {
                PluginRaw::BuiltinPlugin { id, .. } => id,
                PluginRaw::ExternalPlugin { id, .. } => id,
            }),
    {
        match self {
            PluginRaw::BuiltinPlugin { id, .. } => *id,
            PluginRaw::ExternalPlugin { id, .. } => *id,
        }
    }

    pub fn name(&self) -> (r: PluginName)
        ensures
            r@ == (match *self {
                PluginRaw::BuiltinPlugin { name, .. } => name@,
                PluginRaw::ExternalPlugin { name, .. } => name@,
            }),
    {
        match self {
            PluginRaw::BuiltinPlugin { name, .. } => name.clone(),
            PluginRaw::ExternalPlugin { name, .. } => name.clone(),
        }
    }

    pub fn version(&self) -> (r: &Version)
        ensures
            r@ == (match *self {
                PluginRaw::BuiltinPlugin { version, .. } => version@,
                PluginRaw::ExternalPlugin { version, .. } => version@,
            }),
    {
        match self {
            PluginRaw::BuiltinPlugin { version, .. } => version,
            PluginRaw::ExternalPlugin { version, .. } => version,
        }
    }
}

/// The id registered for each name in an association list (a later entry
/// for a name hides an earlier one).
pub open spec fn name_map(s: Seq<(PluginName, PluginId)>) -> Map<Seq<char>, u64>
    decreases s.len(),
{
    if s.len() == 0 {
        Map::empty()
    } else {
        name_map(s.drop_last()).insert(s.last().0@, s.last().1.0)
    }
}

proof fn lemma_name_map_update(s: Seq<(PluginName, PluginId)>, i: int, e: (PluginName, PluginId))
    requires
        0 <= i < s.len(),
        e.0@ == s[i].0@,
        forall|j: int| 0 <= j < s.len() && j != i ==> s[j].0@ != s[i].0@,
    ensures
        name_map(s.update(i, e)) == name_map(s).insert(e.0@, e.1.0),
    decreases s.len(),
{
    let t = s.update(i, e);
    if i == s.len() - 1 {
        assert(t.drop_last() =~= s.drop_last());
        assert(name_map(t) =~= name_map(s).insert(e.0@, e.1.0));
    } else {
        assert(t.drop_last() =~= s.drop_last().update(i, e));
        lemma_name_map_update(s.drop_last(), i, e);
        assert(name_map(t) =~= name_map(s).insert(e.0@, e.1.0));
    }
}

proof fn lemma_name_map_absent(s: Seq<(PluginName, PluginId)>, name: Seq<char>)
    requires
        forall|j: int| 0 <= j < s.len() ==> s[j].0@ != name,
    ensures
        !name_map(s).contains_key(name),
    decreases s.len(),
{
    if s.len() > 0 {
        lemma_name_map_absent(s.drop_last(), name);
    }
}

proof fn lemma_name_map_at(s: Seq<(PluginName, PluginId)>, i: int)
    requires
        0 <= i < s.len(),
        forall|j: int| 0 <= j < s.len() && j != i ==> s[j].0@ != s[i].0@,
    ensures
        name_map(s).contains_key(s[i].0@),
        name_map(s)[s[i].0@] == s[i].1.0,
    decreases s.len(),
{
    if i < s.len() - 1 {
        lemma_name_map_at(s.drop_last(), i);
    }
}

/// Bookkeeping of the plugin loader: which plugin and wasm ids are taken,
/// and the id each loaded plugin's name is registered under.
pub struct PluginLoader {
    plugin_ids_bitmap: IdBitmap,
    wasm_components_ids_bitmap: IdBitmap,
    plugin_names: Vec<(PluginName, PluginId)>,
    lazy_load_plugins_list: Vec<LazyLoadPlugin>,
    plugins: Vec<PluginRaw>,
    plugin_enable_count: usize,
}

/// The id of a loaded plugin.
pub open spec fn raw_id(p: PluginRaw) -> u64 {
    match p {
        PluginRaw::BuiltinPlugin { id, .. } => id.0,
        PluginRaw::ExternalPlugin { id, .. } => id.0,
    }
}

/// The wasm component ids of a loaded plugin.
pub open spec fn raw_wasm_ids(p: PluginRaw) -> Seq<PluginWasmId> {
    match p {
        PluginRaw::ExternalPlugin { wasm_extensions: Some(v), .. } => v@,
        _ => seq![],
    }
}

/// The loaded plugins of a registry, by id.
pub open spec fn plugin_map(s: Seq<PluginRaw>) -> Map<u64, PluginRaw>
    decreases s.len(),
{
    if s.len() == 0 {
        Map::empty()
    } else {
        plugin_map(s.drop_last()).insert(raw_id(s.last()), s.last())
    }
}

/// The wasm ids in `w`, as a set.
pub open spec fn wasm_id_set(w: Seq<PluginWasmId>) -> Set<nat> {
    Set::new(|n: nat| exists|k: int| 0 <= k < w.len() && w[k].0 == n)
}

impl PluginLoader {
    pub closed spec fn well_formed(&self) -> bool {
        &&& self.plugin_ids_bitmap.well_formed()
        &&& self.wasm_components_ids_bitmap.well_formed()
        &&& self.plugin_ids_bitmap.capacity() == PLUGIN_ID_BITMAP_SIZE * 64
        &&& self.wasm_components_ids_bitmap.capacity() == PLUGIN_WASM_ID_BITMAP_SIZE * 64
        &&& forall|i: int, j: int|
            0 <= i < j < self.plugin_names@.len() ==> self.plugin_names@[i].0@
                != self.plugin_names@[j].0@
        &&& forall|i: int|
            0 <= i < self.plugin_names@.len() ==> (#[trigger] self.plugin_names@[i]).1.0
                < PLUGIN_ID_BITMAP_SIZE * 64
        &&& forall|i: int, j: int|
            0 <= i < j < self.plugins@.len() ==> raw_id(self.plugins@[i]) != raw_id(
                self.plugins@[j],
            )
        &&& forall|i: int|
            0 <= i < self.plugins@.len() ==> raw_id(#[trigger] self.plugins@[i])
                < PLUGIN_ID_BITMAP_SIZE * 64
        &&& forall|i: int, k: int|
            0 <= i < self.plugins@.len() && 0 <= k < raw_wasm_ids(self.plugins@[i]).len()
                ==> (#[trigger] raw_wasm_ids(#[trigger] self.plugins@[i])[k]).0
                < PLUGIN_WASM_ID_BITMAP_SIZE * 64
    }

    /// The loaded plugins, by id.
    pub closed spec fn registered(&self) -> Map<u64, PluginRaw> {
        plugin_map(self.plugins@)
    }

    /// The id registered for each plugin name.
    pub closed spec fn plugin_names(&self) -> Map<Seq<char>, u64> {
        name_map(self.plugin_names@)
    }

    /// How many plugins are counted as enabled.
    pub closed spec fn enable_count(&self) -> nat {
        self.plugin_enable_count as nat
    }

    /// How many plugins are counted as enabled.
    pub fn plugin_enable_count(&self) -> (r: usize)
        ensures
            r == self.enable_count(),
    {
        self.plugin_enable_count
    }

    /// Counts `n` more plugins as enabled.
    pub fn count_enabled(&mut self, n: usize)
        requires
            old(self).well_formed(),
            old(self).enable_count() + n <= usize::MAX,
        ensures
            final(self).well_formed(),
            final(self).enable_count() == old(self).enable_count() + n,
            final(self).registered() == old(self).registered(),
            final(self).lazy_plugins() == old(self).lazy_plugins(),
            final(self).plugin_ids() == old(self).plugin_ids(),
            final(self).wasm_ids() == old(self).wasm_ids(),
            final(self).plugin_names() == old(self).plugin_names(),
    {
        self.plugin_enable_count = self.plugin_enable_count + n;
    }

    /// The plugins found so far, loaded or not.
    pub closed spec fn lazy_plugins(&self) -> Seq<LazyLoadPlugin> {
        self.lazy_load_plugins_list@
    }

    /// The plugins found so far, loaded or not.
    pub fn lazy_load_plugins(&self) -> (r: &Vec<LazyLoadPlugin>)
        ensures
            r@ == self.lazy_plugins(),
    {
        &self.lazy_load_plugins_list
    }

    /// Adds `found` to the plugins found so far.
    pub fn add_lazy_plugins(&mut self, found: Vec<LazyLoadPlugin>)
        requires
            old(self).well_formed(),
        ensures
            final(self).well_formed(),
            final(self).lazy_plugins() == old(self).lazy_plugins() + found@,
            final(self).registered() == old(self).registered(),
            final(self).plugin_names() == old(self).plugin_names(),
            final(self).plugin_ids() == old(self).plugin_ids(),
            final(self).wasm_ids() == old(self).wasm_ids(),
    {
        let mut found = found;
        self.lazy_load_plugins_list.append(&mut found);
    }

    /// Registered ids are ids the loader can hand out.
    pub proof fn lemma_registered_ids(&self)
        requires
            self.well_formed(),
        ensures
            forall|n: Seq<char>| #[trigger] self.plugin_names().contains_key(n) ==> self.plugin_names()[n]
                < PLUGIN_ID_BITMAP_SIZE * 64,
    {
        assert forall|n: Seq<char>| #[trigger] self.plugin_names().contains_key(n) implies self.plugin_names()[n]
            < PLUGIN_ID_BITMAP_SIZE * 64 by {
            let s = self.plugin_names@;
            if exists|j: int| 0 <= j < s.len() && s[j].0@ == n {
                let j = choose|j: int| 0 <= j < s.len() && s[j].0@ == n;
                lemma_name_map_at(s, j);
            } else {
                lemma_name_map_absent(s, n);
            }
        }
    }

    /// The position of `name` in the registry.
    fn name_position(&self, name: &PluginName) -> (r: Option<usize>)
        requires
            self.well_formed(),
        ensures
            r matches Some(i) ==> i < self.plugin_names@.len() && self.plugin_names@[i as int].0@
                == name@,
            r is None ==> forall|j: int| 0 <= j < self.plugin_names@.len() ==> self.plugin_names@[j].0@ != name@,
    {
        let mut i: usize = 0;
        while i < self.plugin_names.len()
            invariant
                0 <= i <= self.plugin_names@.len(),
                forall|j: int| 0 <= j < i ==> self.plugin_names@[j].0@ != name@,
            decreases self.plugin_names.len() - i,
        {
            if self.plugin_names[i].0 == *name {
                return Some(i);
            }
            i = i + 1;
        }
        None
    }

    /// The id registered for `name`.
    pub fn plugin_id_by_name(&self, name: &PluginName) -> (r: Option<PluginId>)
        requires
            self.well_formed(),
        ensures
            match r {
                Some(id) => self.plugin_names().contains_key(name@) && self.plugin_names()[name@] == id.0,
                None => !self.plugin_names().contains_key(name@),
            },
    {
        match self.name_position(name) {
            Some(i) => {
                proof {
                    lemma_name_map_at(self.plugin_names@, i as int);
                }
                Some(self.plugin_names[i].1)
            },
            None => {
                proof {
                    lemma_name_map_absent(self.plugin_names@, name@);
                }
                None
            },
        }
    }

    /// Registers `plugin_name` under `plugin_id`, replacing any id it had.
    pub fn insert_plugin_name(&mut self, plugin_name: PluginName, plugin_id: PluginId)
        requires
            old(self).well_formed(),
            plugin_id.0 < PLUGIN_ID_BITMAP_SIZE * 64,
        ensures
            final(self).well_formed(),
            final(self).plugin_names() == old(self).plugin_names().insert(plugin_name@, plugin_id.0),
            final(self).plugin_ids() == old(self).plugin_ids(),
            final(self).wasm_ids() == old(self).wasm_ids(),
            final(self).registered() == old(self).registered(),
            final(self).lazy_plugins() == old(self).lazy_plugins(),
    {
        let ghost s = self.plugin_names@;
        let ghost key = plugin_name@;
        match self.name_position(&plugin_name) {
            Some(i) => {
                let ghost e = (plugin_name, plugin_id);
                self.plugin_names.set(i, (plugin_name, plugin_id));
                proof {
                    lemma_name_map_update(s, i as int, e);
                }
            },
            None => {
                let ghost e = (plugin_name, plugin_id);
                self.plugin_names.push((plugin_name, plugin_id));
                assert(self.plugin_names@.drop_last() =~= s);
            },
        }
    }

    /// The plugin ids that are taken.
    pub closed spec fn plugin_ids(&self) -> Set<nat> {
        self.plugin_ids_bitmap.ids()
    }

    /// The wasm component ids that are taken.
    pub closed spec fn wasm_ids(&self) -> Set<nat> {
        self.wasm_components_ids_bitmap.ids()
    }

    /// A loader with no id taken.
    pub fn new() -> (r: Self)
        ensures
            r.well_formed(),
            r.plugin_ids() == Set::<nat>::empty(),
            r.wasm_ids() == Set::<nat>::empty(),
            r.plugin_names() == Map::<Seq<char>, u64>::empty(),
            r.lazy_plugins() == Seq::<LazyLoadPlugin>::empty(),
            r.registered() == Map::<u64, PluginRaw>::empty(),
            r.enable_count() == 0,
    {
        let r = PluginLoader {
            plugin_ids_bitmap: IdBitmap::new(PLUGIN_ID_BITMAP_SIZE),
            wasm_components_ids_bitmap: IdBitmap::new(PLUGIN_WASM_ID_BITMAP_SIZE),
            plugin_names: Vec::new(),
            lazy_load_plugins_list: Vec::new(),
            plugins: Vec::new(),
            plugin_enable_count: 0,
        };
        assert(r.plugin_names() =~= Map::<Seq<char>, u64>::empty());
        assert(r.registered() =~= Map::<u64, PluginRaw>::empty());
        r
    }

    /// Takes the smallest free plugin id; fails once all of them are taken.
    pub fn alloc_plugin_id(&mut self) -> (r: Result<PluginId, PluginLoadError>)
        requires
            old(self).well_formed(),
        ensures
            final(self).well_formed(),
            final(self).enable_count() == old(self).enable_count(),
            final(self).registered() == old(self).registered(),
            final(self).lazy_plugins() == old(self).lazy_plugins(),
            final(self).wasm_ids() == old(self).wasm_ids(),
            final(self).plugin_names() == old(self).plugin_names(),
            match r {
                Ok(id) => {
                    &&& id.0 < PLUGIN_ID_BITMAP_SIZE * 64
                    &&& !old(self).plugin_ids().contains(id.0 as nat)
                    &&& forall|j: nat| j < id.0 ==> #[trigger] old(self).plugin_ids().contains(j)
                    &&& final(self).plugin_ids() == old(self).plugin_ids().insert(id.0 as nat)
                },
                Err(e) => {
                    &&& forall|j: nat| j < PLUGIN_ID_BITMAP_SIZE * 64 ==> #[trigger] old(self).plugin_ids().contains(j)
                    &&& final(self).plugin_ids() == old(self).plugin_ids()
                    &&& e matches PluginLoadError::PreLoadError(PluginPreloadError::PluginIdCapacityReached(n)) && n == PLUGIN_LIMIT
                },
            },
    {
        match self.plugin_ids_bitmap.take_smallest() {
            Some(id) => Ok(PluginId::new(id)),
            None => Err(PluginLoadError::PreLoadError(PluginPreloadError::PluginIdCapacityReached(PLUGIN_LIMIT))),
        }
    }

    /// Gives plugin id `plugin_id` back.
    pub fn free_plugin_id(&mut self, plugin_id: PluginId)
        requires
            old(self).well_formed(),
            plugin_id.0 < PLUGIN_ID_BITMAP_SIZE * 64,
        ensures
            final(self).well_formed(),
            final(self).enable_count() == old(self).enable_count(),
            final(self).registered() == old(self).registered(),
            final(self).lazy_plugins() == old(self).lazy_plugins(),
            final(self).plugin_ids() == old(self).plugin_ids().remove(plugin_id.0 as nat),
            final(self).wasm_ids() == old(self).wasm_ids(),
            final(self).plugin_names() == old(self).plugin_names(),
    {
        self.plugin_ids_bitmap.free(plugin_id.0);
    }

    /// Takes the smallest free wasm component id; fails once all of them are
    /// taken.
    pub fn alloc_plugin_wasm_id(&mut self) -> (r: Result<PluginWasmId, PluginLoadError>)
        requires
            old(self).well_formed(),
        ensures
            final(self).well_formed(),
            final(self).enable_count() == old(self).enable_count(),
            final(self).registered() == old(self).registered(),
            final(self).lazy_plugins() == old(self).lazy_plugins(),
            final(self).plugin_ids() == old(self).plugin_ids(),
            final(self).plugin_names() == old(self).plugin_names(),
            match r {
                Ok(id) => {
                    &&& id.0 < PLUGIN_WASM_ID_BITMAP_SIZE * 64
                    &&& !old(self).wasm_ids().contains(id.0 as nat)
                    &&& forall|j: nat| j < id.0 ==> #[trigger] old(self).wasm_ids().contains(j)
                    &&& final(self).wasm_ids() == old(self).wasm_ids().insert(id.0 as nat)
                },
                Err(e) => {
                    &&& forall|j: nat| j < PLUGIN_WASM_ID_BITMAP_SIZE * 64 ==> #[trigger] old(self).wasm_ids().contains(j)
                    &&& final(self).wasm_ids() == old(self).wasm_ids()
                    &&& e matches PluginLoadError::PreLoadError(PluginPreloadError::PluginWasmIdCapacityReached(n)) && n == PLUGIN_WASM_LIMIT
                },
            },
    {
        match self.wasm_components_ids_bitmap.take_smallest() {
            Some(id) => Ok(PluginWasmId::new(id)),
            None => Err(PluginLoadError::PreLoadError(PluginPreloadError::PluginWasmIdCapacityReached(PLUGIN_WASM_LIMIT))),
        }
    }

    /// Gives wasm component id `plugin_wasm_id` back.
    pub fn free_plugin_wasm_id(&mut self, plugin_wasm_id: PluginWasmId)
        requires
            old(self).well_formed(),
            plugin_wasm_id.0 < PLUGIN_WASM_ID_BITMAP_SIZE * 64,
        ensures
            final(self).well_formed(),
            final(self).enable_count() == old(self).enable_count(),
            final(self).registered() == old(self).registered(),
            final(self).lazy_plugins() == old(self).lazy_plugins(),
            final(self).wasm_ids() == old(self).wasm_ids().remove(plugin_wasm_id.0 as nat),
            final(self).plugin_ids() == old(self).plugin_ids(),
            final(self).plugin_names() == old(self).plugin_names(),
    {
        self.wasm_components_ids_bitmap.free(plugin_wasm_id.0);
    }
}

proof fn lemma_plugin_map_at(s: Seq<PluginRaw>, i: int)
    requires
        0 <= i < s.len(),
        forall|j: int| 0 <= j < s.len() && j != i ==> raw_id(s[j]) != raw_id(s[i]),
    ensures
        plugin_map(s).contains_key(raw_id(s[i])),
        plugin_map(s)[raw_id(s[i])] == s[i],
    decreases s.len(),
{
    if i < s.len() - 1 {
        lemma_plugin_map_at(s.drop_last(), i);
    }
}

proof fn lemma_plugin_map_absent(s: Seq<PluginRaw>, id: u64)
    requires
        forall|j: int| 0 <= j < s.len() ==> raw_id(s[j]) != id,
    ensures
        !plugin_map(s).contains_key(id),
    decreases s.len(),
{
    if s.len() > 0 {
        lemma_plugin_map_absent(s.drop_last(), id);
    }
}

proof fn lemma_plugin_map_update(s: Seq<PluginRaw>, i: int, p: PluginRaw)
    requires
        0 <= i < s.len(),
        raw_id(p) == raw_id(s[i]),
        forall|j: int| 0 <= j < s.len() && j != i ==> raw_id(s[j]) != raw_id(s[i]),
    ensures
        plugin_map(s.update(i, p)) == plugin_map(s).insert(raw_id(p), p),
    decreases s.len(),
{
    let t = s.update(i, p);
    if i == s.len() - 1 {
        assert(t.drop_last() =~= s.drop_last());
        assert(plugin_map(t) =~= plugin_map(s).insert(raw_id(p), p));
    } else {
        assert(t.drop_last() =~= s.drop_last().update(i, p));
        lemma_plugin_map_update(s.drop_last(), i, p);
        assert(plugin_map(t) =~= plugin_map(s).insert(raw_id(p), p));
    }
}

proof fn lemma_plugin_map_remove(s: Seq<PluginRaw>, i: int)
    requires
        0 <= i < s.len(),
        forall|a: int, b: int| 0 <= a < b < s.len() ==> raw_id(s[a]) != raw_id(s[b]),
    ensures
        plugin_map(s.remove(i)) == plugin_map(s).remove(raw_id(s[i])),
    decreases s.len(),
{
    let t = s.remove(i);
    if i == s.len() - 1 {
        assert(t =~= s.drop_last());
        assert forall|a: int| 0 <= a < s.drop_last().len() implies raw_id(s.drop_last()[a]) != raw_id(s[i]) by {
            assert(raw_id(s[a]) != raw_id(s[i]));
        }
        lemma_plugin_map_absent(s.drop_last(), raw_id(s[i]));
        assert(plugin_map(t) =~= plugin_map(s).remove(raw_id(s[i])));
    } else {
        assert(t.drop_last() =~= s.drop_last().remove(i));
        assert(t.last() == s.last());
        lemma_plugin_map_remove(s.drop_last(), i);
        assert(raw_id(s.last()) != raw_id(s[i]));
        assert(plugin_map(t) =~= plugin_map(s).remove(raw_id(s[i])));
    }
}

proof fn lemma_name_map_remove(s: Seq<(PluginName, PluginId)>, i: int)
    requires
        0 <= i < s.len(),
        forall|a: int, b: int| 0 <= a < b < s.len() ==> s[a].0@ != s[b].0@,
    ensures
        name_map(s.remove(i)) == name_map(s).remove(s[i].0@),
    decreases s.len(),
{
    let t = s.remove(i);
    if i == s.len() - 1 {
        assert(t =~= s.drop_last());
        assert forall|a: int| 0 <= a < s.drop_last().len() implies s.drop_last()[a].0@ != s[i].0@ by {
            assert(s[a].0@ != s[i].0@);
        }
        lemma_name_map_absent(s.drop_last(), s[i].0@);
        assert(name_map(t) =~= name_map(s).remove(s[i].0@));
    } else {
        assert(t.drop_last() =~= s.drop_last().remove(i));
        assert(t.last() == s.last());
        lemma_name_map_remove(s.drop_last(), i);
        assert(s.last().0@ != s[i].0@);
        assert(name_map(t) =~= name_map(s).remove(s[i].0@));
    }
}

impl PluginLoader {
    /// The position of the plugin with id `id` in the registry.
    fn plugin_position(&self, id: u64) -> (r: Option<usize>)
        ensures
            r matches Some(i) ==> i < self.plugins@.len() && raw_id(self.plugins@[i as int]) == id,
            r is None ==> forall|j: int| 0 <= j < self.plugins@.len() ==> raw_id(self.plugins@[j]) != id,
    {
        let mut i: usize = 0;
        while i < self.plugins.len()
            invariant
                0 <= i <= self.plugins@.len(),
                forall|j: int| 0 <= j < i ==> raw_id(self.plugins@[j]) != id,
            decreases self.plugins.len() - i,
        {
            if self.plugins[i].id().0 == id {
                return Some(i);
            }
            i = i + 1;
        }
        None
    }

    /// Registers a loaded plugin under its id, replacing the plugin loaded
    /// under that id before.
    pub fn register_plugin(&mut self, plugin: PluginRaw)
        requires
            old(self).well_formed(),
            raw_id(plugin) < PLUGIN_ID_BITMAP_SIZE * 64,
            forall|k: int|
                0 <= k < raw_wasm_ids(plugin).len() ==> (#[trigger] raw_wasm_ids(plugin)[k]).0
                    < PLUGIN_WASM_ID_BITMAP_SIZE * 64,
        ensures
            final(self).well_formed(),
            final(self).enable_count() == old(self).enable_count(),
            final(self).registered() == old(self).registered().insert(raw_id(plugin), plugin),
            final(self).plugin_names() == old(self).plugin_names(),
            final(self).plugin_ids() == old(self).plugin_ids(),
            final(self).wasm_ids() == old(self).wasm_ids(),
            final(self).lazy_plugins() == old(self).lazy_plugins(),
    {
        let ghost s = self.plugins@;
        let id = plugin.id().0;
        match self.plugin_position(id) {
            Some(i) => {
                let ghost p = plugin;
                self.plugins.set(i, plugin);
                proof {
                    lemma_plugin_map_update(s, i as int, p);
                }
            },
            None => {
                self.plugins.push(plugin);
                assert(self.plugins@.drop_last() =~= s);
            },
        }
    }

    /// The plugin loaded under `plugin_id`, if any.
    pub fn get_plugin(&self, plugin_id: PluginId) -> (r: Option<&PluginRaw>)
        requires
            self.well_formed(),
        ensures
            match r {
                Some(p) => self.registered().contains_key(plugin_id.0) && *p == self.registered()[plugin_id.0],
                None => !self.registered().contains_key(plugin_id.0),
            },
    {
        match self.plugin_position(plugin_id.0) {
            Some(i) => {
                proof {
                    lemma_plugin_map_at(self.plugins@, i as int);
                }
                Some(&self.plugins[i])
            },
            None => {
                proof {
                    lemma_plugin_map_absent(self.plugins@, plugin_id.0);
                }
                None
            },
        }
    }

    /// Unloads the plugin registered under `plugin`: its wasm component ids
    /// and its plugin id are given back, its name and its entry among the
    /// loaded plugins are removed, and one fewer plugin is counted as
    /// enabled (never below zero). Returns the freed plugin id, or none
    /// when no plugin has that name.
    pub fn unload_plugin(&mut self, plugin: &PluginName) -> (r: Option<PluginId>)
        requires
            old(self).well_formed(),
        ensures
            final(self).well_formed(),
            final(self).lazy_plugins() == old(self).lazy_plugins(),
            match r {
                None => {
                    &&& !old(self).plugin_names().contains_key(plugin@)
                    &&& final(self).enable_count() == old(self).enable_count()
                    &&& final(self).plugin_names() == old(self).plugin_names()
                    &&& final(self).plugin_ids() == old(self).plugin_ids()
                    &&& final(self).wasm_ids() == old(self).wasm_ids()
                    &&& final(self).registered() == old(self).registered()
                },
                Some(id) => {
                    &&& old(self).plugin_names().contains_key(plugin@)
                    &&& id.0 == old(self).plugin_names()[plugin@]
                    &&& final(self).enable_count() == if old(self).enable_count() > 0 {
                        old(self).enable_count() - 1
                    } else {
                        0
                    }
                    &&& final(self).plugin_names() == old(self).plugin_names().remove(plugin@)
                    &&& final(self).plugin_ids() == old(self).plugin_ids().remove(id.0 as nat)
                    &&& final(self).registered() == old(self).registered().remove(id.0)
                    &&& final(self).wasm_ids() == if old(self).registered().contains_key(id.0) {
                        old(self).wasm_ids().difference(
                            wasm_id_set(raw_wasm_ids(old(self).registered()[id.0])),
                        )
                    } else {
                        old(self).wasm_ids()
                    }
                },
            },
    {
        let pos = match self.name_position(plugin) {
            Some(i) => i,
            None => {
                proof {
                    lemma_name_map_absent(self.plugin_names@, plugin@);
                }
                return None;
            },
        };
        proof {
            lemma_name_map_at(self.plugin_names@, pos as int);
        }
        let id = self.plugin_names[pos].1;
        let old_count = self.plugin_enable_count;
        let ghost old_self = *self;
        let wasm_ids: Vec<PluginWasmId> = match self.plugin_position(id.0) {
            Some(i) => {
                proof {
                    lemma_plugin_map_at(self.plugins@, i as int);
                    lemma_plugin_map_remove(self.plugins@, i as int);
                }
                let p = self.plugins.remove(i);
                match p {
                    PluginRaw::ExternalPlugin { wasm_extensions: Some(v), .. } => v,
                    _ => Vec::new(),
                }
            },
            None => {
                proof {
                    lemma_plugin_map_absent(self.plugins@, id.0);
                    assert(old_self.registered().remove(id.0) =~= old_self.registered());
                }
                Vec::new()
            },
        };
        proof {
            lemma_name_map_remove(self.plugin_names@, pos as int);
        }
        self.plugin_names.remove(pos);
        self.free_plugin_id(id);
        let ghost freed = wasm_id_set(wasm_ids@);
        proof {
            assert forall|k: int| 0 <= k < wasm_ids@.len() implies (#[trigger] wasm_ids@[k]).0
                < PLUGIN_WASM_ID_BITMAP_SIZE * 64 by {
                if old_self.registered().contains_key(id.0) {
                    let i = choose|i: int| 0 <= i < old_self.plugins@.len() && raw_id(old_self.plugins@[i]) == id.0;
                    lemma_plugin_map_at(old_self.plugins@, i);
                    assert(raw_wasm_ids(old_self.plugins@[i])[k] == wasm_ids@[k]);
                }
            }
        }
        let mut k: usize = 0;
        while k < wasm_ids.len()
            invariant
                self.well_formed(),
                k <= wasm_ids@.len(),
                forall|q: int| 0 <= q < wasm_ids@.len() ==> (#[trigger] wasm_ids@[q]).0
                    < PLUGIN_WASM_ID_BITMAP_SIZE * 64,
                self.wasm_ids() == old_self.wasm_ids().difference(wasm_id_set(wasm_ids@.take(k as int))),
                self.plugin_ids() == old_self.plugin_ids().remove(id.0 as nat),
                self.plugin_names() == old_self.plugin_names().remove(plugin@),
                self.registered() == old_self.registered().remove(id.0),
                self.lazy_plugins() == old_self.lazy_plugins(),
            decreases wasm_ids@.len() - k,
        {
            let w = wasm_ids[k];
            let ghost before = self.wasm_ids();
            self.free_plugin_wasm_id(w);
            proof {
                let t0 = wasm_ids@.take(k as int);
                let t1 = wasm_ids@.take(k + 1);
                assert forall|n: nat| wasm_id_set(t1).contains(n) == (wasm_id_set(t0).contains(n)
                    || n == w.0) by {
                    if wasm_id_set(t1).contains(n) {
                        let q = choose|q: int| 0 <= q < t1.len() && #[trigger] t1[q].0 == n;
                        if q < k {
                            assert(t0[q].0 == n);
                        }
                    }
                    if wasm_id_set(t0).contains(n) {
                        let q = choose|q: int| 0 <= q < t0.len() && #[trigger] t0[q].0 == n;
                        assert(t1[q].0 == n);
                    }
                    if n == w.0 {
                        assert(t1[k as int].0 == n);
                    }
                }
                assert(self.wasm_ids() =~= old_self.wasm_ids().difference(wasm_id_set(t1)));
            }
            k = k + 1;
        }
        assert(wasm_ids@.take(wasm_ids@.len() as int) =~= wasm_ids@);
        proof {
            if old_self.registered().contains_key(id.0) {
                let i = choose|i: int| 0 <= i < old_self.plugins@.len() && raw_id(old_self.plugins@[i]) == id.0;
                lemma_plugin_map_at(old_self.plugins@, i);
            } else {
                assert(freed =~= Set::<nat>::empty()) by {
                    assert(wasm_ids@.len() == 0);
                }
                assert(old_self.wasm_ids().difference(freed) =~= old_self.wasm_ids());
            }
        }
        self.plugin_enable_count = if old_count > 0 {
            old_count - 1
        } else {
            0
        };
        Some(id)
    }
}

/// Freeing an id just taken gives back the ids that were taken before.
pub proof fn lemma_free_undoes_alloc(before: Set<nat>, id: nat)
    requires
        !before.contains(id),
    ensures
        before.insert(id).remove(id) == before,
{
    assert(before.insert(id).remove(id) =~= before);
}

} // verus!
