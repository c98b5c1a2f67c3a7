//! The plugin manager's own state: which plugins are enabled, the media
//! types that plugins registered, and the listing of all plugins.

use vstd::prelude::*;
use vstd::string::*;

use crate::context::ExUrl;
use crate::lazy_plugin::LazyLoadPlugin;
use crate::plugin_loader::{preload_error_text, raw_wasm_ids, wasm_id_set, PluginLoadError, PluginLoader};
use crate::types::{PluginName, PluginWasmName};
use crate::text::lemma_seq_push_contains;
use crate::version::join_dots;

verus! {

/// Why the plugin manager refused a request.
#[derive(Debug)]
pub enum PluginError {
    NotFound(String),
    Unauthorized,
    Disabled(String),
    AlreadyInstalled(String),
    LoadFailed(PluginLoadError),
    WasmError(String, String),
    IoError(std::io::Error),
    HttpTransportError { url: url::Url, status: u16, reason: String },
    NetworkTransportError { url: url::Url, details: String },
    StreamTransportError { details: String },
    FileSystemError(String),
    PathTraversalAttack(String),
    InvalidPluginPackage(String),
    InternalError(String),
}

/// An enabled plugin, as saved.
#[derive(Debug)]
pub struct PluginState {
    pub name: PluginName,
}

/// A wasm component, as saved.
#[derive(Debug)]
pub struct PluginWasmState {
    pub name: PluginWasmName,
}

/// The names of a list of plugin states.
pub open spec fn state_names(s: Seq<PluginState>) -> Seq<Seq<char>> {
    s.map_values(|p: PluginState| p.name@)
}

/// `s` without the entries equal to `x`, in order.
pub open spec fn without(s: Seq<Seq<char>>, x: Seq<char>) -> Seq<Seq<char>>
    decreases s.len(),
{
    if s.len() == 0 {
        s
    } else if s.last() == x {
        without(s.drop_last(), x)
    } else {
        without(s.drop_last(), x).push(s.last())
    }
}

/// The saved state of the plugin manager: the enabled plugins, in the order
/// they were enabled.
#[derive(Debug)]
pub struct PluginManagerState {
    enabled_plugins: Vec<PluginState>,
}

impl PluginManagerState {
    /// The names of the enabled plugins.
    pub closed spec fn names(&self) -> Seq<Seq<char>> {
        state_names(self.enabled_plugins@)
    }

    /// No plugin enabled.
    pub fn new() -> (r: Self)
        ensures
            r.names() == Seq::<Seq<char>>::empty(),
    {
        let r = PluginManagerState { enabled_plugins: Vec::new() };
        assert(r.names() =~= Seq::<Seq<char>>::empty());
        r
    }

    /// The state with the given enabled plugins.
    pub fn from_enabled(enabled_plugins: Vec<PluginState>) -> (r: Self)
        ensures
            r.names() == state_names(enabled_plugins@),
    {
        PluginManagerState { enabled_plugins }
    }

    /// The enabled plugins.
    pub fn enabled_plugins(&self) -> (r: &Vec<PluginState>)
        ensures
            state_names(r@) == self.names(),
    {
        &self.enabled_plugins
    }

    /// Whether `name` is enabled.
    pub fn is_enabled(&self, name: &PluginName) -> (r: bool)
        ensures
            r == self.names().contains(name@),
    {
        let mut i: usize = 0;
        while i < self.enabled_plugins.len()
            invariant
                0 <= i <= self.enabled_plugins@.len(),
                forall|j: int| 0 <= j < i ==> self.names()[j] != name@,
            decreases self.enabled_plugins.len() - i,
        {
            if self.enabled_plugins[i].name == *name {
                assert(self.names()[i as int] == name@);
                return true;
            }
            i = i + 1;
        }
        false
    }

    /// Records `name` as enabled, unless it is already; tells whether it
    /// was added.
    pub fn add_enabled(&mut self, name: PluginName) -> (r: bool)
        ensures
            r == !old(self).names().contains(name@),
            r ==> final(self).names() == old(self).names().push(name@),
            !r ==> final(self).names() == old(self).names(),
    {
        if self.is_enabled(&name) {
            return false;
        }
        let ghost before = self.enabled_plugins@;
        let ghost n = name@;
        self.enabled_plugins.push(PluginState { name });
        assert(state_names(self.enabled_plugins@) =~= state_names(before).push(n));
        true
    }

    /// Records `name` as no longer enabled.
    pub fn remove_enabled(&mut self, name: &PluginName)
        ensures
            final(self).names() == without(old(self).names(), name@),
    {
        let ghost all = self.names();
        let mut kept: Vec<PluginState> = Vec::new();
        let mut i: usize = 0;
        assert(all.take(0) =~= Seq::<Seq<char>>::empty());
        assert(state_names(kept@) =~= Seq::<Seq<char>>::empty());
        while i < self.enabled_plugins.len()
            invariant
                all == self.names(),
                0 <= i <= all.len(),
                state_names(kept@) == without(all.take(i as int), name@),
            decreases self.enabled_plugins.len() - i,
        {
            assert(all.take(i + 1).drop_last() =~= all.take(i as int));
            assert(all.take(i + 1).last() == all[i as int]);
            if self.enabled_plugins[i].name != *name {
                let ghost k0 = kept@;
                let n = self.enabled_plugins[i].name.clone();
                kept.push(PluginState { name: n });
                assert(state_names(kept@) =~= state_names(k0).push(all[i as int]));
            }
            i = i + 1;
        }
        assert(all.take(all.len() as int) =~= all);
        self.enabled_plugins = kept;
    }
}

/// Enabling a plugin and then disabling it gives back the enabled plugins
/// there were, when it was not enabled before.
pub proof fn lemma_disable_undoes_enable(names: Seq<Seq<char>>, n: Seq<char>)
    requires
        !names.contains(n),
    ensures
        without(names.push(n), n) == names,
    decreases names.len(),
{
    assert(names.push(n).drop_last() =~= names);
    lemma_without_absent(names, n);
}

/// Removing a name that is not there changes nothing.
pub proof fn lemma_without_absent(names: Seq<Seq<char>>, n: Seq<char>)
    requires
        !names.contains(n),
    ensures
        without(names, n) == names,
    decreases names.len(),
{
    if names.len() > 0 {
        assert(!names.drop_last().contains(n)) by {
            if names.drop_last().contains(n) {
                let i = choose|i: int| 0 <= i < names.drop_last().len() && names.drop_last()[i] == n;
                assert(names[i] == n);
            }
        }
        lemma_without_absent(names.drop_last(), n);
        assert(names.last() != n) by {
            assert(names[names.len() - 1] == names.last());
        }
        assert(without(names.drop_last(), n).push(names.last()) =~= names);
    }
}

/// After a plugin is disabled it is not enabled.
pub proof fn lemma_disabled_not_enabled(names: Seq<Seq<char>>, n: Seq<char>)
    ensures
        !without(names, n).contains(n),
    decreases names.len(),
{
    if names.len() > 0 {
        lemma_disabled_not_enabled(names.drop_last(), n);
        let w = without(names.drop_last(), n);
        if names.last() != n {
            if w.push(names.last()).contains(n) {
                let i = choose|i: int| 0 <= i < w.push(names.last()).len() && w.push(names.last())[i] == n;
                if i < w.len() {
                    assert(w[i] == n);
                }
            }
        }
    }
}

/// A plugin as listed by the plugin query.
#[derive(Debug)]
pub struct PluginQueryItem {
    pub name: String,
    pub version: String,
    pub description: String,
    pub author: String,
    pub email: String,
    pub enabled: bool,
    /// `builtin`, `external` or `invalid`.
    pub plugin_type: String,
    /// What is wrong with an invalid plugin.
    pub error: Option<String>,
}

/// `item` lists plugin `lz`; `loaded` tells which names are loaded.
pub open spec fn lists_plugin(item: PluginQueryItem, lz: LazyLoadPlugin, loaded: Map<Seq<char>, u64>) -> bool {
    match lz {
        LazyLoadPlugin::BuiltinPlugin { name, version, description } => {
            &&& item.name@ == name@
            &&& item.version@ == join_dots(version@)
            &&& item.description@ == description@
            &&& item.author@ == Seq::<char>::empty()
            &&& item.email@ == Seq::<char>::empty()
            &&& item.enabled == loaded.contains_key(name@)
            &&& item.plugin_type@ == "builtin"@
            &&& item.error is None
        },
        LazyLoadPlugin::ExternalPlugin { name, version, description, author, email, .. } => {
            &&& item.name@ == name@
            &&& item.version@ == join_dots(version@)
            &&& item.description@ == description@
            &&& item.author@ == author@
            &&& item.email@ == email@
            &&& item.enabled == loaded.contains_key(name@)
            &&& item.plugin_type@ == "external"@
            &&& item.error is None
        },
        LazyLoadPlugin::InvalidPlugin { name, error } => {
            &&& item.name@ == name@
            &&& item.version@ == Seq::<char>::empty()
            &&& item.description@ == Seq::<char>::empty()
            &&& item.author@ == Seq::<char>::empty()
            &&& item.email@ == Seq::<char>::empty()
            &&& !item.enabled
            &&& item.plugin_type@ == "invalid"@
            &&& item.error matches Some(e) && e@ == preload_error_text(error)
        },
    }
}

/// A listed plugin is shown enabled exactly when it is a valid plugin,
/// builtin or external, whose name is registered among the loaded plugins;
/// an invalid plugin is never shown enabled.
pub proof fn lemma_listed_enabled(item: PluginQueryItem, lz: LazyLoadPlugin, loaded: Map<Seq<char>, u64>)
    requires
        lists_plugin(item, lz, loaded),
    ensures
        item.enabled <==> (!(lz is InvalidPlugin) && loaded.contains_key(item.name@)),
        !loaded.contains_key(item.name@) ==> !item.enabled,
{
}

/// Why media types were refused.
#[derive(Debug)]
pub enum MediaTypeError {
    InvalidFormat(String),
    AlreadyExists(String),
}

/// A character a media type may hold: a letter or digit of ASCII, a space,
/// an underscore or a hyphen.
pub open spec fn media_type_char(c: char) -> bool {
    ||| ('A' <= c && c <= 'Z')
    ||| ('a' <= c && c <= 'z')
    ||| ('0' <= c && c <= '9')
    ||| c == ' '
    ||| c == '_'
    ||| c == '-'
}

/// At most 32 characters, all of them allowed.
pub open spec fn valid_media_type(t: Seq<char>) -> bool {
    t.len() <= 32 && forall|i: int| 0 <= i < t.len() ==> media_type_char(#[trigger] t[i])
}

/// The message for a media type of the wrong form.
pub open spec fn invalid_media_type_text(t: Seq<char>) -> Seq<char> {
    "\n            At `"@ + t
        + "`:\n            The `media_type` length must not exceed 32 characters.\n            It can only contain alphanumeric characters (A-Z, a-z, 0-9), as well as spaces, underscores, and hyphens.\n            "@
}

/// The message for a media type that is registered already.
pub open spec fn existing_media_type_text(t: Seq<char>) -> Seq<char> {
    "Type `"@ + t + "` already exists."@
}

/// The texts of a list of strings.
pub open spec fn string_texts(s: Seq<String>) -> Seq<Seq<char>> {
    s.map_values(|x: String| x@)
}

/// The media types before index `k` are valid and new.
pub open spec fn media_types_ok_upto(known: Set<Seq<char>>, ts: Seq<Seq<char>>, k: int) -> bool {
    forall|j: int| 0 <= j < k ==> valid_media_type(#[trigger] ts[j]) && !known.contains(ts[j])
}

fn valid_media_type_exec(t: &String) -> (r: bool)
    ensures
        r == valid_media_type(t@),
{
    let v = crate::text::str_chars(t.as_str());
    if v.len() > 32 {
        return false;
    }
    let mut i: usize = 0;
    while i < v.len()
        invariant
            v@ == t@,
            0 <= i <= v@.len(),
            forall|j: int| 0 <= j < i ==> media_type_char(#[trigger] v@[j]),
        decreases v.len() - i,
    {
        let c = v[i];
        if !(('A' <= c && c <= 'Z') || ('a' <= c && c <= 'z') || ('0' <= c && c <= '9') || c == ' '
            || c == '_' || c == '-') {
            return false;
        }
        i = i + 1;
    }
    true
}

/// The plugin manager's bookkeeping: the media types plugins registered (no
/// two alike), the plugin loader and the saved state.
pub struct PluginManager {
    pub supported_media_types: Vec<String>,
    pub plugin_loader: PluginLoader,
    pub stat: PluginManagerState,
}


impl PluginManager {
    pub closed spec fn well_formed(&self) -> bool {
        &&& string_texts(self.supported_media_types@).no_duplicates()
        &&& self.plugin_loader.well_formed()
    }

    /// The media types registered so far.
    pub closed spec fn media_types(&self) -> Set<Seq<char>> {
        string_texts(self.supported_media_types@).to_set()
    }

    /// No media type, no plugin found or loaded, nothing enabled.
    pub fn new() -> (r: Self)
        ensures
            r.well_formed(),
            r.media_types() == Set::<Seq<char>>::empty(),
            r.plugin_loader.plugin_names() == Map::<Seq<char>, u64>::empty(),
            r.plugin_loader.lazy_plugins() == Seq::<LazyLoadPlugin>::empty(),
            r.plugin_loader.plugin_ids() == Set::<nat>::empty(),
            r.plugin_loader.wasm_ids() == Set::<nat>::empty(),
            r.plugin_loader.registered() == Map::<u64, crate::plugin_loader::PluginRaw>::empty(),
            r.stat.names() == Seq::<Seq<char>>::empty(),
    {
        let r = PluginManager {
            supported_media_types: Vec::new(),
            plugin_loader: PluginLoader::new(),
            stat: PluginManagerState::new(),
        };
        assert(string_texts(r.supported_media_types@) =~= Seq::<Seq<char>>::empty());
        assert(r.media_types() =~= Set::<Seq<char>>::empty());
        r
    }

    fn has_media_type(&self, t: &String) -> (r: bool)
        ensures
            r == self.media_types().contains(t@),
    {
        let mut i: usize = 0;
        while i < self.supported_media_types.len()
            invariant
                0 <= i <= self.supported_media_types@.len(),
                forall|j: int| 0 <= j < i ==> string_texts(self.supported_media_types@)[j] != t@,
            decreases self.supported_media_types.len() - i,
        {
            if self.supported_media_types[i] == *t {
                assert(string_texts(self.supported_media_types@)[i as int] == t@);
                return true;
            }
            i = i + 1;
        }
        false
    }

    /// The media types registered so far.
    pub fn get_supported_media_types(&self) -> (r: Vec<String>)
        ensures
            string_texts(r@).to_set() == self.media_types(),
    {
        let r = self.supported_media_types.clone();
        assert(string_texts(r@) =~= string_texts(self.supported_media_types@));
        r
    }

    /// Registers `media_types`. Each must have at most 32 characters, all
    /// ASCII letters, digits, spaces, underscores or hyphens, and must not be
    /// registered already; the first one that fails decides the error, and
    /// then nothing is registered.
    pub fn push_media_types(&mut self, media_types: Vec<String>) -> (r: Result<(), MediaTypeError>)
        requires
            old(self).well_formed(),
        ensures
            final(self).well_formed(),
            final(self).plugin_loader == old(self).plugin_loader,
            final(self).stat == old(self).stat,
            ({
                let known = old(self).media_types();
                let ts = string_texts(media_types@);
                &&& (r is Ok <==> media_types_ok_upto(known, ts, ts.len() as int))
                &&& r is Ok ==> final(self).media_types() == known + ts.to_set()
                &&& r is Err ==> final(self).media_types() == known
                &&& r matches Err(MediaTypeError::InvalidFormat(m)) ==> exists|k: int|
                    0 <= k < ts.len() && media_types_ok_upto(known, ts, k) && !valid_media_type(
                        #[trigger] ts[k],
                    ) && m@ == invalid_media_type_text(ts[k])
                &&& r matches Err(MediaTypeError::AlreadyExists(m)) ==> exists|k: int|
                    0 <= k < ts.len() && media_types_ok_upto(known, ts, k) && valid_media_type(
                        #[trigger] ts[k],
                    ) && known.contains(ts[k]) && m@ == existing_media_type_text(ts[k])
            }),
    {
        let ghost known = self.media_types();
        let ghost ts = string_texts(media_types@);
        let mut i: usize = 0;
        while i < media_types.len()
            invariant
                known == self.media_types(),
                ts == string_texts(media_types@),
                self.well_formed(),
                self.plugin_loader == old(self).plugin_loader,
                self.stat == old(self).stat,
                0 <= i <= ts.len(),
                media_types_ok_upto(known, ts, i as int),
            decreases media_types.len() - i,
        {
            let t = &media_types[i];
            assert(ts[i as int] == t@);
            if !valid_media_type_exec(t) {
                let mut m = "\n            At `".to_owned();
                m.append(t.as_str());
                m.append(
                    "`:\n            The `media_type` length must not exceed 32 characters.\n            It can only contain alphanumeric characters (A-Z, a-z, 0-9), as well as spaces, underscores, and hyphens.\n            ",
                );
                return Err(MediaTypeError::InvalidFormat(m));
            }
            if self.has_media_type(t) {
                let mut m = "Type `".to_owned();
                m.append(t.as_str());
                m.append("` already exists.");
                return Err(MediaTypeError::AlreadyExists(m));
            }
            i = i + 1;
        }
        if media_types.len() == 0 {
            assert(ts.to_set() =~= Set::<Seq<char>>::empty());
            assert(known + ts.to_set() =~= known);
            return Ok(());
        }
        let mut j: usize = 0;
        assert(ts.take(0).to_set() =~= Set::<Seq<char>>::empty());
        assert(known + ts.take(0).to_set() =~= known);
        while j < media_types.len()
            invariant
                ts == string_texts(media_types@),
                self.plugin_loader == old(self).plugin_loader,
                self.stat == old(self).stat,
                0 <= j <= ts.len(),
                self.well_formed(),
                self.media_types() == known + ts.take(j as int).to_set(),
            decreases media_types.len() - j,
        {
            let t = &media_types[j];
            assert(ts[j as int] == t@);
            assert(ts.take(j + 1) =~= ts.take(j as int).push(t@));
            let ghost mid = self.media_types();
            if !self.has_media_type(t) {
                let ghost before = self.supported_media_types@;
                self.supported_media_types.push(t.clone());
                assert(string_texts(self.supported_media_types@) =~= string_texts(before).push(t@));
                assert forall|a: Seq<char>| #[trigger] self.media_types().contains(a) <==> (mid.contains(a) || a == t@) by {
                    lemma_seq_push_contains(string_texts(before), t@, a);
                }
            }
            assert forall|a: Seq<char>| #[trigger] ts.take(j + 1).to_set().contains(a) <==> (ts.take(j as int).to_set().contains(a) || a == t@) by {
                lemma_seq_push_contains(ts.take(j as int), t@, a);
            }
            assert(self.media_types() =~= known + ts.take(j + 1).to_set());
            j = j + 1;
        }
        assert(ts.take(ts.len() as int) =~= ts);
        Ok(())
    }

    /// Every plugin found, loaded or not, in the order found.
    pub fn query_plugins(&self) -> (r: Vec<PluginQueryItem>)
        requires
            self.well_formed(),
        ensures
            r.len() == self.plugin_loader.lazy_plugins().len(),
            forall|i: int|
                0 <= i < r.len() ==> lists_plugin(
                    #[trigger] r@[i],
                    self.plugin_loader.lazy_plugins()[i],
                    self.plugin_loader.plugin_names(),
                ),
            forall|i: int|
                0 <= i < r.len() ==> ((#[trigger] r@[i]).enabled <==> (!(self.plugin_loader.lazy_plugins()[i] is InvalidPlugin)
                    && self.plugin_loader.plugin_names().contains_key(r@[i].name@))),
    {
        let list = self.plugin_loader.lazy_load_plugins();
        let mut items: Vec<PluginQueryItem> = Vec::new();
        let mut i: usize = 0;
        while i < list.len()
            invariant
                self.well_formed(),
                list@ == self.plugin_loader.lazy_plugins(),
                0 <= i <= list@.len(),
                items@.len() == i,
                forall|k: int|
                    0 <= k < i ==> lists_plugin(
                        #[trigger] items@[k],
                        list@[k],
                        self.plugin_loader.plugin_names(),
                    ),
            decreases list.len() - i,
        {
            let item = match &list[i] {
                LazyLoadPlugin::BuiltinPlugin { name, version, description } => PluginQueryItem {
                    name: name.to_string(),
                    version: version.to_string(),
                    description: description.clone(),
                    author: String::new(),
                    email: String::new(),
                    enabled: self.plugin_loader.plugin_id_by_name(name).is_some(),
                    plugin_type: "builtin".to_owned(),
                    error: None,
                },
                LazyLoadPlugin::ExternalPlugin { name, version, description, author, email, .. } =>
                PluginQueryItem {
                    name: name.to_string(),
                    version: version.to_string(),
                    description: description.clone(),
                    author: author.clone(),
                    email: email.clone(),
                    enabled: self.plugin_loader.plugin_id_by_name(name).is_some(),
                    plugin_type: "external".to_owned(),
                    error: None,
                },
                LazyLoadPlugin::InvalidPlugin { name, error } => PluginQueryItem {
                    name: name.to_string(),
                    version: String::new(),
                    description: String::new(),
                    author: String::new(),
                    email: String::new(),
                    enabled: false,
                    plugin_type: "invalid".to_owned(),
                    error: Some(error.to_string()),
                },
            };
            items.push(item);
            i = i + 1;
        }
        items
    }
}

impl PluginManager {
    /// Disables the plugin named `plugin`: it is unloaded and no longer
    /// recorded as enabled. A plugin that is not loaded gives `NotFound`
    /// with its name, and nothing changes. (Saving the state afterwards is
    /// left to the caller.)
    pub fn disable(&mut self, plugin: &PluginName) -> (r: Result<(), PluginError>)
        requires
            old(self).well_formed(),
        ensures
            final(self).well_formed(),
            final(self).media_types() == old(self).media_types(),
            final(self).plugin_loader.lazy_plugins() == old(self).plugin_loader.lazy_plugins(),
            match r {
                Ok(()) => {
                    let id = old(self).plugin_loader.plugin_names()[plugin@];
                    let before = old(self).plugin_loader;
                    let after = final(self).plugin_loader;
                    &&& before.plugin_names().contains_key(plugin@)
                    &&& after.plugin_names() == before.plugin_names().remove(plugin@)
                    &&& after.plugin_ids() == before.plugin_ids().remove(id as nat)
                    &&& after.registered() == before.registered().remove(id)
                    &&& after.wasm_ids() == if before.registered().contains_key(id) {
                        before.wasm_ids().difference(wasm_id_set(raw_wasm_ids(before.registered()[id])))
                    } else {
                        before.wasm_ids()
                    }
                    &&& after.enable_count() == if before.enable_count() > 0 {
                        before.enable_count() - 1
                    } else {
                        0
                    }
                    &&& final(self).stat.names() == without(old(self).stat.names(), plugin@)
                },
                Err(e) => {
                    let before = old(self).plugin_loader;
                    let after = final(self).plugin_loader;
                    &&& !before.plugin_names().contains_key(plugin@)
                    &&& e matches PluginError::NotFound(n) && n@ == plugin@
                    &&& after.plugin_names() == before.plugin_names()
                    &&& after.plugin_ids() == before.plugin_ids()
                    &&& after.wasm_ids() == before.wasm_ids()
                    &&& after.registered() == before.registered()
                    &&& after.enable_count() == before.enable_count()
                    &&& final(self).stat.names() == old(self).stat.names()
                },
            },
    {
        match self.plugin_loader.unload_plugin(plugin) {
            None => Err(PluginError::NotFound(plugin.to_string())),
            Some(_) => {
                self.stat.remove_enabled(plugin);
                Ok(())
            },
        }
    }
}

} // verus!
