//! The rules for a plugin module's annotated functions: which annotations
//! may appear, how often, and which event variants one `#[on_event(...)]`
//! handler may take together.

use vstd::prelude::*;
use vstd::string::*;

use crate::macro_tokens::{is_punct, token_is_punct, AttrSyntaxError, AttrToken, Delimiter};

verus! {

/// The payload type an event variant carries.
#[derive(Debug, Clone, Copy, PartialEq, Eq, Structural)]
pub enum CtxTy {
    Unit,
    MetadataReady,
    MetadataLocalReady,
    ServerError,
}

/// How a payload type is written.
pub open spec fn ctx_ty_text(t: CtxTy) -> Seq<char> {
    match t {
        CtxTy::Unit => "()"@,
        CtxTy::MetadataReady => "OnMetadataRawTreeReadyEventContext"@,
        CtxTy::MetadataLocalReady => "OnMetadataLocalTreeReadyEventContext"@,
        CtxTy::ServerError => "OnServerErrorEventContext"@,
    }
}

impl CtxTy {
    /// The payload type as written (what `Display` shows).
    pub fn to_string(&self) -> (r: String)
        ensures
            r@ == ctx_ty_text(*self),
    {
        match self {
            CtxTy::Unit => "()".to_owned(),
            CtxTy::MetadataReady => "OnMetadataRawTreeReadyEventContext".to_owned(),
            CtxTy::MetadataLocalReady => "OnMetadataLocalTreeReadyEventContext".to_owned(),
            CtxTy::ServerError => "OnServerErrorEventContext".to_owned(),
        }
    }
}

/// What a handler of an event variant receives: the handles it is passed
/// (none when the event carries no context), and the payload type.
pub open spec fn variant_info(name: Seq<char>) -> Option<(Option<Seq<Seq<char>>>, CtxTy)> {
    if name == "OnMetadataRawTreeReady"@ {
        Some((Some(seq!["metadata_handle"@, "path_mapping_handle"@]), CtxTy::MetadataReady))
    } else if name == "OnMetadataLocalTreeReady"@ {
        Some(
            (
                Some(seq!["metadata_handle"@, "path_mapping_handle"@, "tag_handle"@]),
                CtxTy::MetadataLocalReady,
            ),
        )
    } else if name == "OnServerError"@ {
        Some((None, CtxTy::ServerError))
    } else if name == "OnScanComplete"@ || name == "OnNewFileDiscovered"@ || name
        == "OnUserLogin"@ || name == "OnLibraryCrate"@ || name == "OnPluginInstall"@ || name
        == "OnPluginUninstall"@ || name == "OnPluginEnable"@ || name == "OnPluginDisable"@
        || name == "OnServerStart"@ || name == "OnServerStop"@ {
        Some((None, CtxTy::Unit))
    } else {
        None
    }
}

/// An event variant's handles and payload type.
#[derive(Debug)]
pub struct EventVariantInfo {
    pub handles: Option<Vec<String>>,
    pub ctx_ty: CtxTy,
}

/// The texts of a list of strings.
pub open spec fn texts(s: Seq<String>) -> Seq<Seq<char>> {
    s.map_values(|x: String| x@)
}

fn handles(names: &[&str]) -> (r: Vec<String>)
    ensures
        r@.len() == names@.len(),
        forall|i: int| 0 <= i < names@.len() ==> r@[i]@ == names@[i]@,
{
    let mut r: Vec<String> = Vec::new();
    let mut i: usize = 0;
    while i < names.len()
        invariant
            0 <= i <= names@.len(),
            r@.len() == i,
            forall|k: int| 0 <= k < i ==> r@[k]@ == names@[k]@,
        decreases names.len() - i,
    {
        r.push(names[i].to_owned());
        i = i + 1;
    }
    r
}

/// What a handler of event variant `name` receives, if it is a variant.
pub fn event_variant_info(name: &String) -> (r: Option<EventVariantInfo>)
    ensures
        match variant_info(name@) {
            Some((h, t)) => r matches Some(info) && info.ctx_ty == t && (match info.handles {
                Some(v) => h == Some(texts(v@)),
                None => h is None,
            }),
            None => r is None,
        },
{
    if *name == "OnMetadataRawTreeReady".to_owned() {
        let h = handles(&["metadata_handle", "path_mapping_handle"]);
        assert(texts(h@) =~= seq!["metadata_handle"@, "path_mapping_handle"@]);
        Some(EventVariantInfo { handles: Some(h), ctx_ty: CtxTy::MetadataReady })
    } else if *name == "OnMetadataLocalTreeReady".to_owned() {
        let h = handles(&["metadata_handle", "path_mapping_handle", "tag_handle"]);
        assert(texts(h@) =~= seq!["metadata_handle"@, "path_mapping_handle"@, "tag_handle"@]);
        Some(EventVariantInfo { handles: Some(h), ctx_ty: CtxTy::MetadataLocalReady })
    } else if *name == "OnServerError".to_owned() {
        Some(EventVariantInfo { handles: None, ctx_ty: CtxTy::ServerError })
    } else if *name == "OnScanComplete".to_owned() || *name == "OnNewFileDiscovered".to_owned()
        || *name == "OnUserLogin".to_owned() || *name == "OnLibraryCrate".to_owned() || *name
        == "OnPluginInstall".to_owned() || *name == "OnPluginUninstall".to_owned() || *name
        == "OnPluginEnable".to_owned() || *name == "OnPluginDisable".to_owned() || *name
        == "OnServerStart".to_owned() || *name == "OnServerStop".to_owned() {
        Some(EventVariantInfo { handles: None, ctx_ty: CtxTy::Unit })
    } else {
        None
    }
}

/// The handle list of an event variant's info, as text.
pub open spec fn handles_view(h: Option<Vec<String>>) -> Option<Seq<Seq<char>>> {
    match h {
        Some(v) => Some(texts(v@)),
        None => None,
    }
}

/// `info` is what a handler of event variant `name` receives.
pub open spec fn info_describes(info: EventVariantInfo, name: Seq<char>) -> bool {
    match variant_info(name) {
        Some((h, t)) => info.ctx_ty == t && handles_view(info.handles) == h,
        None => false,
    }
}

/// The annotations a function of a plugin module may carry.
#[derive(Debug, Clone, Copy, PartialEq, Eq, Structural)]
pub enum AnnotationKind {
    OnLoad,
    OnUnload,
    OnEnable,
    OnDisable,
    OnEvent,
    OnCommand,
    OnConfig,
    Health,
    MediaTypes,
}

/// The annotation an attribute name stands for, if any.
pub open spec fn kind_of(name: Seq<char>) -> Option<AnnotationKind> {
    if name == "on_load"@ {
        Some(AnnotationKind::OnLoad)
    } else if name == "on_unload"@ {
        Some(AnnotationKind::OnUnload)
    } else if name == "on_enable"@ {
        Some(AnnotationKind::OnEnable)
    } else if name == "on_disable"@ {
        Some(AnnotationKind::OnDisable)
    } else if name == "on_event"@ {
        Some(AnnotationKind::OnEvent)
    } else if name == "on_command"@ {
        Some(AnnotationKind::OnCommand)
    } else if name == "on_config"@ {
        Some(AnnotationKind::OnConfig)
    } else if name == "health"@ {
        Some(AnnotationKind::Health)
    } else if name == "media_types"@ {
        Some(AnnotationKind::MediaTypes)
    } else {
        None
    }
}

/// How an annotation is named in messages.
pub open spec fn kind_label(k: AnnotationKind) -> Seq<char> {
    match k {
        AnnotationKind::OnLoad => "`#[on_load]`"@,
        AnnotationKind::OnUnload => "`#[on_unload]`"@,
        AnnotationKind::OnEnable => "`#[on_enable]`"@,
        AnnotationKind::OnDisable => "`#[on_disable]`"@,
        AnnotationKind::OnEvent => "`#[on_event]`"@,
        AnnotationKind::OnCommand => "`#[on_command]`"@,
        AnnotationKind::OnConfig => "`#[on_config]`"@,
        AnnotationKind::Health => "`#[health]`"@,
        AnnotationKind::MediaTypes => "`#[media_types]`"@,
    }
}

/// The annotation an attribute name stands for, if any.
pub fn annotation_kind(name: &String) -> (r: Option<AnnotationKind>)
    ensures
        r == kind_of(name@),
{
    if *name == "on_load".to_owned() {
        Some(AnnotationKind::OnLoad)
    } else if *name == "on_unload".to_owned() {
        Some(AnnotationKind::OnUnload)
    } else if *name == "on_enable".to_owned() {
        Some(AnnotationKind::OnEnable)
    } else if *name == "on_disable".to_owned() {
        Some(AnnotationKind::OnDisable)
    } else if *name == "on_event".to_owned() {
        Some(AnnotationKind::OnEvent)
    } else if *name == "on_command".to_owned() {
        Some(AnnotationKind::OnCommand)
    } else if *name == "on_config".to_owned() {
        Some(AnnotationKind::OnConfig)
    } else if *name == "health".to_owned() {
        Some(AnnotationKind::Health)
    } else if *name == "media_types".to_owned() {
        Some(AnnotationKind::MediaTypes)
    } else {
        None
    }
}

/// `i` is the first position of `names` that names an annotation.
pub open spec fn first_annotation_at(names: Seq<String>, i: int) -> bool {
    &&& 0 <= i < names.len()
    &&& kind_of(names[i]@) is Some
    &&& forall|j: int| 0 <= j < i ==> kind_of(#[trigger] names[j]@) is None
}

/// Takes the first plugin annotation out of a function's attribute names
/// and returns its name; the attributes stay as they are when none is one.
pub fn extract_annotation(attrs: &mut Vec<String>) -> (r: Option<String>)
    ensures
        match r {
            Some(n) => exists|i: int|
                first_annotation_at(old(attrs)@, i) && n@ == old(attrs)@[i]@ && final(attrs)@
                    == old(attrs)@.remove(i),
            None => final(attrs)@ == old(attrs)@ && forall|j: int|
                0 <= j < old(attrs)@.len() ==> kind_of(#[trigger] old(attrs)@[j]@) is None,
        },
{
    let mut i: usize = 0;
    while i < attrs.len()
        invariant
            i <= attrs@.len(),
            attrs@ == old(attrs)@,
            forall|j: int| 0 <= j < i ==> kind_of(#[trigger] attrs@[j]@) is None,
        decreases attrs@.len() - i,
    {
        if annotation_kind(&attrs[i]).is_some() {
            let n = attrs.remove(i);
            assert(first_annotation_at(old(attrs)@, i as int));
            return Some(n);
        }
        i = i + 1;
    }
    None
}

/// A function of a plugin module, with the plugin annotation found on it:
/// the attribute's name and, for `#[on_event(...)]`, the event variants
/// listed between its brackets (none for a bare `#[on_event]`).
#[derive(Debug)]
pub struct AnnotatedItem {
    pub fn_name: String,
    pub annotation: String,
    pub variants: Vec<String>,
}

/// Which events an `#[on_event]` handler takes.
#[derive(Debug)]
pub enum OnEventAttr {
    /// `#[on_event]`: every event.
    All,
    /// `#[on_event(Variant, ...)]`: the listed variants, each with what its
    /// handler receives.
    Filtered(Vec<(String, EventVariantInfo)>),
}

/// An annotated function of a plugin module.
#[derive(Debug)]
pub enum AnnotatedFn {
    OnLoad(String),
    OnUnload(String),
    OnEnable(String),
    OnDisable(String),
    OnEvent(String, OnEventAttr),
    OnCommand(String),
    OnConfig(String),
    Health(String),
    MediaTypes(String),
}

/// The annotation of an annotated function.
pub open spec fn fn_kind(a: AnnotatedFn) -> AnnotationKind {
    match a {
        AnnotatedFn::OnLoad(_) => AnnotationKind::OnLoad,
        AnnotatedFn::OnUnload(_) => AnnotationKind::OnUnload,
        AnnotatedFn::OnEnable(_) => AnnotationKind::OnEnable,
        AnnotatedFn::OnDisable(_) => AnnotationKind::OnDisable,
        AnnotatedFn::OnEvent(_, _) => AnnotationKind::OnEvent,
        AnnotatedFn::OnCommand(_) => AnnotationKind::OnCommand,
        AnnotatedFn::OnConfig(_) => AnnotationKind::OnConfig,
        AnnotatedFn::Health(_) => AnnotationKind::Health,
        AnnotatedFn::MediaTypes(_) => AnnotationKind::MediaTypes,
    }
}

/// The name of an annotated function.
pub open spec fn fn_name_of(a: AnnotatedFn) -> Seq<char> {
    match a {
        AnnotatedFn::OnLoad(n) => n@,
        AnnotatedFn::OnUnload(n) => n@,
        AnnotatedFn::OnEnable(n) => n@,
        AnnotatedFn::OnDisable(n) => n@,
        AnnotatedFn::OnEvent(n, _) => n@,
        AnnotatedFn::OnCommand(n) => n@,
        AnnotatedFn::OnConfig(n) => n@,
        AnnotatedFn::Health(n) => n@,
        AnnotatedFn::MediaTypes(n) => n@,
    }
}

/// `attr` is what an `#[on_event]` listing `vs` declares.
pub open spec fn event_attr_describes(attr: OnEventAttr, vs: Seq<Seq<char>>) -> bool {
    match attr {
        OnEventAttr::All => vs.len() == 0,
        OnEventAttr::Filtered(f) => {
            &&& vs.len() > 0
            &&& f@.len() == vs.len()
            &&& forall|i: int|
                0 <= i < vs.len() ==> (#[trigger] f@[i]).0@ == vs[i] && info_describes(
                    f@[i].1,
                    vs[i],
                )
        },
    }
}

/// `out` is what annotated item `it` declares.
pub open spec fn describes(out: AnnotatedFn, it: AnnotatedItem) -> bool {
    &&& kind_of(it.annotation@) == Some(fn_kind(out))
    &&& fn_name_of(out) == it.fn_name@
    &&& match out {
        AnnotatedFn::OnEvent(_, attr) => event_attr_describes(attr, texts(it.variants@)),
        _ => true,
    }
}

/// The items that carry a plugin annotation, in order.
pub open spec fn annotated_items(items: Seq<AnnotatedItem>) -> Seq<AnnotatedItem>
    decreases items.len(),
{
    if items.len() == 0 {
        seq![]
    } else if kind_of(items.last().annotation@) is Some {
        annotated_items(items.drop_last()).push(items.last())
    } else {
        annotated_items(items.drop_last())
    }
}

/// What the annotations met so far have claimed: the once-only annotations,
/// the function with a bare `#[on_event]`, and the variants listed by
/// `#[on_event(...)]`, in order.
pub ghost struct Seen {
    pub once: Seq<AnnotationKind>,
    pub all_fn: Option<Seq<char>>,
    pub filtered: Seq<Seq<char>>,
}

pub open spec fn duplicate_text(k: AnnotationKind) -> Seq<char> {
    "duplicate "@ + kind_label(k) + " annotation"@
}

pub open spec fn unknown_variant_text(v: Seq<char>) -> Seq<char> {
    "unknown event variant `"@ + v
        + "` in `#[on_event(...)]`; it is not a variant of `cosmox_api::event::Event`"@
}

pub open spec fn separate_hint(first: Seq<char>, second: Seq<char>) -> Seq<char> {
    " in a single `#[on_event(...)]`; declare them with separate `#[on_event("@ + first
        + ")]` / `#[on_event("@ + second + ")]` attributes instead"@
}

pub open spec fn handles_mismatch_text(first: Seq<char>, second: Seq<char>) -> Seq<char> {
    "event variants `"@ + first + "` and `"@ + second
        + "` have incompatible handler signatures (different context handles)"@
        + separate_hint(first, second)
}

pub open spec fn payload_mismatch_text(
    first: Seq<char>,
    second: Seq<char>,
    expected: CtxTy,
    actual: CtxTy,
) -> Seq<char> {
    "event variants `"@ + first + "` and `"@ + second
        + "` have incompatible handler signatures (different payload type: expected `"@
        + ctx_ty_text(expected) + "`, got `"@ + ctx_ty_text(actual) + "`)"@ + separate_hint(
        first,
        second,
    )
}

/// Names joined with `", "`.
pub open spec fn join_names(s: Seq<Seq<char>>) -> Seq<char>
    decreases s.len(),
{
    if s.len() == 0 {
        seq![]
    } else if s.len() == 1 {
        s[0]
    } else {
        join_names(s.drop_last()) + ", "@ + s.last()
    }
}

pub open spec fn all_after_filtered_text(listed: Seq<Seq<char>>) -> Seq<char> {
    "cannot combine `#[on_event]` with `#[on_event(...)]`; `#[on_event(...)]` already declares the following variant(s): "@
        + join_names(listed)
}

pub open spec fn duplicate_all_text(first_fn: Seq<char>) -> Seq<char> {
    "duplicate `#[on_event]` annotation (first on `"@ + first_fn + "`)"@
}

pub open spec fn filtered_after_all_text(first_fn: Seq<char>) -> Seq<char> {
    "cannot combine `#[on_event(...)]` with `#[on_event]`; `#[on_event]` is already on `"@
        + first_fn + "`"@
}

/// The first variant of `vs` that is no event variant, if any.
pub open spec fn first_unknown(vs: Seq<Seq<char>>) -> Option<Seq<char>>
    decreases vs.len(),
{
    if vs.len() == 0 {
        None
    } else {
        match first_unknown(vs.drop_last()) {
            Some(v) => Some(v),
            None => if variant_info(vs.last()) is None {
                Some(vs.last())
            } else {
                None
            },
        }
    }
}

/// Why a handler of known variant `first` cannot also take known variant `v`.
pub open spec fn incompatibility(first: Seq<char>, v: Seq<char>) -> Option<Seq<char>> {
    let a = variant_info(first)->0;
    let b = variant_info(v)->0;
    if a.0 != b.0 {
        Some(handles_mismatch_text(first, v))
    } else if a.1 != b.1 {
        Some(payload_mismatch_text(first, v, a.1, b.1))
    } else {
        None
    }
}

/// The first variant of `rest` that one handler cannot take together with
/// `first`, as the message that reports it.
pub open spec fn first_incompatibility(first: Seq<char>, rest: Seq<Seq<char>>) -> Option<
    Seq<char>,
>
    decreases rest.len(),
{
    if rest.len() == 0 {
        None
    } else {
        match first_incompatibility(first, rest.drop_last()) {
            Some(m) => Some(m),
            None => incompatibility(first, rest.last()),
        }
    }
}

/// What is wrong with the variant list of one `#[on_event(...)]`, if anything.
pub open spec fn variants_error(vs: Seq<Seq<char>>) -> Option<Seq<char>> {
    match first_unknown(vs) {
        Some(v) => Some(unknown_variant_text(v)),
        None => first_incompatibility(vs[0], vs.drop_first()),
    }
}

/// The outcome of an `#[on_event]` on function `fn_name` listing `vs`.
pub open spec fn event_step(st: Seen, fn_name: Seq<char>, vs: Seq<Seq<char>>) -> Result<
    Seen,
    Seq<char>,
> {
    if vs.len() == 0 {
        if st.filtered.len() > 0 {
            Err(all_after_filtered_text(st.filtered))
        } else if st.all_fn is Some {
            Err(duplicate_all_text(st.all_fn->0))
        } else {
            Ok(Seen { once: st.once, all_fn: Some(fn_name), filtered: st.filtered })
        }
    } else if variants_error(vs) is Some {
        Err(variants_error(vs)->0)
    } else if st.all_fn is Some {
        Err(filtered_after_all_text(st.all_fn->0))
    } else {
        Ok(Seen { once: st.once, all_fn: st.all_fn, filtered: st.filtered + vs })
    }
}

/// The outcome of meeting item `it`.
pub open spec fn step(st: Seen, it: AnnotatedItem) -> Result<Seen, Seq<char>> {
    match kind_of(it.annotation@) {
        None => Ok(st),
        Some(AnnotationKind::OnEvent) => event_step(st, it.fn_name@, texts(it.variants@)),
        Some(k) => if st.once.contains(k) {
            Err(duplicate_text(k))
        } else {
            Ok(Seen { once: st.once.push(k), all_fn: st.all_fn, filtered: st.filtered })
        },
    }
}

/// The outcome of meeting `items` in order: the first rule broken, or what
/// they claim.
pub open spec fn check_items(items: Seq<AnnotatedItem>) -> Result<Seen, Seq<char>>
    decreases items.len(),
{
    if items.len() == 0 {
        Ok(Seen { once: seq![], all_fn: None, filtered: seq![] })
    } else {
        match check_items(items.drop_last()) {
            Err(m) => Err(m),
            Ok(st) => step(st, items.last()),
        }
    }
}

/// How an annotation is named in messages.
fn kind_label_string(k: AnnotationKind) -> (r: String)
    ensures
        r@ == kind_label(k),
{
    match k {
        AnnotationKind::OnLoad => "`#[on_load]`".to_owned(),
        AnnotationKind::OnUnload => "`#[on_unload]`".to_owned(),
        AnnotationKind::OnEnable => "`#[on_enable]`".to_owned(),
        AnnotationKind::OnDisable => "`#[on_disable]`".to_owned(),
        AnnotationKind::OnEvent => "`#[on_event]`".to_owned(),
        AnnotationKind::OnCommand => "`#[on_command]`".to_owned(),
        AnnotationKind::OnConfig => "`#[on_config]`".to_owned(),
        AnnotationKind::Health => "`#[health]`".to_owned(),
        AnnotationKind::MediaTypes => "`#[media_types]`".to_owned(),
    }
}

fn duplicate_message(k: AnnotationKind) -> (r: String)
    ensures
        r@ == duplicate_text(k),
{
    let mut m = "duplicate ".to_owned();
    let label = kind_label_string(k);
    m.append(label.as_str());
    m.append(" annotation");
    m
}

fn unknown_variant_message(v: &String) -> (r: String)
    ensures
        r@ == unknown_variant_text(v@),
{
    let mut m = "unknown event variant `".to_owned();
    m.append(v.as_str());
    m.append("` in `#[on_event(...)]`; it is not a variant of `cosmox_api::event::Event`");
    m
}

fn append_separate_hint(m: &mut String, first: &String, second: &String)
    ensures
        final(m)@ == old(m)@ + separate_hint(first@, second@),
{
    m.append(" in a single `#[on_event(...)]`; declare them with separate `#[on_event(");
    m.append(first.as_str());
    m.append(")]` / `#[on_event(");
    m.append(second.as_str());
    m.append(")]` attributes instead");
}

fn handles_mismatch_message(first: &String, second: &String) -> (r: String)
    ensures
        r@ == handles_mismatch_text(first@, second@),
{
    let mut m = "event variants `".to_owned();
    m.append(first.as_str());
    m.append("` and `");
    m.append(second.as_str());
    m.append("` have incompatible handler signatures (different context handles)");
    append_separate_hint(&mut m, first, second);
    m
}

fn payload_mismatch_message(first: &String, second: &String, expected: CtxTy, actual: CtxTy) -> (r:
    String)
    ensures
        r@ == payload_mismatch_text(first@, second@, expected, actual),
{
    let mut m = "event variants `".to_owned();
    m.append(first.as_str());
    m.append("` and `");
    m.append(second.as_str());
    m.append("` have incompatible handler signatures (different payload type: expected `");
    let e = expected.to_string();
    m.append(e.as_str());
    m.append("`, got `");
    let a = actual.to_string();
    m.append(a.as_str());
    m.append("`)");
    append_separate_hint(&mut m, first, second);
    m
}

/// Names joined with `", "`.
fn join_names_string(names: &Vec<String>) -> (r: String)
    ensures
        r@ == join_names(texts(names@)),
{
    let ghost t = texts(names@);
    let mut r = String::new();
    let mut i: usize = 0;
    while i < names.len()
        invariant
            t == texts(names@),
            i <= names@.len(),
            r@ == join_names(t.take(i as int)),
        decreases names@.len() - i,
    {
        assert(t.take(i + 1).drop_last() =~= t.take(i as int));
        if i > 0 {
            r.append(", ");
        } else {
            assert(t.take(1) =~= seq![t[0]]);
        }
        r.append(names[i].as_str());
        i = i + 1;
    }
    assert(t.take(names@.len() as int) =~= t);
    r
}

fn all_after_filtered_message(listed: &Vec<String>) -> (r: String)
    ensures
        r@ == all_after_filtered_text(texts(listed@)),
{
    let mut m =
        "cannot combine `#[on_event]` with `#[on_event(...)]`; `#[on_event(...)]` already declares the following variant(s): ".to_owned();
    let j = join_names_string(listed);
    m.append(j.as_str());
    m
}

fn duplicate_all_message(first_fn: &String) -> (r: String)
    ensures
        r@ == duplicate_all_text(first_fn@),
{
    let mut m = "duplicate `#[on_event]` annotation (first on `".to_owned();
    m.append(first_fn.as_str());
    m.append("`)");
    m
}

fn filtered_after_all_message(first_fn: &String) -> (r: String)
    ensures
        r@ == filtered_after_all_text(first_fn@),
{
    let mut m = "cannot combine `#[on_event(...)]` with `#[on_event]`; `#[on_event]` is already on `".to_owned();
    m.append(first_fn.as_str());
    m.append("`");
    m
}

/// Whether two lists of strings hold the same texts.
fn same_texts(a: &Vec<String>, b: &Vec<String>) -> (r: bool)
    ensures
        r == (texts(a@) == texts(b@)),
{
    if a.len() != b.len() {
        assert(texts(a@).len() != texts(b@).len());
        return false;
    }
    let mut i: usize = 0;
    while i < a.len()
        invariant
            a@.len() == b@.len(),
            i <= a@.len(),
            forall|k: int| 0 <= k < i ==> a@[k]@ == b@[k]@,
        decreases a@.len() - i,
    {
        if a[i] != b[i] {
            assert(texts(a@)[i as int] != texts(b@)[i as int]);
            return false;
        }
        i = i + 1;
    }
    assert(texts(a@) =~= texts(b@));
    true
}

/// Whether two handle lists are the same.
fn same_handles(a: &Option<Vec<String>>, b: &Option<Vec<String>>) -> (r: bool)
    ensures
        r == (handles_view(*a) == handles_view(*b)),
{
    match (a, b) {
        (Some(x), Some(y)) => same_texts(x, y),
        (None, None) => true,
        _ => false,
    }
}

proof fn lemma_texts_take(v: Seq<String>, i: int)
    requires
        0 <= i < v.len(),
    ensures
        texts(v).take(i + 1).drop_last() == texts(v).take(i),
        texts(v).take(i + 1).last() == v[i]@,
        texts(v).take(i + 1).len() == i + 1,
{
    assert(texts(v).take(i + 1).drop_last() =~= texts(v).take(i));
}

/// Checks the variants listed by one `#[on_event(...)]` and, when they
/// pass, pairs each with what its handler receives.
fn check_variants(vs: &Vec<String>) -> (r: Result<Vec<(String, EventVariantInfo)>, String>)
    requires
        vs@.len() > 0,
    ensures
        match r {
            Ok(f) => variants_error(texts(vs@)) is None && event_attr_describes(
                OnEventAttr::Filtered(f),
                texts(vs@),
            ),
            Err(m) => variants_error(texts(vs@)) == Some(m@),
        },
{
    let ghost t = texts(vs@);
    let n = vs.len();
    let mut i: usize = 0;
    while i < n
        invariant
            t == texts(vs@),
            n == vs@.len(),
            i <= n,
            first_unknown(t.take(i as int)) is None,
        decreases n - i,
    {
        proof {
            lemma_texts_take(vs@, i as int);
        }
        if event_variant_info(&vs[i]).is_none() {
            proof {
                assert(first_unknown(t.take(i + 1)) == Some(vs@[i as int]@));
                assert(t.take(n as int) =~= t);
                lemma_first_unknown_prefix(t, i + 1);
            }
            return Err(unknown_variant_message(&vs[i]));
        }
        i = i + 1;
    }
    assert(t.take(n as int) =~= t);
    proof {
        lemma_known_when_no_unknown(t, 0);
    }
    let base = event_variant_info(&vs[0]);
    let base = match base {
        Some(b) => b,
        None => {
            return Err(unknown_variant_message(&vs[0]));
        },
    };
    let ghost rest = t.drop_first();
    let mut k: usize = 1;
    while k < n
        invariant
            t == texts(vs@),
            rest == t.drop_first(),
            n == vs@.len(),
            1 <= k <= n,
            first_unknown(t) is None,
            info_describes(base, t[0]),
            first_incompatibility(t[0], rest.take(k - 1)) is None,
        decreases n - k,
    {
        proof {
            lemma_known_when_no_unknown(t, k as int);
            lemma_known_when_no_unknown(t, 0);
            assert(rest.take(k as int).drop_last() =~= rest.take(k - 1));
            assert(rest.take(k as int).last() == t[k as int]);
        }
        let info = event_variant_info(&vs[k]);
        let info = match info {
            Some(x) => x,
            None => {
                return Err(unknown_variant_message(&vs[k]));
            },
        };
        if !same_handles(&base.handles, &info.handles) {
            proof {
                assert(t.take(1) =~= seq![t[0]]);
                lemma_incompatibility_prefix(t[0], rest, k as int);
            }
            return Err(handles_mismatch_message(&vs[0], &vs[k]));
        }
        if base.ctx_ty != info.ctx_ty {
            proof {
                lemma_incompatibility_prefix(t[0], rest, k as int);
            }
            return Err(payload_mismatch_message(&vs[0], &vs[k], base.ctx_ty, info.ctx_ty));
        }
        k = k + 1;
    }
    assert(rest.take(n - 1) =~= rest);
    let mut f: Vec<(String, EventVariantInfo)> = Vec::new();
    let mut j: usize = 0;
    while j < n
        invariant
            t == texts(vs@),
            n == vs@.len(),
            j <= n,
            first_unknown(t) is None,
            f@.len() == j,
            forall|q: int| 0 <= q < j ==> (#[trigger] f@[q]).0@ == t[q] && info_describes(f@[q].1, t[q]),
        decreases n - j,
    {
        proof {
            lemma_known_when_no_unknown(t, j as int);
        }
        let info = event_variant_info(&vs[j]);
        match info {
            Some(x) => {
                f.push((vs[j].clone(), x));
            },
            None => {
                return Err(unknown_variant_message(&vs[j]));
            },
        }
        j = j + 1;
    }
    Ok(f)
}

/// Once a prefix has an unknown variant, the whole list reports that one.
proof fn lemma_first_unknown_prefix(t: Seq<Seq<char>>, i: int)
    requires
        0 <= i <= t.len(),
        first_unknown(t.take(i)) is Some,
    ensures
        first_unknown(t) == first_unknown(t.take(i)),
    decreases t.len() - i,
{
    if i < t.len() {
        assert(t.take(i + 1).drop_last() =~= t.take(i));
        lemma_first_unknown_prefix(t, i + 1);
    } else {
        assert(t.take(i) =~= t);
    }
}

/// With no unknown variant, each variant is known.
proof fn lemma_known_when_no_unknown(t: Seq<Seq<char>>, i: int)
    requires
        0 <= i < t.len(),
        first_unknown(t) is None,
    ensures
        variant_info(t[i]) is Some,
    decreases t.len(),
{
    if i < t.len() - 1 {
        lemma_known_when_no_unknown(t.drop_last(), i);
    }
}

/// Once a prefix has an incompatible variant, the whole list reports that one.
proof fn lemma_incompatibility_prefix(first: Seq<char>, rest: Seq<Seq<char>>, i: int)
    requires
        0 <= i <= rest.len(),
        first_incompatibility(first, rest.take(i)) is Some,
    ensures
        first_incompatibility(first, rest) == first_incompatibility(first, rest.take(i)),
    decreases rest.len() - i,
{
    if i < rest.len() {
        assert(rest.take(i + 1).drop_last() =~= rest.take(i));
        lemma_incompatibility_prefix(first, rest, i + 1);
    } else {
        assert(rest.take(i) =~= rest);
    }
}

/// What the state kept while checking has claimed.
spec fn seen_view(once: Seq<AnnotationKind>, all_fn: Option<String>, filtered: Seq<String>) -> Seen {
    Seen {
        once,
        all_fn: match all_fn {
            Some(f) => Some(f@),
            None => None,
        },
        filtered: texts(filtered),
    }
}

fn contains_kind(v: &Vec<AnnotationKind>, k: AnnotationKind) -> (r: bool)
    ensures
        r == v@.contains(k),
{
    let mut i: usize = 0;
    while i < v.len()
        invariant
            i <= v@.len(),
            forall|j: int| 0 <= j < i ==> v@[j] != k,
        decreases v@.len() - i,
    {
        if v[i] == k {
            assert(v@[i as int] == k);
            return true;
        }
        i = i + 1;
    }
    false
}

/// The annotated function for a once-only annotation.
fn once_fn(k: AnnotationKind, name: String) -> (r: AnnotatedFn)
    requires
        k != AnnotationKind::OnEvent,
    ensures
        fn_kind(r) == k,
        fn_name_of(r) == name@,
{
    match k {
        AnnotationKind::OnLoad => AnnotatedFn::OnLoad(name),
        AnnotationKind::OnUnload => AnnotatedFn::OnUnload(name),
        AnnotationKind::OnEnable => AnnotatedFn::OnEnable(name),
        AnnotationKind::OnDisable => AnnotatedFn::OnDisable(name),
        AnnotationKind::OnCommand => AnnotatedFn::OnCommand(name),
        AnnotationKind::OnConfig => AnnotatedFn::OnConfig(name),
        AnnotationKind::Health => AnnotatedFn::Health(name),
        _ => AnnotatedFn::MediaTypes(name),
    }
}

proof fn lemma_check_items_step(items: Seq<AnnotatedItem>, i: int)
    requires
        0 <= i < items.len(),
    ensures
        check_items(items.take(i + 1)) == (match check_items(items.take(i)) {
            Err(m) => Err(m),
            Ok(st) => step(st, items[i]),
        }),
        annotated_items(items.take(i + 1)) == (if kind_of(items[i].annotation@) is Some {
            annotated_items(items.take(i)).push(items[i])
        } else {
            annotated_items(items.take(i))
        }),
{
    assert(items.take(i + 1).drop_last() =~= items.take(i));
}

proof fn lemma_check_items_err(items: Seq<AnnotatedItem>, i: int, m: Seq<char>)
    requires
        0 <= i <= items.len(),
        check_items(items.take(i)) == Err::<Seen, Seq<char>>(m),
    ensures
        check_items(items) == Err::<Seen, Seq<char>>(m),
    decreases items.len() - i,
{
    if i < items.len() {
        lemma_check_items_step(items, i);
        lemma_check_items_err(items, i + 1, m);
    } else {
        assert(items.take(i) =~= items);
    }
}

/// Checks the annotated functions of a plugin module against the rules and
/// lists them in order: each once-only annotation may appear once; every
/// variant in one `#[on_event(...)]` must be an event variant whose handler
/// receives the same handles and payload type as the first; a bare
/// `#[on_event]` may appear once and never together with `#[on_event(...)]`.
/// Items whose attribute is no plugin annotation are passed over. The
/// message of the first rule broken is returned.
pub fn parse_plugin_module(items: &Vec<AnnotatedItem>) -> (r: Result<Vec<AnnotatedFn>, String>)
    ensures
        match r {
            Ok(out) => {
                &&& check_items(items@) is Ok
                &&& out@.len() == annotated_items(items@).len()
                &&& forall|q: int|
                    0 <= q < out@.len() ==> describes(
                        #[trigger] out@[q],
                        annotated_items(items@)[q],
                    )
            },
            Err(m) => check_items(items@) == Err::<Seen, Seq<char>>(m@),
        },
{
    let mut once: Vec<AnnotationKind> = Vec::new();
    let mut all_fn: Option<String> = None;
    let mut filtered: Vec<String> = Vec::new();
    let mut out: Vec<AnnotatedFn> = Vec::new();
    let n = items.len();
    assert(items@.take(0) =~= Seq::<AnnotatedItem>::empty());
    assert(texts(filtered@) =~= Seq::<Seq<char>>::empty());
    let mut i: usize = 0;
    while i < n
        invariant
            n == items@.len(),
            i <= n,
            check_items(items@.take(i as int)) == Ok::<Seen, Seq<char>>(
                seen_view(once@, all_fn, filtered@),
            ),
            out@.len() == annotated_items(items@.take(i as int)).len(),
            forall|q: int|
                0 <= q < out@.len() ==> describes(
                    #[trigger] out@[q],
                    annotated_items(items@.take(i as int))[q],
                ),
        decreases n - i,
    {
        proof {
            lemma_check_items_step(items@, i as int);
        }
        let it = &items[i];
        let ghost st = seen_view(once@, all_fn, filtered@);
        let ghost before = annotated_items(items@.take(i as int));
        match annotation_kind(&it.annotation) {
            None => {},
            Some(AnnotationKind::OnEvent) => {
                if it.variants.len() == 0 {
                    if filtered.len() > 0 {
                        let m = all_after_filtered_message(&filtered);
                        proof {
                            lemma_check_items_err(items@, i + 1, m@);
                        }
                        return Err(m);
                    }
                    match &all_fn {
                        Some(f) => {
                            let m = duplicate_all_message(f);
                            proof {
                                lemma_check_items_err(items@, i + 1, m@);
                            }
                            return Err(m);
                        },
                        None => {},
                    }
                    all_fn = Some(it.fn_name.clone());
                    out.push(AnnotatedFn::OnEvent(it.fn_name.clone(), OnEventAttr::All));
                    assert(texts(it.variants@) =~= Seq::<Seq<char>>::empty());
                } else {
                    let f = match check_variants(&it.variants) {
                        Ok(f) => f,
                        Err(m) => {
                            proof {
                                lemma_check_items_err(items@, i + 1, m@);
                            }
                            return Err(m);
                        },
                    };
                    match &all_fn {
                        Some(a) => {
                            let m = filtered_after_all_message(a);
                            proof {
                                lemma_check_items_err(items@, i + 1, m@);
                            }
                            return Err(m);
                        },
                        None => {},
                    }
                    let ghost t = texts(it.variants@);
                    let ghost old_filtered = texts(filtered@);
                    let mut j: usize = 0;
                    while j < it.variants.len()
                        invariant
                            t == texts(it.variants@),
                            j <= it.variants@.len(),
                            texts(filtered@) == old_filtered + t.take(j as int),
                        decreases it.variants@.len() - j,
                    {
                        let v = it.variants[j].clone();
                        let ghost prev = filtered@;
                        filtered.push(v);
                        assert(texts(filtered@) =~= texts(prev).push(t[j as int]));
                        assert(t.take(j + 1) =~= t.take(j as int).push(t[j as int]));
                        assert(texts(filtered@) =~= old_filtered + t.take(j + 1));
                        j = j + 1;
                    }
                    assert(t.take(it.variants@.len() as int) =~= t);
                    out.push(AnnotatedFn::OnEvent(it.fn_name.clone(), OnEventAttr::Filtered(f)));
                }
            },
            Some(k) => {
                if contains_kind(&once, k) {
                    let m = duplicate_message(k);
                    proof {
                        lemma_check_items_err(items@, i + 1, m@);
                    }
                    return Err(m);
                }
                once.push(k);
                out.push(once_fn(k, it.fn_name.clone()));
            },
        }
        proof {
            let after = annotated_items(items@.take(i + 1));
            assert forall|q: int| 0 <= q < out@.len() implies describes(
                #[trigger] out@[q],
                after[q],
            ) by {
                if q < before.len() {
                    assert(after[q] == before[q]);
                }
            }
        }
        i = i + 1;
    }
    assert(items@.take(n as int) =~= items@);
    Ok(out)
}

/// What a handler of a variant receives, as plain values.
pub open spec fn info_view(i: EventVariantInfo) -> (Option<Seq<Seq<char>>>, CtxTy) {
    (handles_view(i.handles), i.ctx_ty)
}

/// One variant claimed by one `#[on_event(...)]` handler: the handler's
/// name, the variant, and what the handler receives.
pub type EventClaim = (Seq<char>, Seq<char>, (Option<Seq<Seq<char>>>, CtxTy));

/// The variants an annotated function claims.
pub open spec fn claims_of(x: AnnotatedFn) -> Seq<EventClaim> {
    match x {
        AnnotatedFn::OnEvent(n, OnEventAttr::Filtered(f)) => f@.map_values(
            |p: (String, EventVariantInfo)| (n@, p.0@, info_view(p.1)),
        ),
        _ => seq![],
    }
}

/// The variants claimed by `#[on_event(...)]` handlers, in order.
pub open spec fn event_claims(a: Seq<AnnotatedFn>) -> Seq<EventClaim>
    decreases a.len(),
{
    if a.len() == 0 {
        seq![]
    } else {
        event_claims(a.drop_last()) + claims_of(a.last())
    }
}

/// The claimed variants, each once, in the order of first claim.
pub open spec fn distinct_variants(p: Seq<EventClaim>) -> Seq<Seq<char>>
    decreases p.len(),
{
    if p.len() == 0 {
        seq![]
    } else {
        let d = distinct_variants(p.drop_last());
        if d.contains(p.last().1) {
            d
        } else {
            d.push(p.last().1)
        }
    }
}

/// The handlers that claimed variant `v`, in order.
pub open spec fn handlers_for(p: Seq<EventClaim>, v: Seq<char>) -> Seq<Seq<char>>
    decreases p.len(),
{
    if p.len() == 0 {
        seq![]
    } else if p.last().1 == v {
        handlers_for(p.drop_last(), v).push(p.last().0)
    } else {
        handlers_for(p.drop_last(), v)
    }
}

/// What the first claim of variant `v` says its handler receives.
pub open spec fn first_info(p: Seq<EventClaim>, v: Seq<char>) -> Option<
    (Option<Seq<Seq<char>>>, CtxTy),
>
    decreases p.len(),
{
    if p.len() == 0 {
        None
    } else {
        match first_info(p.drop_last(), v) {
            Some(i) => Some(i),
            None => if p.last().1 == v {
                Some(p.last().2)
            } else {
                None
            },
        }
    }
}

/// The name of the first function with annotation `k`.
pub open spec fn first_of(a: Seq<AnnotatedFn>, k: AnnotationKind) -> Option<Seq<char>>
    decreases a.len(),
{
    if a.len() == 0 {
        None
    } else {
        match first_of(a.drop_last(), k) {
            Some(n) => Some(n),
            None => if fn_kind(a.last()) == k {
                Some(fn_name_of(a.last()))
            } else {
                None
            },
        }
    }
}

/// The name of the first function with a bare `#[on_event]`.
pub open spec fn first_all(a: Seq<AnnotatedFn>) -> Option<Seq<char>>
    decreases a.len(),
{
    if a.len() == 0 {
        None
    } else {
        match first_all(a.drop_last()) {
            Some(n) => Some(n),
            None => if a.last() matches AnnotatedFn::OnEvent(_, OnEventAttr::All) {
                Some(fn_name_of(a.last()))
            } else {
                None
            },
        }
    }
}

/// Whether some function carries `#[on_event(...)]`.
pub open spec fn has_filtered(a: Seq<AnnotatedFn>) -> bool {
    exists|i: int|
        0 <= i < a.len() && #[trigger] a[i] matches AnnotatedFn::OnEvent(_, OnEventAttr::Filtered(_))
}

/// How a list of strings is written by std's `Debug` (as `{:?}` shows a
/// `Vec<String>`).
pub uninterp spec fn debug_list_text(items: Seq<Seq<char>>) -> Seq<char>;

/// Writes a list of strings with std's `Debug` for `Vec<String>`, the
/// form `{:?}` shows. The contract claims only that the text is what that
/// formatting gives for these strings (a function of them alone); its
/// escaping rules are not stated here.
#[verifier::external_body]
fn debug_list(v: &Vec<String>) -> (r: String)
    ensures
        r@ == debug_list_text(texts(v@)),
{
    format!("{:?}", v)
}

pub open spec fn media_types_conflict_text(
    module_name: Seq<char>,
    fn_name: Seq<char>,
    types_debug: Seq<char>,
) -> Seq<char> {
    "conflict: `"@ + module_name + "::"@ + fn_name
        + "` is annotated with `#[media_types]`, but `media_types` are also set in `#[plugin(media_types = "@
        + types_debug + ")]`"@
}

/// The message for a `#[media_types]` function in a plugin whose attribute
/// also lists media types, given those types as `{:?}` writes them.
pub fn media_types_conflict_message(
    module_name: &String,
    fn_name: &String,
    types_debug: &String,
) -> (r: String)
    ensures
        r@ == media_types_conflict_text(module_name@, fn_name@, types_debug@),
{
    let mut m = "conflict: `".to_owned();
    m.append(module_name.as_str());
    m.append("::");
    m.append(fn_name.as_str());
    m.append(
        "` is annotated with `#[media_types]`, but `media_types` are also set in `#[plugin(media_types = ",
    );
    m.append(types_debug.as_str());
    m.append(")]`");
    m
}

/// The arguments of `#[plugin(...)]`: the media types it lists.
#[derive(Debug)]
pub struct PluginAttr {
    pub media_types: Vec<String>,
}

/// One arm of the generated event dispatch: a claimed variant, every
/// handler that claimed it (called in this order), and what they receive.
#[derive(Debug)]
pub struct DispatchArm {
    pub variant: String,
    pub handlers: Vec<String>,
    pub info: EventVariantInfo,
}

/// What the generated `on_event` does.
#[derive(Debug)]
pub enum EventDispatch {
    /// No handler: every event is acknowledged.
    Ignore,
    /// A bare `#[on_event]` handler gets every event as it came.
    Forward(String),
    /// The event is decoded and handed to the handlers of its variant.
    Dispatch(Vec<DispatchArm>),
}

/// Where the generated plugin's media types come from.
#[derive(Debug)]
pub enum MediaTypesSource {
    Empty,
    FromFn(String),
    Listed(Vec<String>),
}

/// What the generated plugin calls for each hook; `None` where the hook
/// answers with its default.
#[derive(Debug)]
pub struct PluginPlan {
    pub on_load: Option<String>,
    pub on_unload: Option<String>,
    pub on_enable: Option<String>,
    pub on_disable: Option<String>,
    /// The event variants registered when the plugin loads, in order.
    pub registrations: Vec<String>,
    pub on_event: EventDispatch,
    pub on_command: Option<String>,
    pub on_config: Option<String>,
    pub health: Option<String>,
    pub media_types: MediaTypesSource,
}

pub open spec fn opt_text(o: Option<String>) -> Option<Seq<char>> {
    match o {
        Some(s) => Some(s@),
        None => None,
    }
}

/// `arms` and `regs` are the dispatch arms and registrations for `p`.
pub open spec fn arms_for(arms: Seq<DispatchArm>, regs: Seq<String>, p: Seq<EventClaim>) -> bool {
    let d = distinct_variants(p);
    &&& arms.len() == d.len()
    &&& texts(regs) == d
    &&& forall|i: int|
        0 <= i < d.len() ==> {
            &&& (#[trigger] arms[i]).variant@ == d[i]
            &&& texts(arms[i].handlers@) == handlers_for(p, d[i])
            &&& first_info(p, d[i]) == Some(info_view(arms[i].info))
        }
}

proof fn lemma_distinct_has_last(p: Seq<EventClaim>)
    requires
        p.len() > 0,
    ensures
        distinct_variants(p).contains(p.last().1),
        forall|v: Seq<char>|
            distinct_variants(p.drop_last()).contains(v) ==> distinct_variants(p).contains(v),
{
    let d = distinct_variants(p.drop_last());
    if !d.contains(p.last().1) {
        assert(d.push(p.last().1)[d.len() as int] == p.last().1);
        assert forall|v: Seq<char>| d.contains(v) implies d.push(p.last().1).contains(v) by {
            let k = choose|k: int| 0 <= k < d.len() && d[k] == v;
            assert(d.push(p.last().1)[k] == v);
        }
    }
}

/// A variant never claimed has no handlers and no info.
proof fn lemma_unclaimed(p: Seq<EventClaim>, v: Seq<char>)
    requires
        !distinct_variants(p).contains(v),
    ensures
        handlers_for(p, v) == Seq::<Seq<char>>::empty(),
        first_info(p, v) is None,
    decreases p.len(),
{
    if p.len() > 0 {
        lemma_distinct_has_last(p);
        lemma_unclaimed(p.drop_last(), v);
    }
}

/// Each claimed variant appears once.
proof fn lemma_distinct_unique(p: Seq<EventClaim>)
    ensures
        forall|i: int, j: int|
            0 <= i < j < distinct_variants(p).len() ==> distinct_variants(p)[i]
                != distinct_variants(p)[j],
    decreases p.len(),
{
    if p.len() > 0 {
        lemma_distinct_unique(p.drop_last());
        let d = distinct_variants(p.drop_last());
        if !d.contains(p.last().1) {
            assert forall|i: int, j: int|
                0 <= i < j < d.len() + 1 implies d.push(p.last().1)[i] != d.push(
                p.last().1,
            )[j] by {
                if j == d.len() {
                    assert(d[i] != p.last().1);
                }
            }
        }
    }
}

/// A copy of a list of strings.
fn copy_strings(v: &Vec<String>) -> (r: Vec<String>)
    ensures
        texts(r@) == texts(v@),
{
    let mut r: Vec<String> = Vec::new();
    let mut i: usize = 0;
    while i < v.len()
        invariant
            i <= v@.len(),
            texts(r@) == texts(v@).take(i as int),
        decreases v@.len() - i,
    {
        let s = v[i].clone();
        let ghost prev = r@;
        r.push(s);
        assert(texts(r@) =~= texts(prev).push(v@[i as int]@));
        assert(texts(r@) =~= texts(v@).take(i + 1));
        i = i + 1;
    }
    assert(texts(v@).take(v@.len() as int) =~= texts(v@));
    r
}

/// A copy of what a handler receives.
fn copy_info(info: &EventVariantInfo) -> (r: EventVariantInfo)
    ensures
        info_view(r) == info_view(*info),
{
    let handles = match &info.handles {
        Some(h) => Some(copy_strings(h)),
        None => None,
    };
    EventVariantInfo { handles, ctx_ty: info.ctx_ty }
}

/// Adds handler `f`'s claim of variant `v` to the dispatch arms and the
/// registrations.
fn add_claim(
    arms: &mut Vec<DispatchArm>,
    regs: &mut Vec<String>,
    f: &String,
    v: &String,
    info: &EventVariantInfo,
    Ghost(p): Ghost<Seq<EventClaim>>,
)
    requires
        arms_for(old(arms)@, old(regs)@, p),
    ensures
        arms_for(final(arms)@, final(regs)@, p.push((f@, v@, info_view(*info)))),
{
    let ghost q = p.push((f@, v@, info_view(*info)));
    let ghost d = distinct_variants(p);
    proof {
        assert(q.drop_last() =~= p);
        lemma_distinct_unique(p);
    }
    let mut i: usize = 0;
    while i < arms.len()
        invariant
            arms@ == old(arms)@,
            regs@ == old(regs)@,
            arms_for(arms@, regs@, p),
            d == distinct_variants(p),
            q == p.push((f@, v@, info_view(*info))),
            q.drop_last() == p,
            i <= arms@.len(),
            forall|k: int| 0 <= k < i ==> d[k] != v@,
        decreases arms@.len() - i,
    {
        if arms[i].variant == *v {
            let mut arm = arms.remove(i);
            let g = f.clone();
            arm.handlers.push(g);
            arms.insert(i, arm);
            proof {
                lemma_distinct_unique(p);
                assert(d.contains(v@)) by {
                    assert(d[i as int] == v@);
                }
                assert(distinct_variants(q) == d);
                assert forall|k: int| 0 <= k < d.len() implies {
                    &&& (#[trigger] arms@[k]).variant@ == d[k]
                    &&& texts(arms@[k].handlers@) == handlers_for(q, d[k])
                    &&& first_info(q, d[k]) == Some(info_view(arms@[k].info))
                } by {
                    if k == i {
                        assert(texts(arms@[k].handlers@) =~= texts(old(arms)@[k].handlers@).push(
                            f@,
                        ));
                    } else {
                        assert(arms@[k] == old(arms)@[k]);
                        assert(d[k] != d[i as int]);
                    }
                }
            }
            return;
        }
        i = i + 1;
    }
    proof {
        assert(!d.contains(v@));
        lemma_unclaimed(p, v@);
        assert(distinct_variants(q) == d.push(v@));
    }
    let mut handlers: Vec<String> = Vec::new();
    handlers.push(f.clone());
    let arm = DispatchArm { variant: v.clone(), handlers, info: copy_info(info) };
    arms.push(arm);
    regs.push(v.clone());
    proof {
        let d2 = d.push(v@);
        assert(texts(regs@) =~= d2);
        assert forall|k: int| 0 <= k < d2.len() implies {
            &&& (#[trigger] arms@[k]).variant@ == d2[k]
            &&& texts(arms@[k].handlers@) == handlers_for(q, d2[k])
            &&& first_info(q, d2[k]) == Some(info_view(arms@[k].info))
        } by {
            if k == d.len() {
                assert(texts(arms@[k].handlers@) =~= seq![f@]);
                assert(handlers_for(q, v@) =~= seq![f@]);
            } else {
                assert(arms@[k] == old(arms)@[k]);
            }
        }
    }
}

fn annotated_kind(x: &AnnotatedFn) -> (r: AnnotationKind)
    ensures
        r == fn_kind(*x),
{
    match x {
        AnnotatedFn::OnLoad(_) => AnnotationKind::OnLoad,
        AnnotatedFn::OnUnload(_) => AnnotationKind::OnUnload,
        AnnotatedFn::OnEnable(_) => AnnotationKind::OnEnable,
        AnnotatedFn::OnDisable(_) => AnnotationKind::OnDisable,
        AnnotatedFn::OnEvent(_, _) => AnnotationKind::OnEvent,
        AnnotatedFn::OnCommand(_) => AnnotationKind::OnCommand,
        AnnotatedFn::OnConfig(_) => AnnotationKind::OnConfig,
        AnnotatedFn::Health(_) => AnnotationKind::Health,
        AnnotatedFn::MediaTypes(_) => AnnotationKind::MediaTypes,
    }
}

fn annotated_name(x: &AnnotatedFn) -> (r: &String)
    ensures
        r@ == fn_name_of(*x),
{
    match x {
        AnnotatedFn::OnLoad(n) => n,
        AnnotatedFn::OnUnload(n) => n,
        AnnotatedFn::OnEnable(n) => n,
        AnnotatedFn::OnDisable(n) => n,
        AnnotatedFn::OnEvent(n, _) => n,
        AnnotatedFn::OnCommand(n) => n,
        AnnotatedFn::OnConfig(n) => n,
        AnnotatedFn::Health(n) => n,
        AnnotatedFn::MediaTypes(n) => n,
    }
}

proof fn lemma_first_of_prefix(a: Seq<AnnotatedFn>, k: AnnotationKind, i: int)
    requires
        0 <= i <= a.len(),
        first_of(a.take(i), k) is Some,
    ensures
        first_of(a, k) == first_of(a.take(i), k),
    decreases a.len() - i,
{
    if i < a.len() {
        assert(a.take(i + 1).drop_last() =~= a.take(i));
        lemma_first_of_prefix(a, k, i + 1);
    } else {
        assert(a.take(i) =~= a);
    }
}

proof fn lemma_first_all_prefix(a: Seq<AnnotatedFn>, i: int)
    requires
        0 <= i <= a.len(),
        first_all(a.take(i)) is Some,
    ensures
        first_all(a) == first_all(a.take(i)),
    decreases a.len() - i,
{
    if i < a.len() {
        assert(a.take(i + 1).drop_last() =~= a.take(i));
        lemma_first_all_prefix(a, i + 1);
    } else {
        assert(a.take(i) =~= a);
    }
}

/// The name of the first function with annotation `k`.
fn first_name(a: &Vec<AnnotatedFn>, k: AnnotationKind) -> (r: Option<String>)
    ensures
        opt_text(r) == first_of(a@, k),
{
    let mut i: usize = 0;
    while i < a.len()
        invariant
            i <= a@.len(),
            first_of(a@.take(i as int), k) is None,
        decreases a@.len() - i,
    {
        assert(a@.take(i + 1).drop_last() =~= a@.take(i as int));
        if annotated_kind(&a[i]) == k {
            let n = annotated_name(&a[i]).clone();
            proof {
                lemma_first_of_prefix(a@, k, i + 1);
            }
            return Some(n);
        }
        i = i + 1;
    }
    assert(a@.take(a@.len() as int) =~= a@);
    None
}

/// The name of the first function with a bare `#[on_event]`.
fn first_all_name(a: &Vec<AnnotatedFn>) -> (r: Option<String>)
    ensures
        opt_text(r) == first_all(a@),
{
    let mut i: usize = 0;
    while i < a.len()
        invariant
            i <= a@.len(),
            first_all(a@.take(i as int)) is None,
        decreases a@.len() - i,
    {
        assert(a@.take(i + 1).drop_last() =~= a@.take(i as int));
        if let AnnotatedFn::OnEvent(n, OnEventAttr::All) = &a[i] {
            let n = n.clone();
            proof {
                lemma_first_all_prefix(a@, i + 1);
            }
            return Some(n);
        }
        i = i + 1;
    }
    assert(a@.take(a@.len() as int) =~= a@);
    None
}

/// The dispatch arms and registrations for every `#[on_event(...)]` claim,
/// and whether any function carries `#[on_event(...)]`.
fn collect_claims(a: &Vec<AnnotatedFn>) -> (r: (Vec<DispatchArm>, Vec<String>, bool))
    ensures
        arms_for(r.0@, r.1@, event_claims(a@)),
        r.2 == has_filtered(a@),
{
    let mut arms: Vec<DispatchArm> = Vec::new();
    let mut regs: Vec<String> = Vec::new();
    let mut seen = false;
    assert(a@.take(0) =~= Seq::<AnnotatedFn>::empty());
    assert(texts(regs@) =~= Seq::<Seq<char>>::empty());
    let mut i: usize = 0;
    while i < a.len()
        invariant
            i <= a@.len(),
            arms_for(arms@, regs@, event_claims(a@.take(i as int))),
            seen == exists|k: int|
                0 <= k < i && #[trigger] a@[k] matches AnnotatedFn::OnEvent(
                    _,
                    OnEventAttr::Filtered(_),
                ),
        decreases a@.len() - i,
    {
        let ghost base = event_claims(a@.take(i as int));
        proof {
            assert(a@.take(i + 1).drop_last() =~= a@.take(i as int));
            assert(event_claims(a@.take(i + 1)) == base + claims_of(a@[i as int]));
        }
        if let AnnotatedFn::OnEvent(n, OnEventAttr::Filtered(f)) = &a[i] {
            seen = true;
            let ghost c = claims_of(a@[i as int]);
            assert(base + c.take(0) =~= base);
            let mut j: usize = 0;
            while j < f.len()
                invariant
                    j <= f@.len(),
                    c == f@.map_values(
                        |p: (String, EventVariantInfo)| (n@, p.0@, info_view(p.1)),
                    ),
                    arms_for(arms@, regs@, base + c.take(j as int)),
                decreases f@.len() - j,
            {
                add_claim(&mut arms, &mut regs, n, &f[j].0, &f[j].1, Ghost(base + c.take(j as int)));
                assert((base + c.take(j as int)).push((n@, f@[j as int].0@, info_view(f@[j as int].1)))
                    =~= base + c.take(j + 1));
                j = j + 1;
            }
            assert(c.take(f@.len() as int) =~= c);
        } else {
            assert(claims_of(a@[i as int]) =~= Seq::<EventClaim>::empty());
            assert(base + claims_of(a@[i as int]) =~= base);
        }
        i = i + 1;
    }
    assert(a@.take(a@.len() as int) =~= a@);
    (arms, regs, seen)
}

/// Decides what the generated plugin calls for each hook: the first
/// function with each annotation; for events, the bare `#[on_event]`
/// handler if there is one, else a dispatch that hands each claimed
/// variant to all of its handlers in order; each claimed variant is
/// registered once. A `#[media_types]` function together with media types
/// listed in `#[plugin(...)]` is refused.
pub fn generate_plugin(attr: &PluginAttr, module_name: &String, annotated: &Vec<AnnotatedFn>) -> (r:
    Result<PluginPlan, String>)
    ensures
        match r {
            Err(m) => {
                &&& first_of(annotated@, AnnotationKind::MediaTypes) is Some
                &&& attr.media_types@.len() > 0
                &&& m@ == media_types_conflict_text(
                    module_name@,
                    first_of(annotated@, AnnotationKind::MediaTypes)->0,
                    debug_list_text(texts(attr.media_types@)),
                )
            },
            Ok(plan) => {
                &&& opt_text(plan.on_load) == first_of(annotated@, AnnotationKind::OnLoad)
                &&& opt_text(plan.on_unload) == first_of(annotated@, AnnotationKind::OnUnload)
                &&& opt_text(plan.on_enable) == first_of(annotated@, AnnotationKind::OnEnable)
                &&& opt_text(plan.on_disable) == first_of(annotated@, AnnotationKind::OnDisable)
                &&& opt_text(plan.on_command) == first_of(annotated@, AnnotationKind::OnCommand)
                &&& opt_text(plan.on_config) == first_of(annotated@, AnnotationKind::OnConfig)
                &&& opt_text(plan.health) == first_of(annotated@, AnnotationKind::Health)
                &&& texts(plan.registrations@) == distinct_variants(event_claims(annotated@))
                &&& match plan.on_event {
                    EventDispatch::Forward(f) => first_all(annotated@) == Some(f@),
                    EventDispatch::Dispatch(arms) => {
                        &&& first_all(annotated@) is None
                        &&& has_filtered(annotated@)
                        &&& arms_for(arms@, plan.registrations@, event_claims(annotated@))
                    },
                    EventDispatch::Ignore => first_all(annotated@) is None && !has_filtered(
                        annotated@,
                    ),
                }
                &&& match plan.media_types {
                    MediaTypesSource::FromFn(f) => {
                        &&& first_of(annotated@, AnnotationKind::MediaTypes) == Some(f@)
                        &&& attr.media_types@.len() == 0
                    },
                    MediaTypesSource::Listed(l) => {
                        &&& first_of(annotated@, AnnotationKind::MediaTypes) is None
                        &&& attr.media_types@.len() > 0
                        &&& texts(l@) == texts(attr.media_types@)
                    },
                    MediaTypesSource::Empty => {
                        &&& first_of(annotated@, AnnotationKind::MediaTypes) is None
                        &&& attr.media_types@.len() == 0
                    },
                }
            },
        },
{
    let on_load = first_name(annotated, AnnotationKind::OnLoad);
    let on_unload = first_name(annotated, AnnotationKind::OnUnload);
    let on_enable = first_name(annotated, AnnotationKind::OnEnable);
    let on_disable = first_name(annotated, AnnotationKind::OnDisable);
    let on_event_all = first_all_name(annotated);
    let (arms, registrations, any_filtered) = collect_claims(annotated);
    let on_command = first_name(annotated, AnnotationKind::OnCommand);
    let on_config = first_name(annotated, AnnotationKind::OnConfig);
    let health = first_name(annotated, AnnotationKind::Health);
    let media_types_fn = first_name(annotated, AnnotationKind::MediaTypes);
    let media_types = match media_types_fn {
        Some(f) => {
            if attr.media_types.len() > 0 {
                let listed = debug_list(&attr.media_types);
                return Err(media_types_conflict_message(module_name, &f, &listed));
            }
            MediaTypesSource::FromFn(f)
        },
        None => {
            if attr.media_types.len() > 0 {
                MediaTypesSource::Listed(copy_strings(&attr.media_types))
            } else {
                MediaTypesSource::Empty
            }
        },
    };
    let on_event = match on_event_all {
        Some(f) => EventDispatch::Forward(f),
        None => {
            if any_filtered {
                EventDispatch::Dispatch(arms)
            } else {
                EventDispatch::Ignore
            }
        },
    };
    Ok(
        PluginPlan {
            on_load,
            on_unload,
            on_enable,
            on_disable,
            registrations,
            on_event,
            on_command,
            on_config,
            health,
            media_types,
        },
    )
}

pub open spec fn prefixed(acc: Seq<Seq<char>>, r: Result<Seq<Seq<char>>, AttrSyntaxError>) -> Result<
    Seq<Seq<char>>,
    AttrSyntaxError,
> {
    match r {
        Ok(x) => Ok(acc + x),
        Err(e) => Err(e),
    }
}

/// The string literals of a bracketed list `"a", "b", ...` from token `i`
/// on; a trailing comma is allowed.
pub open spec fn parse_str_list(c: Seq<AttrToken>, i: int) -> Result<
    Seq<Seq<char>>,
    AttrSyntaxError,
>
    decreases c.len() - i,
{
    if i >= c.len() {
        Ok(seq![])
    } else {
        match c[i] {
            AttrToken::Str(s) => if i + 1 >= c.len() {
                Ok(seq![s@])
            } else if is_punct(c[i + 1], ',') {
                prefixed(seq![s@], parse_str_list(c, i + 2))
            } else {
                Err(AttrSyntaxError::ExpectedComma)
            },
            _ => Err(AttrSyntaxError::ExpectedString),
        }
    }
}

/// The media types of `#[plugin(...)]` arguments from token `i` on: a
/// comma-separated list of entries, each an identifier; the identifier
/// `media_types` is followed by `=` and a bracketed list of strings.
pub open spec fn parse_attr_entries(t: Seq<AttrToken>, i: int) -> Result<
    Seq<Seq<char>>,
    AttrSyntaxError,
>
    decreases t.len() - i, 1int,
{
    if i >= t.len() {
        Ok(seq![])
    } else {
        match t[i] {
            AttrToken::Ident(name) => if name@ == "media_types"@ {
                if i + 1 < t.len() && is_punct(t[i + 1], '=') {
                    if i + 2 < t.len() {
                        match t[i + 2] {
                            AttrToken::Group(Delimiter::Bracket, content) => match parse_str_list(
                                content@,
                                0,
                            ) {
                                Ok(m) => prefixed(m, parse_after_entry(t, i + 3)),
                                Err(e) => Err(e),
                            },
                            _ => Err(AttrSyntaxError::ExpectedBrackets),
                        }
                    } else {
                        Err(AttrSyntaxError::ExpectedBrackets)
                    }
                } else {
                    Err(AttrSyntaxError::ExpectedEq)
                }
            } else {
                parse_after_entry(t, i + 1)
            },
            _ => Err(AttrSyntaxError::ExpectedIdent),
        }
    }
}

/// After an entry: the end, or a comma and more entries.
pub open spec fn parse_after_entry(t: Seq<AttrToken>, j: int) -> Result<
    Seq<Seq<char>>,
    AttrSyntaxError,
>
    decreases t.len() - j, 0int,
{
    if j >= t.len() {
        Ok(seq![])
    } else if is_punct(t[j], ',') {
        parse_attr_entries(t, j + 1)
    } else {
        Err(AttrSyntaxError::ExpectedComma)
    }
}

/// Reads a bracketed list of string literals.
fn parse_str_list_tokens(c: &Vec<AttrToken>) -> (r: Result<Vec<String>, AttrSyntaxError>)
    ensures
        match r {
            Ok(v) => parse_str_list(c@, 0) == Ok::<Seq<Seq<char>>, AttrSyntaxError>(texts(v@)),
            Err(e) => parse_str_list(c@, 0) == Err::<Seq<Seq<char>>, AttrSyntaxError>(e),
        },
{
    let mut out: Vec<String> = Vec::new();
    let mut i: usize = 0;
    assert(texts(out@) =~= Seq::<Seq<char>>::empty());
    assert(parse_str_list(c@, 0) == prefixed(texts(out@), parse_str_list(c@, 0)));
    while i < c.len()
        invariant
            i <= c@.len(),
            parse_str_list(c@, 0) == prefixed(texts(out@), parse_str_list(c@, i as int)),
        decreases c@.len() - i,
    {
        match &c[i] {
            AttrToken::Str(s) => {
                let ghost prev = texts(out@);
                out.push(s.clone());
                assert(texts(out@) =~= prev + seq![s@]);
                if i + 1 >= c.len() {
                    assert(prev + seq![s@] + Seq::<Seq<char>>::empty() =~= prev + seq![s@]);
                    return Ok(out);
                }
                if !token_is_punct(&c[i + 1], ',') {
                    return Err(AttrSyntaxError::ExpectedComma);
                }
                proof {
                    let rest = parse_str_list(c@, i + 2);
                    if rest is Ok {
                        assert(prev + (seq![s@] + rest->Ok_0) =~= texts(out@) + rest->Ok_0);
                    }
                }
                i = i + 2;
            },
            _ => {
                return Err(AttrSyntaxError::ExpectedString);
            },
        }
    }
    assert(texts(out@) + Seq::<Seq<char>>::empty() =~= texts(out@));
    Ok(out)
}

/// Reads the arguments of `#[plugin(...)]`: entries separated by commas,
/// each an identifier, where `media_types = ["...", ...]` lists the media
/// types the plugin handles. Other identifiers are passed over.
pub fn parse_plugin_attr(tokens: &Vec<AttrToken>) -> (r: Result<PluginAttr, AttrSyntaxError>)
    ensures
        match r {
            Ok(a) => parse_attr_entries(tokens@, 0) == Ok::<Seq<Seq<char>>, AttrSyntaxError>(
                texts(a.media_types@),
            ),
            Err(e) => parse_attr_entries(tokens@, 0) == Err::<Seq<Seq<char>>, AttrSyntaxError>(e),
        },
{
    let ghost t = tokens@;
    let mut media_types: Vec<String> = Vec::new();
    let mut i: usize = 0;
    assert(texts(media_types@) =~= Seq::<Seq<char>>::empty());
    assert(parse_attr_entries(t, 0) == prefixed(texts(media_types@), parse_attr_entries(t, 0)));
    while i < tokens.len()
        invariant
            t == tokens@,
            i <= t.len(),
            parse_attr_entries(t, 0) == prefixed(texts(media_types@), parse_attr_entries(t, i as int)),
        decreases t.len() - i,
    {
        let ghost acc = texts(media_types@);
        let next: usize;
        match &tokens[i] {
            AttrToken::Ident(name) => {
                if *name == "media_types".to_owned() {
                    if !(i + 1 < tokens.len() && token_is_punct(&tokens[i + 1], '=')) {
                        return Err(AttrSyntaxError::ExpectedEq);
                    }
                    if i + 2 >= tokens.len() {
                        return Err(AttrSyntaxError::ExpectedBrackets);
                    }
                    match &tokens[i + 2] {
                        AttrToken::Group(Delimiter::Bracket, content) => {
                            match parse_str_list_tokens(content) {
                                Ok(list) => {
                                    let mut k: usize = 0;
                                    let ghost lt = texts(list@);
                                    while k < list.len()
                                        invariant
                                            k <= list@.len(),
                                            lt == texts(list@),
                                            texts(media_types@) == acc + lt.take(k as int),
                                        decreases list@.len() - k,
                                    {
                                        let ghost prev = media_types@;
                                        media_types.push(list[k].clone());
                                        assert(texts(media_types@) =~= texts(prev).push(lt[k as int]));
                                        assert(lt.take(k + 1) =~= lt.take(k as int).push(lt[k as int]));
                                        k = k + 1;
                                    }
                                    assert(lt.take(list@.len() as int) =~= lt);
                                    proof {
                                        let rest = parse_after_entry(t, i + 3);
                                        if rest is Ok {
                                            assert(acc + (lt + rest->Ok_0) =~= (acc + lt) + rest->Ok_0);
                                        }
                                    }
                                },
                                Err(e) => {
                                    return Err(e);
                                },
                            }
                        },
                        _ => {
                            return Err(AttrSyntaxError::ExpectedBrackets);
                        },
                    }
                    next = i + 3;
                } else {
                    next = i + 1;
                }
            },
            _ => {
                return Err(AttrSyntaxError::ExpectedIdent);
            },
        }
        if next < tokens.len() {
            if !token_is_punct(&tokens[next], ',') {
                return Err(AttrSyntaxError::ExpectedComma);
            }
            i = next + 1;
        } else {
            assert(texts(media_types@) + Seq::<Seq<char>>::empty() =~= texts(media_types@));
            i = next;
        }
    }
    assert(texts(media_types@) + Seq::<Seq<char>>::empty() =~= texts(media_types@));
    Ok(PluginAttr { media_types })
}

/// Item `it` carries a bare `#[on_event]`.
pub open spec fn is_bare_event(it: AnnotatedItem) -> bool {
    kind_of(it.annotation@) == Some(AnnotationKind::OnEvent) && it.variants@.len() == 0
}

/// Item `it` carries `#[on_event(...)]` with at least one variant.
pub open spec fn is_filtered_event(it: AnnotatedItem) -> bool {
    kind_of(it.annotation@) == Some(AnnotationKind::OnEvent) && it.variants@.len() > 0
}

/// No two of `ai` break the once-only and the bare/filtered rules.
pub open spec fn annotations_compatible(ai: Seq<AnnotatedItem>) -> bool {
    forall|i: int, j: int|
        0 <= i < j < ai.len() ==> {
            &&& (kind_of((#[trigger] ai[i]).annotation@) == kind_of((#[trigger] ai[j]).annotation@)
                ==> kind_of(ai[i].annotation@) == Some(AnnotationKind::OnEvent))
            &&& !(is_bare_event(ai[i]) && is_bare_event(ai[j]))
            &&& !(is_bare_event(ai[i]) && is_filtered_event(ai[j]))
            &&& !(is_filtered_event(ai[i]) && is_bare_event(ai[j]))
        }
}

/// What the checking state records matches the annotated items met so far.
spec fn seen_tracks(st: Seen, ai: Seq<AnnotatedItem>) -> bool {
    &&& forall|k: AnnotationKind|
        k != AnnotationKind::OnEvent ==> (#[trigger] st.once.contains(k) <==> exists|i: int|
            0 <= i < ai.len() && kind_of((#[trigger] ai[i]).annotation@) == Some(k))
    &&& (st.all_fn is Some <==> exists|i: int| 0 <= i < ai.len() && is_bare_event(#[trigger] ai[i]))
    &&& (st.filtered.len() > 0 <==> exists|i: int|
        0 <= i < ai.len() && is_filtered_event(#[trigger] ai[i]))
    &&& forall|i: int| 0 <= i < ai.len() ==> kind_of((#[trigger] ai[i]).annotation@) is Some
}

proof fn lemma_seen_tracks(items: Seq<AnnotatedItem>)
    requires
        check_items(items) is Ok,
    ensures
        seen_tracks(check_items(items)->Ok_0, annotated_items(items)),
        annotations_compatible(annotated_items(items)),
    decreases items.len(),
{
    if items.len() == 0 {
        let st = check_items(items)->Ok_0;
        assert(st.once =~= Seq::<AnnotationKind>::empty());
    } else {
        let pre = items.drop_last();
        let it = items.last();
        lemma_seen_tracks(pre);
        let st0 = check_items(pre)->Ok_0;
        let st = check_items(items)->Ok_0;
        let ai0 = annotated_items(pre);
        let ai = annotated_items(items);
        match kind_of(it.annotation@) {
            None => {
                assert(ai == ai0);
                assert(st == st0);
            },
            Some(AnnotationKind::OnEvent) => {
                assert(ai == ai0.push(it));
                let vs = texts(it.variants@);
                assert(vs.len() == it.variants@.len());
                if vs.len() == 0 {
                    assert(st0.filtered.len() == 0 && st0.all_fn is None);
                    assert(is_bare_event(ai[ai0.len() as int]));
                } else {
                    assert(st0.all_fn is None);
                    assert(st.filtered.len() > 0);
                    assert(is_filtered_event(ai[ai0.len() as int]));
                }
                assert forall|k: AnnotationKind| k != AnnotationKind::OnEvent implies (
                #[trigger] st.once.contains(k) <==> exists|i: int|
                    0 <= i < ai.len() && kind_of((#[trigger] ai[i]).annotation@) == Some(k)) by {
                    if st.once.contains(k) {
                        let i = choose|i: int|
                            0 <= i < ai0.len() && kind_of((#[trigger] ai0[i]).annotation@) == Some(
                                k,
                            );
                        assert(ai[i] == ai0[i]);
                    }
                    if exists|i: int|
                        0 <= i < ai.len() && kind_of((#[trigger] ai[i]).annotation@) == Some(k) {
                        let i = choose|i: int|
                            0 <= i < ai.len() && kind_of((#[trigger] ai[i]).annotation@) == Some(
                                k,
                            );
                        assert(i < ai0.len());
                        assert(ai0[i] == ai[i]);
                    }
                }
                lemma_tracks_event_flags(st0, st, ai0, it);
            },
            Some(k) => {
                assert(ai == ai0.push(it));
                assert(!st0.once.contains(k));
                assert(st.once == st0.once.push(k));
                assert forall|q: AnnotationKind| q != AnnotationKind::OnEvent implies (
                #[trigger] st.once.contains(q) <==> exists|i: int|
                    0 <= i < ai.len() && kind_of((#[trigger] ai[i]).annotation@) == Some(q)) by {
                    if q == k {
                        assert(st.once[st0.once.len() as int] == k);
                        assert(kind_of(ai[ai0.len() as int].annotation@) == Some(k));
                    } else {
                        if st.once.contains(q) {
                            let m = choose|m: int| 0 <= m < st.once.len() && st.once[m] == q;
                            assert(st0.once[m] == q);
                            assert(st0.once.contains(q));
                            let i = choose|i: int|
                                0 <= i < ai0.len() && kind_of((#[trigger] ai0[i]).annotation@)
                                    == Some(q);
                            assert(ai[i] == ai0[i]);
                        }
                        if exists|i: int|
                            0 <= i < ai.len() && kind_of((#[trigger] ai[i]).annotation@) == Some(
                                q,
                            ) {
                            let i = choose|i: int|
                                0 <= i < ai.len() && kind_of((#[trigger] ai[i]).annotation@)
                                    == Some(q);
                            assert(i < ai0.len());
                            assert(ai0[i] == ai[i]);
                            assert(kind_of(ai0[i].annotation@) == Some(q));
                            assert(st0.once.contains(q));
                            let m = choose|m: int| 0 <= m < st0.once.len() && st0.once[m] == q;
                            assert(st.once[m] == q);
                        }
                    }
                }
                lemma_tracks_once_flags(st0, st, ai0, it, k);
            },
        }
    }
}

proof fn lemma_tracks_event_flags(st0: Seen, st: Seen, ai0: Seq<AnnotatedItem>, it: AnnotatedItem)
    requires
        seen_tracks(st0, ai0),
        annotations_compatible(ai0),
        kind_of(it.annotation@) == Some(AnnotationKind::OnEvent),
        st.once == st0.once,
        is_bare_event(it) ==> st0.filtered.len() == 0 && st0.all_fn is None && st.all_fn is Some
            && st.filtered == st0.filtered,
        is_filtered_event(it) ==> st0.all_fn is None && st.all_fn == st0.all_fn
            && st.filtered.len() > 0,
        forall|k: AnnotationKind|
            k != AnnotationKind::OnEvent ==> (#[trigger] st.once.contains(k) <==> exists|i: int|
                0 <= i < ai0.push(it).len() && kind_of((#[trigger] ai0.push(it)[i]).annotation@)
                    == Some(k)),
    ensures
        seen_tracks(st, ai0.push(it)),
        annotations_compatible(ai0.push(it)),
{
    let ai = ai0.push(it);
    let n = ai0.len() as int;
    assert(ai[n] == it);
    assert forall|i: int| 0 <= i < n implies ai[i] == ai0[i] by {}
    if is_bare_event(it) {
        assert(forall|i: int| 0 <= i < n ==> !is_filtered_event(#[trigger] ai0[i]));
        assert(forall|i: int| 0 <= i < n ==> !is_bare_event(#[trigger] ai0[i]));
        assert(st.filtered.len() > 0 <==> exists|i: int|
            0 <= i < ai.len() && is_filtered_event(#[trigger] ai[i])) by {
            if exists|i: int| 0 <= i < ai.len() && is_filtered_event(#[trigger] ai[i]) {
                let i = choose|i: int| 0 <= i < ai.len() && is_filtered_event(#[trigger] ai[i]);
                assert(ai0[i] == ai[i]);
            }
        }
        assert(is_bare_event(ai[n]));
    } else {
        assert(is_filtered_event(it));
        assert(forall|i: int| 0 <= i < n ==> !is_bare_event(#[trigger] ai0[i]));
        assert(st.all_fn is Some <==> exists|i: int| 0 <= i < ai.len() && is_bare_event(#[trigger] ai[i])) by {
            if exists|i: int| 0 <= i < ai.len() && is_bare_event(#[trigger] ai[i]) {
                let i = choose|i: int| 0 <= i < ai.len() && is_bare_event(#[trigger] ai[i]);
                assert(ai0[i] == ai[i]);
            }
        }
        assert(is_filtered_event(ai[n]));
    }
}

proof fn lemma_tracks_once_flags(
    st0: Seen,
    st: Seen,
    ai0: Seq<AnnotatedItem>,
    it: AnnotatedItem,
    k: AnnotationKind,
)
    requires
        seen_tracks(st0, ai0),
        annotations_compatible(ai0),
        kind_of(it.annotation@) == Some(k),
        k != AnnotationKind::OnEvent,
        !st0.once.contains(k),
        st.all_fn == st0.all_fn,
        st.filtered == st0.filtered,
        forall|q: AnnotationKind|
            q != AnnotationKind::OnEvent ==> (#[trigger] st.once.contains(q) <==> exists|i: int|
                0 <= i < ai0.push(it).len() && kind_of((#[trigger] ai0.push(it)[i]).annotation@)
                    == Some(q)),
    ensures
        seen_tracks(st, ai0.push(it)),
        annotations_compatible(ai0.push(it)),
{
    let ai = ai0.push(it);
    let n = ai0.len() as int;
    assert(ai[n] == it);
    assert forall|i: int| 0 <= i < n implies ai[i] == ai0[i] by {}
    assert(forall|i: int| 0 <= i < n ==> kind_of((#[trigger] ai0[i]).annotation@) != Some(k));
    assert(!is_bare_event(it) && !is_filtered_event(it));
    assert(st.all_fn is Some <==> exists|i: int| 0 <= i < ai.len() && is_bare_event(#[trigger] ai[i])) by {
        if exists|i: int| 0 <= i < ai.len() && is_bare_event(#[trigger] ai[i]) {
            let i = choose|i: int| 0 <= i < ai.len() && is_bare_event(#[trigger] ai[i]);
            assert(ai0[i] == ai[i]);
        }
    }
    assert(st.filtered.len() > 0 <==> exists|i: int|
        0 <= i < ai.len() && is_filtered_event(#[trigger] ai[i])) by {
        if exists|i: int| 0 <= i < ai.len() && is_filtered_event(#[trigger] ai[i]) {
            let i = choose|i: int| 0 <= i < ai.len() && is_filtered_event(#[trigger] ai[i]);
            assert(ai0[i] == ai[i]);
        }
    }
}

/// In a plugin module that passes the rules, each once-only annotation is
/// on at most one function, a bare `#[on_event]` is on at most one
/// function, and never beside an `#[on_event(...)]`.
pub proof fn lemma_accepted_annotations_compatible(items: Seq<AnnotatedItem>)
    requires
        check_items(items) is Ok,
    ensures
        annotations_compatible(annotated_items(items)),
{
    lemma_seen_tracks(items);
}

/// Every `#[on_event(...)]` among `items` lists known variants that can
/// share a handler.
pub open spec fn variants_ok(items: Seq<AnnotatedItem>) -> bool {
    forall|i: int|
        0 <= i < items.len() && kind_of((#[trigger] items[i]).annotation@) == Some(AnnotationKind::OnEvent)
            && items[i].variants@.len() > 0 ==> variants_error(texts(items[i].variants@)) is None
}

/// A plugin module's annotations are accepted exactly when no once-only
/// annotation is used twice, a bare `#[on_event]` is used at most once and
/// never together with an `#[on_event(...)]`, and every `#[on_event(...)]`
/// lists known variants that can share a handler.
pub proof fn lemma_module_accepted_exactly(items: Seq<AnnotatedItem>)
    ensures
        check_items(items) is Ok <==> (annotations_compatible(annotated_items(items))
            && variants_ok(items)),
    decreases items.len(),
{
    if items.len() > 0 {
        let pre = items.drop_last();
        let it = items.last();
        lemma_module_accepted_exactly(pre);
        let ai0 = annotated_items(pre);
        let ai = annotated_items(items);
        if kind_of(it.annotation@) is Some {
            assert(ai == ai0.push(it));
        } else {
            assert(ai == ai0);
        }
        if check_items(items) is Ok {
            lemma_accepted_annotations_compatible(items);
            assert(check_items(pre) is Ok);
            assert forall|i: int|
                0 <= i < items.len() && kind_of((#[trigger] items[i]).annotation@) == Some(AnnotationKind::OnEvent)
                    && items[i].variants@.len() > 0 implies variants_error(texts(items[i].variants@)) is None by {
                if i < items.len() - 1 {
                    assert(items[i] == pre[i]);
                } else {
                    assert(items[i] == it);
                }
            }
        }
        if annotations_compatible(ai) && variants_ok(items) {
            assert(annotations_compatible(ai0)) by {
                assert forall|i: int, j: int| 0 <= i < j < ai0.len() implies {
                    &&& (kind_of((#[trigger] ai0[i]).annotation@) == kind_of((#[trigger] ai0[j]).annotation@)
                        ==> kind_of(ai0[i].annotation@) == Some(AnnotationKind::OnEvent))
                    &&& !(is_bare_event(ai0[i]) && is_bare_event(ai0[j]))
                    &&& !(is_bare_event(ai0[i]) && is_filtered_event(ai0[j]))
                    &&& !(is_filtered_event(ai0[i]) && is_bare_event(ai0[j]))
                } by {
                    assert(ai[i] == ai0[i] && ai[j] == ai0[j]);
                }
            }
            assert(variants_ok(pre)) by {
                assert forall|i: int|
                    0 <= i < pre.len() && kind_of((#[trigger] pre[i]).annotation@) == Some(AnnotationKind::OnEvent)
                        && pre[i].variants@.len() > 0 implies variants_error(texts(pre[i].variants@)) is None by {
                    assert(pre[i] == items[i]);
                }
            }
            lemma_seen_tracks(pre);
            let st = check_items(pre)->Ok_0;
            let j = ai0.len() as int;
            match kind_of(it.annotation@) {
                None => {},
                Some(AnnotationKind::OnEvent) => {
                    assert(ai[j] == it);
                    if it.variants@.len() == 0 {
                        if st.filtered.len() > 0 {
                            let i = choose|i: int| 0 <= i < ai0.len() && is_filtered_event(#[trigger] ai0[i]);
                            assert(ai[i] == ai0[i]);
                        }
                        if st.all_fn is Some {
                            let i = choose|i: int| 0 <= i < ai0.len() && is_bare_event(#[trigger] ai0[i]);
                            assert(ai[i] == ai0[i]);
                        }
                    } else {
                        assert(items[items.len() - 1] == it);
                        assert(texts(it.variants@).len() == it.variants@.len());
                        if st.all_fn is Some {
                            let i = choose|i: int| 0 <= i < ai0.len() && is_bare_event(#[trigger] ai0[i]);
                            assert(ai[i] == ai0[i]);
                        }
                    }
                },
                Some(k) => {
                    assert(ai[j] == it);
                    if st.once.contains(k) {
                        let i = choose|i: int| 0 <= i < ai0.len() && kind_of((#[trigger] ai0[i]).annotation@) == Some(k);
                        assert(ai[i] == ai0[i]);
                    }
                },
            }
        }
    }
}

/// Each claimed variant is registered, and registered once, and nothing
/// else is registered: there are as many registrations as distinct claimed
/// variants.
pub proof fn lemma_registrations_once(p: Seq<EventClaim>)
    ensures
        forall|i: int, j: int|
            0 <= i < j < distinct_variants(p).len() ==> distinct_variants(p)[i]
                != distinct_variants(p)[j],
        forall|k: int| 0 <= k < p.len() ==> distinct_variants(p).contains(#[trigger] p[k].1),
        forall|i: int|
            #![trigger distinct_variants(p)[i]]
            0 <= i < distinct_variants(p).len() ==> exists|k: int|
                0 <= k < p.len() && #[trigger] p[k].1 == distinct_variants(p)[i],
    decreases p.len(),
{
    lemma_distinct_unique(p);
    if p.len() > 0 {
        let q = p.drop_last();
        lemma_registrations_once(q);
        lemma_distinct_has_last(p);
        assert forall|k: int| 0 <= k < p.len() implies distinct_variants(p).contains(
            #[trigger] p[k].1,
        ) by {
            if k < p.len() - 1 {
                assert(q[k] == p[k]);
            }
        }
        let d = distinct_variants(p);
        let d0 = distinct_variants(q);
        assert forall|i: int| #![trigger d[i]] 0 <= i < d.len() implies exists|k: int|
            0 <= k < p.len() && #[trigger] p[k].1 == d[i] by {
            if i < d0.len() {
                assert(d[i] == d0[i]);
                let k = choose|k: int| 0 <= k < q.len() && #[trigger] q[k].1 == d0[i];
                assert(p[k] == q[k]);
            } else {
                assert(d[i] == p.last().1);
                assert(p[p.len() - 1] == p.last());
            }
        }
    }
}

proof fn lemma_first_all_witness(a: Seq<AnnotatedFn>)
    requires
        first_all(a) is Some,
    ensures
        exists|i: int|
            0 <= i < a.len() && #[trigger] a[i] matches AnnotatedFn::OnEvent(_, OnEventAttr::All),
    decreases a.len(),
{
    if first_all(a.drop_last()) is Some {
        lemma_first_all_witness(a.drop_last());
        let i = choose|i: int|
            0 <= i < a.drop_last().len() && #[trigger] a.drop_last()[i] matches AnnotatedFn::OnEvent(
                _,
                OnEventAttr::All,
            );
        assert(a[i] == a.drop_last()[i]);
    } else {
        assert(a[a.len() - 1] == a.last());
    }
}

/// For a plugin module that passes the rules, the generated `on_event`
/// never forwards to a bare handler while `#[on_event(...)]` handlers
/// exist: no declared event handler is left out.
pub proof fn lemma_accepted_module_keeps_event_handlers(
    items: Seq<AnnotatedItem>,
    out: Seq<AnnotatedFn>,
)
    requires
        check_items(items) is Ok,
        out.len() == annotated_items(items).len(),
        forall|q: int| 0 <= q < out.len() ==> describes(#[trigger] out[q], annotated_items(items)[q]),
    ensures
        !(first_all(out) is Some && has_filtered(out)),
{
    let ai = annotated_items(items);
    lemma_accepted_annotations_compatible(items);
    if first_all(out) is Some && has_filtered(out) {
        lemma_first_all_witness(out);
        let i = choose|i: int|
            0 <= i < out.len() && #[trigger] out[i] matches AnnotatedFn::OnEvent(_, OnEventAttr::All);
        let j = choose|j: int|
            0 <= j < out.len() && #[trigger] out[j] matches AnnotatedFn::OnEvent(
                _,
                OnEventAttr::Filtered(_),
            );
        assert(describes(out[i], ai[i]));
        assert(describes(out[j], ai[j]));
        assert(is_bare_event(ai[i]));
        assert(is_filtered_event(ai[j]));
        if i < j {
            assert(!(is_bare_event(ai[i]) && is_filtered_event(ai[j])));
        } else {
            assert(!(is_filtered_event(ai[j]) && is_bare_event(ai[i])));
        }
    }
}

} // verus!
