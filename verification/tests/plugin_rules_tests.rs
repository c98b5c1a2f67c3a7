use cosmox::macro_tokens::{AttrSyntaxError, AttrToken, Delimiter};
use cosmox::plugin_rules::{
    event_variant_info, extract_annotation, generate_plugin, media_types_conflict_message,
    parse_plugin_attr, parse_plugin_module, AnnotatedFn, AnnotatedItem, CtxTy, EventDispatch,
    MediaTypesSource, OnEventAttr, PluginAttr, PluginPlan,
};

fn item(fn_name: &str, annotation: &str, variants: &[&str]) -> AnnotatedItem {
    AnnotatedItem {
        fn_name: fn_name.to_string(),
        annotation: annotation.to_string(),
        variants: variants.iter().map(|v| v.to_string()).collect(),
    }
}

fn no_attr() -> PluginAttr {
    PluginAttr { media_types: vec![] }
}

fn plan_of(items: Vec<AnnotatedItem>, attr: PluginAttr) -> PluginPlan {
    let parsed = parse_plugin_module(&items).expect("module should parse");
    generate_plugin(&attr, &"test_mod".to_string(), &parsed).expect("plugin should generate")
}

fn name_of(a: &AnnotatedFn) -> String {
    match a {
        AnnotatedFn::OnLoad(n)
        | AnnotatedFn::OnUnload(n)
        | AnnotatedFn::OnEnable(n)
        | AnnotatedFn::OnDisable(n)
        | AnnotatedFn::OnEvent(n, _)
        | AnnotatedFn::OnCommand(n)
        | AnnotatedFn::OnConfig(n)
        | AnnotatedFn::Health(n)
        | AnnotatedFn::MediaTypes(n) => n.clone(),
    }
}

fn parse_err(items: Vec<AnnotatedItem>) -> String {
    match parse_plugin_module(&items) {
        Ok(_) => panic!("expected an error"),
        Err(e) => e,
    }
}

fn assert_default_plan(plan: &PluginPlan) {
    assert!(plan.on_unload.is_none());
    assert!(plan.on_enable.is_none());
    assert!(plan.on_disable.is_none());
    assert!(plan.on_command.is_none());
    assert!(plan.on_config.is_none());
    assert!(plan.health.is_none());
}

#[test]
fn extract_on_load() {
    let mut attrs = vec!["on_load".to_string()];
    assert_eq!(extract_annotation(&mut attrs), Some("on_load".into()));
    assert!(attrs.is_empty(), "annotation should be consumed");
}

#[test]
fn extract_unknown_annotation_returns_none() {
    let mut attrs = vec!["foobar".to_string()];
    assert_eq!(extract_annotation(&mut attrs), None);
    // unknown annotation should NOT be consumed
    assert_eq!(attrs.len(), 1);
}

#[test]
fn extract_takes_first_annotation_only() {
    let mut attrs = vec!["doc".to_string(), "health".to_string(), "on_load".to_string()];
    assert_eq!(extract_annotation(&mut attrs), Some("health".into()));
    assert_eq!(attrs, vec!["doc".to_string(), "on_load".to_string()]);
}

#[test]
fn parse_single_annotation() {
    let parsed = parse_plugin_module(&vec![item("my_load", "on_load", &[])]).unwrap();
    assert_eq!(parsed.len(), 1);
    assert!(matches!(&parsed[0], AnnotatedFn::OnLoad(n) if n == "my_load"));
}

#[test]
fn parse_multiple_annotations() {
    let parsed = parse_plugin_module(&vec![
        item("load_fn", "on_load", &[]),
        item("event_fn", "on_event", &[]),
        item("health_fn", "health", &[]),
    ])
    .unwrap();
    assert_eq!(parsed.len(), 3);
    assert!(matches!(&parsed[0], AnnotatedFn::OnLoad(n) if n == "load_fn"));
    assert!(matches!(&parsed[1], AnnotatedFn::OnEvent(n, OnEventAttr::All) if n == "event_fn"));
    assert!(matches!(&parsed[2], AnnotatedFn::Health(n) if n == "health_fn"));
}

#[test]
fn parse_all_annotation_kinds() {
    let parsed = parse_plugin_module(&vec![
        item("a", "on_load", &[]),
        item("b", "on_unload", &[]),
        item("c", "on_enable", &[]),
        item("d", "on_disable", &[]),
        item("e", "on_event", &[]),
        item("f", "on_command", &[]),
        item("g", "on_config", &[]),
        item("h", "health", &[]),
        item("i", "media_types", &[]),
    ])
    .unwrap();
    assert_eq!(parsed.len(), 9);
    assert!(matches!(&parsed[0], AnnotatedFn::OnLoad(_)));
    assert!(matches!(&parsed[1], AnnotatedFn::OnUnload(_)));
    assert!(matches!(&parsed[2], AnnotatedFn::OnEnable(_)));
    assert!(matches!(&parsed[3], AnnotatedFn::OnDisable(_)));
    assert!(matches!(&parsed[4], AnnotatedFn::OnEvent(_, OnEventAttr::All)));
    assert!(matches!(&parsed[5], AnnotatedFn::OnCommand(_)));
    assert!(matches!(&parsed[6], AnnotatedFn::OnConfig(_)));
    assert!(matches!(&parsed[7], AnnotatedFn::Health(_)));
    assert!(matches!(&parsed[8], AnnotatedFn::MediaTypes(_)));
    let names: Vec<String> = parsed.iter().map(name_of).collect();
    assert_eq!(names, vec!["a", "b", "c", "d", "e", "f", "g", "h", "i"]);
}

#[test]
fn parse_skips_items_without_plugin_annotation() {
    let parsed = parse_plugin_module(&vec![
        item("helper", "inline", &[]),
        item("init", "on_load", &[]),
    ])
    .unwrap();
    assert_eq!(parsed.len(), 1);
    assert!(matches!(&parsed[0], AnnotatedFn::OnLoad(n) if n == "init"));
}

#[test]
fn preserves_non_plugin_items_in_output() {
    let plan = plan_of(
        vec![item("helper", "allow", &[]), item("init", "on_load", &[])],
        no_attr(),
    );
    assert_eq!(plan.on_load, Some("init".to_string()));
    assert_default_plan(&plan);
    assert!(plan.registrations.is_empty());
    assert!(matches!(plan.on_event, EventDispatch::Ignore));
    assert!(matches!(plan.media_types, MediaTypesSource::Empty));
}

#[test]
fn parse_duplicate_on_load_is_err() {
    let msg = parse_err(vec![item("load_a", "on_load", &[]), item("load_b", "on_load", &[])]);
    assert_eq!(msg, "duplicate `#[on_load]` annotation");
}

#[test]
fn parse_duplicate_on_event_is_err() {
    let msg = parse_err(vec![item("evt_a", "on_event", &[]), item("evt_b", "on_event", &[])]);
    assert_eq!(msg, "duplicate `#[on_event]` annotation (first on `evt_a`)");
}

#[test]
fn parse_duplicate_media_types_is_err() {
    let msg = parse_err(vec![item("mt_a", "media_types", &[]), item("mt_b", "media_types", &[])]);
    assert_eq!(msg, "duplicate `#[media_types]` annotation");
}

#[test]
fn media_types_conflict_is_err() {
    let parsed = parse_plugin_module(&vec![item("get_types", "media_types", &[])]).unwrap();
    let attr = PluginAttr { media_types: vec!["Movie".into()] };
    let err = generate_plugin(&attr, &"test_mod".to_string(), &parsed)
        .err()
        .expect("both func- and attr-based media_types should conflict");
    assert_eq!(
        err,
        "conflict: `test_mod::get_types` is annotated with `#[media_types]`, but `media_types` are also set in `#[plugin(media_types = [\"Movie\"])]`"
    );
}

#[test]
fn media_types_conflict_message_text() {
    let m = media_types_conflict_message(
        &"m".to_string(),
        &"f".to_string(),
        &"[\"A\", \"B\"]".to_string(),
    );
    assert_eq!(
        m,
        "conflict: `m::f` is annotated with `#[media_types]`, but `media_types` are also set in `#[plugin(media_types = [\"A\", \"B\"])]`"
    );
}

fn media_list(types: &[&str]) -> Vec<AttrToken> {
    let mut content = Vec::new();
    for (i, t) in types.iter().enumerate() {
        if i > 0 {
            content.push(AttrToken::Punct(','));
        }
        content.push(AttrToken::Str(t.to_string()));
    }
    vec![
        AttrToken::Ident("media_types".into()),
        AttrToken::Punct('='),
        AttrToken::Group(Delimiter::Bracket, content),
    ]
}

#[test]
fn parse_plugin_attr_empty() {
    let attr = parse_plugin_attr(&vec![]).unwrap();
    assert!(attr.media_types.is_empty());
}

#[test]
fn parse_plugin_attr_with_types() {
    let attr = parse_plugin_attr(&media_list(&["Movie", "TV"])).unwrap();
    assert_eq!(attr.media_types, vec!["Movie", "TV"]);
}

#[test]
fn parse_plugin_attr_single_type() {
    let attr = parse_plugin_attr(&media_list(&["Audio"])).unwrap();
    assert_eq!(attr.media_types, vec!["Audio"]);
}

#[test]
fn parse_plugin_attr_skips_other_entries_and_trailing_commas() {
    let mut tokens = vec![AttrToken::Ident("other".into()), AttrToken::Punct(',')];
    tokens.extend(media_list(&["A"]));
    tokens.push(AttrToken::Punct(','));
    let attr = parse_plugin_attr(&tokens).unwrap();
    assert_eq!(attr.media_types, vec!["A"]);
}

#[test]
fn parse_plugin_attr_errors() {
    let missing_eq = vec![AttrToken::Ident("media_types".into())];
    assert_eq!(parse_plugin_attr(&missing_eq).err(), Some(AttrSyntaxError::ExpectedEq));
    let no_brackets = vec![
        AttrToken::Ident("media_types".into()),
        AttrToken::Punct('='),
        AttrToken::Str("A".into()),
    ];
    assert_eq!(parse_plugin_attr(&no_brackets).err(), Some(AttrSyntaxError::ExpectedBrackets));
    let not_ident = vec![AttrToken::Str("A".into())];
    assert_eq!(parse_plugin_attr(&not_ident).err(), Some(AttrSyntaxError::ExpectedIdent));
    let no_comma = vec![AttrToken::Ident("a".into()), AttrToken::Ident("b".into())];
    assert_eq!(parse_plugin_attr(&no_comma).err(), Some(AttrSyntaxError::ExpectedComma));
    let mut bad_list = media_list(&[]);
    bad_list[2] = AttrToken::Group(Delimiter::Bracket, vec![AttrToken::Other]);
    assert_eq!(parse_plugin_attr(&bad_list).err(), Some(AttrSyntaxError::ExpectedString));
}

#[test]
fn expand_round_trip() {
    let plan = plan_of(vec![item("init", "on_load", &[])], no_attr());
    assert_eq!(plan.on_load, Some("init".to_string()));
    assert_default_plan(&plan);
    assert!(matches!(plan.on_event, EventDispatch::Ignore));
}

#[test]
fn generates_init_in_each_trait_method() {
    let plan = plan_of(vec![item("_unused", "allow", &[])], no_attr());
    assert!(plan.on_load.is_none());
    assert_default_plan(&plan);
    assert!(plan.registrations.is_empty());
    assert!(matches!(plan.on_event, EventDispatch::Ignore));
    assert!(matches!(plan.media_types, MediaTypesSource::Empty));
}

#[test]
fn media_types_from_annotated_fn() {
    let plan = plan_of(vec![item("get_types", "media_types", &[])], no_attr());
    assert!(matches!(&plan.media_types, MediaTypesSource::FromFn(f) if f == "get_types"));
}

#[test]
fn full_output_on_load_and_event_with_media_types() {
    let plan = plan_of(
        vec![item("my_init", "on_load", &[]), item("my_event", "on_event", &[])],
        PluginAttr { media_types: vec!["Movie".into()] },
    );
    assert_eq!(plan.on_load, Some("my_init".to_string()));
    assert!(matches!(&plan.on_event, EventDispatch::Forward(f) if f == "my_event"));
    assert!(matches!(&plan.media_types, MediaTypesSource::Listed(l) if l == &vec!["Movie".to_string()]));
    assert!(plan.registrations.is_empty());
}

fn arms(plan: &PluginPlan) -> Vec<(String, Vec<String>)> {
    match &plan.on_event {
        EventDispatch::Dispatch(arms) => {
            arms.iter().map(|a| (a.variant.clone(), a.handlers.clone())).collect()
        }
        _ => panic!("expected a dispatch"),
    }
}

#[test]
fn filtered_same_variant_multiple_handlers_coexist() {
    let plan = plan_of(
        vec![item("a", "on_event", &["OnScanComplete"]), item("b", "on_event", &["OnScanComplete"])],
        no_attr(),
    );
    // both handlers are called for the one arm, and the variant is registered once
    assert_eq!(
        arms(&plan),
        vec![("OnScanComplete".to_string(), vec!["a".to_string(), "b".to_string()])]
    );
    assert_eq!(plan.registrations, vec!["OnScanComplete".to_string()]);
}

#[test]
fn filtered_different_variants_coexist_is_ok() {
    let items = vec![item("a", "on_event", &["OnScanComplete"]), item("b", "on_event", &["OnUserLogin"])];
    assert!(parse_plugin_module(&items).is_ok());
}

#[test]
fn on_event_all_and_filtered_conflict_is_err() {
    let msg = parse_err(vec![
        item("handle_all", "on_event", &[]),
        item("handle_one", "on_event", &["OnScanComplete"]),
    ]);
    assert_eq!(
        msg,
        "cannot combine `#[on_event(...)]` with `#[on_event]`; `#[on_event]` is already on `handle_all`"
    );
}

#[test]
fn on_event_filtered_then_all_conflict_is_err() {
    let msg = parse_err(vec![
        item("handle_one", "on_event", &["OnScanComplete"]),
        item("handle_all", "on_event", &[]),
    ]);
    assert_eq!(
        msg,
        "cannot combine `#[on_event]` with `#[on_event(...)]`; `#[on_event(...)]` already declares the following variant(s): OnScanComplete"
    );
}

#[test]
fn on_event_all_lists_all_filtered_variants_in_error() {
    let msg = parse_err(vec![
        item("a", "on_event", &["OnScanComplete"]),
        item("b", "on_event", &["OnUserLogin", "OnLibraryCrate"]),
        item("handle_all", "on_event", &[]),
    ]);
    assert!(msg.contains("OnScanComplete"), "error should mention OnScanComplete: {msg}");
    assert!(msg.contains("OnUserLogin"), "error should mention OnUserLogin: {msg}");
    assert!(msg.contains("OnLibraryCrate"), "error should mention OnLibraryCrate: {msg}");
    assert!(msg.ends_with("variant(s): OnScanComplete, OnUserLogin, OnLibraryCrate"));
}

#[test]
fn on_event_unknown_variant_is_err() {
    let msg = parse_err(vec![item("a", "on_event", &["NotARealEvent"])]);
    assert_eq!(
        msg,
        "unknown event variant `NotARealEvent` in `#[on_event(...)]`; it is not a variant of `cosmox_api::event::Event`"
    );
}

#[test]
fn on_event_filtered_incompatible_variant_signatures_is_err() {
    let msg = parse_err(vec![item("a", "on_event", &["OnMetadataRawTreeReady", "OnScanComplete"])]);
    assert!(msg.contains("OnMetadataRawTreeReady"), "error should name the first variant: {msg}");
    assert!(msg.contains("OnScanComplete"), "error should name the conflicting variant: {msg}");
    assert_eq!(
        msg,
        "event variants `OnMetadataRawTreeReady` and `OnScanComplete` have incompatible handler signatures (different context handles) in a single `#[on_event(...)]`; declare them with separate `#[on_event(OnMetadataRawTreeReady)]` / `#[on_event(OnScanComplete)]` attributes instead"
    );
}

#[test]
fn on_event_filtered_incompatible_ctx_type_is_err() {
    let msg = parse_err(vec![item("a", "on_event", &["OnScanComplete", "OnServerError"])]);
    assert!(msg.contains("OnScanComplete"));
    assert!(msg.contains("OnServerError"));
    assert!(msg.contains("different payload type"));
    assert!(!msg.contains("different context handles"));
    assert!(msg.contains("expected `()`, got `OnServerErrorEventContext`"));
}

#[test]
fn on_event_filtered_generates_decode_and_dispatch() {
    let plan = plan_of(vec![item("a", "on_event", &["OnMetadataRawTreeReady"])], no_attr());
    match &plan.on_event {
        EventDispatch::Dispatch(arms) => {
            assert_eq!(arms.len(), 1);
            assert_eq!(arms[0].variant, "OnMetadataRawTreeReady");
            assert_eq!(arms[0].handlers, vec!["a".to_string()]);
            assert_eq!(
                arms[0].info.handles,
                Some(vec!["metadata_handle".to_string(), "path_mapping_handle".to_string()])
            );
            assert_eq!(arms[0].info.ctx_ty, CtxTy::MetadataReady);
        }
        _ => panic!("expected a dispatch"),
    }
    assert_eq!(plan.registrations, vec!["OnMetadataRawTreeReady".to_string()]);
}

#[test]
fn on_event_multi_variant_generates_multiple_arms() {
    let plan = plan_of(vec![item("a", "on_event", &["OnScanComplete", "OnUserLogin"])], no_attr());
    assert_eq!(
        arms(&plan),
        vec![
            ("OnScanComplete".to_string(), vec!["a".to_string()]),
            ("OnUserLogin".to_string(), vec!["a".to_string()]),
        ]
    );
    assert_eq!(plan.registrations.len(), 2);
}

#[test]
fn on_event_unit_variant_generates_ctx_ignore() {
    let plan = plan_of(vec![item("a", "on_event", &["OnScanComplete"])], no_attr());
    match &plan.on_event {
        EventDispatch::Dispatch(arms) => {
            assert!(arms[0].info.handles.is_none());
            assert_eq!(arms[0].info.ctx_ty, CtxTy::Unit);
            assert_eq!(arms[0].handlers, vec!["a".to_string()]);
        }
        _ => panic!("expected a dispatch"),
    }
}

#[test]
fn event_variant_info_table() {
    let local = event_variant_info(&"OnMetadataLocalTreeReady".to_string()).unwrap();
    assert_eq!(local.handles.map(|h| h.len()), Some(3));
    assert_eq!(local.ctx_ty, CtxTy::MetadataLocalReady);
    assert!(event_variant_info(&"OnServerStop".to_string()).is_some());
    assert!(event_variant_info(&"Nope".to_string()).is_none());
    assert_eq!(CtxTy::ServerError.to_string(), "OnServerErrorEventContext");
}

#[test]
fn dispatch_keeps_claim_order_across_handlers() {
    let plan = plan_of(
        vec![
            item("a", "on_event", &["OnUserLogin", "OnScanComplete"]),
            item("b", "on_event", &["OnScanComplete"]),
            item("c", "on_event", &["OnServerStart", "OnUserLogin"]),
        ],
        no_attr(),
    );
    assert_eq!(
        arms(&plan),
        vec![
            ("OnUserLogin".to_string(), vec!["a".to_string(), "c".to_string()]),
            ("OnScanComplete".to_string(), vec!["a".to_string(), "b".to_string()]),
            ("OnServerStart".to_string(), vec!["c".to_string()]),
        ]
    );
    assert_eq!(plan.registrations, vec!["OnUserLogin", "OnScanComplete", "OnServerStart"]);
}
