use cosmox::metadata_extend::{
    classify, expand, ExtendError, FieldKind, InnerType, ParseTarget, TypeArgs, TypeShape,
};

fn plain(name: &str) -> TypeShape {
    TypeShape::Path { last: Some(name.to_string()), args: TypeArgs::NotAngle }
}

fn option_of(inner: &str) -> TypeShape {
    TypeShape::Path {
        last: Some("Option".to_string()),
        args: TypeArgs::AngleFirstType(InnerType { is_path: true, last: Some(inner.to_string()) }),
    }
}

#[test]
fn test_expand_metadata_extend() {
    let fields = vec![
        ("season_number".to_string(), option_of("u32")),
        ("episode_number".to_string(), option_of("u32")),
        ("extra_kind".to_string(), option_of("String")),
        ("extra_tag".to_string(), option_of("String")),
        ("alias".to_string(), plain("String")),
    ];
    let plan = expand(&vec!["anime".to_string()], &Some(fields)).unwrap();
    assert_eq!(plan.key, "anime");
    let got: Vec<(String, FieldKind, ParseTarget, String)> = plan
        .fields
        .iter()
        .map(|f| (f.name.clone(), f.kind, f.parse, f.pair_key.clone()))
        .collect();
    assert_eq!(
        got,
        vec![
            ("season_number".into(), FieldKind::OptValue, ParseTarget::Inner, "anime:season_number".into()),
            ("episode_number".into(), FieldKind::OptValue, ParseTarget::Inner, "anime:episode_number".into()),
            ("extra_kind".into(), FieldKind::OptString, ParseTarget::NoParse, "anime:extra_kind".into()),
            ("extra_tag".into(), FieldKind::OptString, ParseTarget::NoParse, "anime:extra_tag".into()),
            ("alias".into(), FieldKind::String, ParseTarget::NoParse, "anime:alias".into()),
        ]
    );
}

#[test]
fn test_missing_extend_key_errors() {
    let fields = vec![("field".to_string(), plain("String"))];
    let err = expand(&vec![], &Some(fields)).unwrap_err();
    assert_eq!(err, ExtendError::MissingKey);
    assert_eq!(err.to_string(), "missing #[extend(key = \"...\")] attribute");
}

#[test]
fn expand_refuses_types_without_named_fields() {
    let err = expand(&vec!["k".to_string()], &None).unwrap_err();
    assert_eq!(err, ExtendError::NotNamedStruct);
    assert_eq!(err.to_string(), "MetadataExtend only supports structs with named fields");
}

#[test]
fn expand_takes_the_last_key() {
    let plan = expand(&vec!["a".to_string(), "b".to_string()], &Some(vec![])).unwrap();
    assert_eq!(plan.key, "b");
    assert!(plan.fields.is_empty());
}

#[test]
fn classify_shapes() {
    assert_eq!(classify(&TypeShape::NotPath), (FieldKind::Value, ParseTarget::Whole));
    assert_eq!(classify(&plain("u64")), (FieldKind::Value, ParseTarget::Whole));
    assert_eq!(
        classify(&TypeShape::Path { last: None, args: TypeArgs::NotAngle }),
        (FieldKind::Value, ParseTarget::Whole)
    );
    assert_eq!(
        classify(&TypeShape::Path { last: Some("Option".into()), args: TypeArgs::NotAngle }),
        (FieldKind::OptValue, ParseTarget::Whole)
    );
    assert_eq!(
        classify(&TypeShape::Path { last: Some("Option".into()), args: TypeArgs::AngleFirstNotType }),
        (FieldKind::OptValue, ParseTarget::Whole)
    );
    assert_eq!(
        classify(&TypeShape::Path {
            last: Some("Option".into()),
            args: TypeArgs::AngleFirstType(InnerType { is_path: false, last: None }),
        }),
        (FieldKind::OptValue, ParseTarget::Inner)
    );
}
