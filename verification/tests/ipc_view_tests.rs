use cosmox::ipc_view::{plan_view_fields, Conversion, ViewFieldInput, ViewFieldPlan};

fn field(name: &str, skip: bool, attrs: &[Option<&str>]) -> ViewFieldInput {
    ViewFieldInput {
        name: name.to_string(),
        skip,
        attr_paths: attrs.iter().map(|a| a.map(|s| s.to_string())).collect(),
    }
}

#[test]
fn view_fields_keep_attributes_but_as_i64() {
    let plans = plan_view_fields(&vec![
        field("id", false, &[]),
        field("created", false, &[Some("serde"), Some("as_i64"), None]),
        field("secret", true, &[]),
    ]);
    assert_eq!(plans.len(), 3);
    match &plans[0] {
        ViewFieldPlan::Kept { kept_attrs, conversion } => {
            assert!(kept_attrs.is_empty());
            assert_eq!(*conversion, Conversion::Into);
        }
        other => panic!("unexpected {other:?}"),
    }
    match &plans[1] {
        ViewFieldPlan::Kept { kept_attrs, conversion } => {
            assert_eq!(kept_attrs, &vec![0, 2]);
            assert_eq!(*conversion, Conversion::Timestamp);
        }
        other => panic!("unexpected {other:?}"),
    }
    assert!(matches!(plans[2], ViewFieldPlan::Skipped));
}
