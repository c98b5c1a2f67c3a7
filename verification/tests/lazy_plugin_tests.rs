use cosmox::lazy_plugin::parse_dependencies;
use cosmox::requirement::VersionRequirement;

#[test]
fn parsed_dependencies_keep_names_and_requirements() {
    let list = vec!["a@^1.2".to_string(), "bad@".to_string(), "c".to_string(), "d@>=2.0".to_string()];
    let deps = parse_dependencies(Some(list)).unwrap();
    assert_eq!(deps.len(), 3);
    assert_eq!(deps[0].name.to_string(), "a");
    match &deps[0].requirement {
        VersionRequirement::Caret(v) => assert_eq!(v.to_string(), "1.2"),
        other => panic!("unexpected {other:?}"),
    }
    assert_eq!(deps[1].name.to_string(), "c");
    assert!(matches!(deps[1].requirement, VersionRequirement::Any));
    assert_eq!(deps[2].name.to_string(), "d");
    match &deps[2].requirement {
        VersionRequirement::GreaterEqual(v) => assert_eq!(v.to_string(), "2.0"),
        other => panic!("unexpected {other:?}"),
    }
    assert!(parse_dependencies(None).is_none());
}
