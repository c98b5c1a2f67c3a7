use cosmox::requirement::{Dependency, VersionRequirement};
use cosmox::types::PluginName;
use cosmox::version::Version;

#[test]
fn test_parse_dependency() {
    let dep = Dependency::parse("my-plugin@>=1.2.3").unwrap();
    assert_eq!(dep.name, PluginName::new("my-plugin"));
    assert_eq!(
        dep.requirement,
        VersionRequirement::GreaterEqual(Version::from("1.2.3"))
    );

    let dep = Dependency::parse("logic-gate@^1").unwrap();
    assert_eq!(
        dep.requirement,
        VersionRequirement::Caret(Version::from("1"))
    );

    let dep = Dependency::parse("ui-kit@~2.5").unwrap();
    assert_eq!(
        dep.requirement,
        VersionRequirement::Tilde(Version::from("2.5"))
    );

    let dep = Dependency::parse("base-lib@3.0.1").unwrap();
    assert_eq!(
        dep.requirement,
        VersionRequirement::Exact(Version::from("3.0.1"))
    );

    let dep = Dependency::parse("legacy-tool@<=0.8.0").unwrap();
    assert_eq!(
        dep.requirement,
        VersionRequirement::LessEqual(Version::from("0.8.0"))
    );
}

#[test]
fn test_parse_dependency_errors() {
    assert!(Dependency::parse("plugin@").is_err());
}
