use cosmox::packager::{
    archive_file_name, plugin_manifest, validate_archive_entries, wasm_file_name, ArchiveEntry,
    ArchiveError, ArchivePart, PackFromProfile,
};

fn entry(parts: &[&str], is_dir: bool) -> ArchiveEntry {
    ArchiveEntry {
        components: parts
            .iter()
            .map(|p| if *p == ".." { ArchivePart::ParentDir } else { ArchivePart::Normal(p.to_string()) })
            .collect(),
        is_dir,
    }
}

#[test]
fn package_names() {
    assert_eq!(archive_file_name("my-plugin", "0.2.0"), "my-plugin-0.2.0.tar.gz");
    assert_eq!(wasm_file_name("my-cool-plugin"), "my_cool_plugin.wasm");
    assert_eq!(PackFromProfile::Debug.dir_name(), "debug");
    assert_eq!(PackFromProfile::Release.dir_name(), "release");
}

#[test]
fn manifest_defaults() {
    let m = plugin_manifest("p".into(), "1.0".into(), None, None, vec!["me".into()], None, Some(vec!["x".into()]));
    assert_eq!(m.license, "custom");
    assert_eq!(m.authors, vec!["me".to_string()]);
    assert!(m.email.is_none() && m.url.is_none() && m.permission.is_none());
    assert_eq!(m.conflicts, Some(vec!["x".to_string()]));
    let m = plugin_manifest("p".into(), "1.0".into(), Some("d".into()), Some("MIT".into()), vec![], None, None);
    assert_eq!(m.license, "MIT");
    assert_eq!(m.description, Some("d".to_string()));
}

#[test]
fn archives_with_one_root_pass() {
    let entries = vec![
        entry(&["plugin"], true),
        entry(&["plugin", "about.yaml"], false),
        entry(&["plugin", "wasm", "p.wasm"], false),
    ];
    assert_eq!(validate_archive_entries(&entries), Ok("plugin".to_string()));
}

#[test]
fn archive_layout_errors() {
    assert_eq!(validate_archive_entries(&vec![]), Err(ArchiveError::Empty));
    assert_eq!(
        validate_archive_entries(&vec![entry(&["plugin"], true), entry(&["plugin", "..", "x"], false)]),
        Err(ArchiveError::PathTraversal(1))
    );
    assert_eq!(
        validate_archive_entries(&vec![entry(&["file.txt"], false)]),
        Err(ArchiveError::RootNotDirectory(0))
    );
    assert_eq!(
        validate_archive_entries(&vec![entry(&["a", "x"], false), entry(&["b", "y"], false)]),
        Err(ArchiveError::UnexpectedRoot(1))
    );
    let rooted = ArchiveEntry { components: vec![ArchivePart::RootDir, ArchivePart::Normal("etc".into())], is_dir: true };
    assert_eq!(validate_archive_entries(&vec![rooted]), Err(ArchiveError::InvalidPath(0)));
}

#[test]
fn a_root_file_after_the_first_entry_is_refused() {
    let entries = vec![
        entry(&["plugin", "about.yaml"], false),
        entry(&["plugin"], false),
    ];
    assert_eq!(validate_archive_entries(&entries), Err(ArchiveError::RootNotDirectory(1)));
    let entries = vec![entry(&["plugin"], true), entry(&["plugin"], true)];
    assert_eq!(validate_archive_entries(&entries), Ok("plugin".to_string()));
}
