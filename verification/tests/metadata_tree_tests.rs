use cosmox::metadata_tree::{MetadataError, MetadataInfo, MetadataKind, MetadataQuery, MetadataTree};
use cosmox::scan_tree::add_scanned_entry;

fn info() -> MetadataInfo {
    MetadataInfo { url: String::new(), kind: MetadataKind::Unknown, payload: vec![] }
}

fn path(p: &str) -> MetadataQuery {
    MetadataQuery::Path(p.to_string())
}

/// root(0) ─ a(1) ─ c(3)
///         └ b(2) ─ d(4) ─ e(5)
fn sample() -> MetadataTree {
    let mut t = MetadataTree::new();
    assert_eq!(t.insert(&MetadataQuery::Id(0), "a".into(), info()), Ok(1));
    assert_eq!(t.insert(&MetadataQuery::Id(0), "b".into(), info()), Ok(2));
    assert_eq!(t.insert(&path("a"), "c".into(), info()), Ok(3));
    assert_eq!(t.insert(&path("/b/"), "d".into(), info()), Ok(4));
    assert_eq!(t.insert(&path("b/d"), "e".into(), info()), Ok(5));
    t
}

#[test]
fn new_tree_has_only_the_root() {
    let t = MetadataTree::new();
    assert!(t.contains(0));
    assert!(!t.contains(1));
    assert_eq!(t.id_count(), 1);
    assert_eq!(t.name(0), Some(String::new()));
    assert_eq!(t.query_all(&MetadataQuery::Id(0)), Vec::<u64>::new());
}

#[test]
fn insert_hands_out_ids_in_order_and_appends() {
    let t = sample();
    assert_eq!(t.id_count(), 6);
    assert_eq!(t.query_all(&MetadataQuery::Id(0)), vec![1, 2]);
    assert_eq!(t.query_all(&path("b")), vec![4]);
    assert_eq!(t.parent(5), Some(4));
    assert_eq!(t.name(5), Some("e".to_string()));
}

#[test]
fn insert_under_missing_parent_fails() {
    let mut t = sample();
    assert_eq!(t.insert(&path("x"), "y".into(), info()), Err(MetadataError::ParentNotFound));
    assert_eq!(t.insert(&MetadataQuery::Id(42), "y".into(), info()), Err(MetadataError::ParentNotFound));
    assert_eq!(t.id_count(), 6);
}

#[test]
fn query_by_path_takes_first_child_of_each_name() {
    let mut t = sample();
    assert_eq!(t.insert(&MetadataQuery::Id(0), "a".into(), info()), Ok(6));
    assert_eq!(t.query_by_path(&"a".to_string()), Some(1));
    assert_eq!(t.query_by_path(&"//b//d/e".to_string()), Some(5));
    assert_eq!(t.query_by_path(&"".to_string()), Some(0));
    assert_eq!(t.query_by_path(&"b/x".to_string()), None);
    assert_eq!(t.query_all(&path("nope")), Vec::<u64>::new());
}

#[test]
fn move_carries_the_subtree() {
    let mut t = sample();
    assert_eq!(t.move_(&path("b"), &MetadataQuery::Id(3)), Ok(()));
    assert_eq!(t.query_all(&MetadataQuery::Id(0)), vec![1]);
    assert_eq!(t.query_all(&MetadataQuery::Id(3)), vec![2]);
    assert_eq!(t.parent(2), Some(3));
    assert_eq!(t.query_by_path(&"a/c/b/d/e".to_string()), Some(5));
}

#[test]
fn move_under_same_parent_changes_nothing() {
    let mut t = sample();
    assert_eq!(t.move_(&MetadataQuery::Id(1), &MetadataQuery::Id(0)), Ok(()));
    assert_eq!(t.query_all(&MetadataQuery::Id(0)), vec![1, 2]);
}

#[test]
fn move_errors() {
    let mut t = sample();
    assert_eq!(t.move_(&path("zz"), &MetadataQuery::Id(0)), Err(MetadataError::InvalidQuery));
    assert_eq!(t.move_(&MetadataQuery::Id(9), &MetadataQuery::Id(0)), Err(MetadataError::NotFound(9)));
    assert_eq!(t.move_(&MetadataQuery::Id(1), &path("q")), Err(MetadataError::TargetNotFound));
    assert_eq!(t.move_(&MetadataQuery::Id(0), &MetadataQuery::Id(1)), Err(MetadataError::MoveRoot(0)));
    assert_eq!(t.move_(&MetadataQuery::Id(2), &MetadataQuery::Id(2)), Err(MetadataError::IntoItself(2)));
    assert_eq!(
        t.move_(&MetadataQuery::Id(2), &MetadataQuery::Id(5)),
        Err(MetadataError::IntoOwnSubtree(2))
    );
    // nothing changed
    assert_eq!(t.query_all(&MetadataQuery::Id(0)), vec![1, 2]);
    assert_eq!(t.query_all(&MetadataQuery::Id(2)), vec![4]);
}

#[test]
fn delete_removes_the_subtree() {
    let mut t = sample();
    assert_eq!(t.delete(&path("b")), Ok(()));
    assert!(!t.contains(2));
    assert!(!t.contains(4));
    assert!(!t.contains(5));
    assert!(t.contains(1) && t.contains(3));
    assert_eq!(t.query_all(&MetadataQuery::Id(0)), vec![1]);
    // ids are not reused
    assert_eq!(t.insert(&MetadataQuery::Id(0), "f".into(), info()), Ok(6));
}

#[test]
fn delete_errors() {
    let mut t = sample();
    assert_eq!(t.delete(&path("zz")), Err(MetadataError::InvalidQuery));
    assert_eq!(t.delete(&MetadataQuery::Id(77)), Err(MetadataError::NotFound(77)));
    assert_eq!(t.delete(&MetadataQuery::Id(0)), Err(MetadataError::DeleteRoot(0)));
    assert_eq!(t.delete(&path("")), Err(MetadataError::DeleteRoot(0)));
    assert_eq!(t.id_count(), 6);
}

#[test]
fn inserted_nodes_keep_url_kind_and_payload() {
    let mut t = MetadataTree::new();
    let file = MetadataInfo {
        url: "file:/lib/a.mkv".to_string(),
        kind: MetadataKind::File,
        payload: vec![1, 2, 3],
    };
    assert_eq!(t.insert(&MetadataQuery::Id(0), "a.mkv".into(), file), Ok(1));
    let i = t.info(1).unwrap();
    assert_eq!(i.url, "file:/lib/a.mkv");
    assert_eq!(i.kind, MetadataKind::File);
    assert_eq!(i.payload, vec![1, 2, 3]);
    assert!(t.info(2).is_none());
}

#[test]
fn scanned_entries_get_file_urls_and_kinds() {
    let mut t = MetadataTree::new();
    assert_eq!(add_scanned_entry(&mut t, 0, "movies".into(), "/lib/movies", false, true), Ok(1));
    assert_eq!(add_scanned_entry(&mut t, 1, "a.mkv".into(), "/lib/movies/a.mkv", true, false), Ok(2));
    assert_eq!(t.info(2).unwrap().url, "file:/lib/movies/a.mkv");
    assert_eq!(t.info(1).unwrap().kind, MetadataKind::Directory);
    assert_eq!(t.info(2).unwrap().kind, MetadataKind::File);
    assert_eq!(add_scanned_entry(&mut t, 9, "x".into(), "/x", true, false), Err(MetadataError::ParentNotFound));
}
