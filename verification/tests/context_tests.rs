use cosmox::context::{PathMappingContext, PathMappingHandleError, TagContext};

#[test]
fn tags_are_collected_per_resource() {
    let mut ctx = TagContext::default();
    ctx.add_tag(1, ("genre".to_string(), "drama".to_string()));
    ctx.add_tags(
        1,
        vec![
            ("year".to_string(), "1999".to_string()),
            ("lang".to_string(), "en".to_string()),
        ],
    );
    ctx.add_tags(2, vec![]);
    assert_eq!(ctx.tag_temp.get(&1).unwrap().len(), 3);
    assert_eq!(ctx.tag_temp.get(&1).unwrap()[0].1, "drama");
    assert_eq!(ctx.tag_temp.get(&1).unwrap()[2].0, "lang");
    assert_eq!(ctx.tag_temp.get(&2).unwrap().len(), 0);
    ctx.delete_tag(1);
    assert!(ctx.tag_temp.get(&1).is_none());
    assert!(ctx.tag_temp.get(&2).is_some());
}

#[test]
fn links_are_kept_for_known_fields() {
    let mut ctx = PathMappingContext::default();
    assert!(ctx
        .push(7, "cover_file_map_id".to_string(), "file:///tmp/a.png".to_string())
        .is_ok());
    assert!(ctx
        .push(7, "data_file_map_id".to_string(), "https://example.org/b".to_string())
        .is_ok());
    // accepted, but not kept
    assert!(ctx.push(7, "other".to_string(), "https://example.org/c".to_string()).is_ok());
    let list = ctx.path_mapping_temp.get(&7).unwrap();
    assert_eq!(list.len(), 2);
    assert_eq!(list[0].0, "cover_file_map_id");
    assert_eq!(list[0].1.as_str(), "file:///tmp/a.png");
    assert_eq!(list[1].1.as_str(), "https://example.org/b");
    assert_eq!(list[0].2, "file:///tmp/a.png");
}

#[test]
fn recorded_link_text_is_the_parsed_url() {
    let mut ctx = PathMappingContext::default();
    assert!(ctx.push(3, "data_file_map_id".to_string(), "HTTPS://Example.ORG".to_string()).is_ok());
    let list = ctx.path_mapping_temp.get(&3).unwrap();
    assert_eq!(list[0].2, "https://example.org/");
    assert_eq!(list[0].1.as_str(), list[0].2);
}

#[test]
fn invalid_links_are_refused() {
    let mut ctx = PathMappingContext::default();
    match ctx.push(1, "cover_file_map_id".to_string(), "not a url".to_string()) {
        Err(PathMappingHandleError::InvalidFormat(msg)) => {
            assert_eq!(msg, "relative URL without a base")
        }
        other => panic!("unexpected {other:?}"),
    }
    assert!(ctx.path_mapping_temp.is_empty());
}
