use cosmox::api_doc::webapi_doc_tag;

#[test]
fn tag_is_file_name_without_controller_and_extension() {
    assert_eq!(webapi_doc_tag("src/controller/user_controller.rs"), "user");
    assert_eq!(webapi_doc_tag("library.rs"), "library");
    assert_eq!(webapi_doc_tag("a/b/tag_group_controller.rs"), "tag_group");
}

#[test]
fn tag_removes_every_occurrence() {
    assert_eq!(webapi_doc_tag("x/a_controller_controller.rs.rs"), "a");
    assert_eq!(webapi_doc_tag("dir/"), "");
    assert_eq!(webapi_doc_tag("plain"), "plain");
    // the second removal sees what the first one left
    assert_eq!(webapi_doc_tag("m._controllerrs"), "m");
    assert_eq!(webapi_doc_tag("m.r_controllers"), "m");
}
