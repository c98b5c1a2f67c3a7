use cosmox::builtin_access::{builtin_grants, builtin_permissions, builtin_roles};

#[test]
fn builtin_roles_in_order() {
    let names: Vec<String> = builtin_roles().into_iter().map(|r| r.0).collect();
    assert_eq!(names, vec!["Administrator", "User", "Guest", "Anonymous"]);
    assert_eq!(
        builtin_roles()[3].1,
        "Unauthenticated public access with strictly read-only playback if enabled"
    );
}

#[test]
fn builtin_permissions_listed_once() {
    let perms = builtin_permissions();
    assert_eq!(perms.len(), 44);
    assert_eq!(perms[0].0, "System.Power");
    assert_eq!(perms[43].0, "Remote.Control");
    assert_eq!(
        perms.iter().find(|p| p.0 == "Media.Sync").unwrap().1,
        "Allow \"Sync for Mobile\" which involves background transcoding for offline playback."
    );
    let mut names: Vec<&String> = perms.iter().map(|p| &p.0).collect();
    names.sort();
    names.dedup();
    assert_eq!(names.len(), 44);
}

#[test]
fn administrator_is_granted_everything() {
    let grants = builtin_grants();
    let perms = builtin_permissions();
    assert_eq!(grants.len(), 44 + 8 + 1);
    for (i, p) in perms.iter().enumerate() {
        assert_eq!(grants[i], ("Administrator".to_string(), p.0.clone()));
    }
    assert_eq!(grants[44], ("User".to_string(), "Media.Download".to_string()));
    assert_eq!(grants[51], ("User".to_string(), "User.View".to_string()));
    assert_eq!(grants[52], ("Guest".to_string(), "Media.Download".to_string()));
}
