//! The built-in roles and permissions that a new database starts with,
//! and which permissions each built-in role is granted.

use vstd::prelude::*;

verus! {

/// Names and descriptions as text.
pub open spec fn text_pairs(v: Seq<(String, String)>) -> Seq<(Seq<char>, Seq<char>)> {
    v.map_values(|p: (String, String)| (p.0@, p.1@))
}

/// The built-in roles: name and description.
pub open spec fn builtin_role_table() -> Seq<(Seq<char>, Seq<char>)> {
    seq![
        ("Administrator"@, "Unrestricted administrative access to all server resources and system settings"@),
        ("User"@, "Standard authenticated member with full playback and personal collection management"@),
        ("Guest"@, "Temporary or restricted observer with limited access to specific libraries"@),
        ("Anonymous"@, "Unauthenticated public access with strictly read-only playback if enabled"@),
    ]
}

/// The built-in permissions: name and description.
pub open spec fn builtin_permission_table() -> Seq<(Seq<char>, Seq<char>)> {
    seq![
        ("System.Power"@, "Authorize critical power operations: Restart, Shutdown, or Sleep the server host."@),
        ("System.Update"@, "Check for, download, and initiate core system software or firmware updates."@),
        ("System.LogView"@, "Access real-time streaming logs and historical error logs for debugging and auditing."@),
        ("System.Wipe"@, "DANGER: Authorize factory reset or complete erasure of all database records and user data."@),
        ("System.Config"@, "Modify network settings, port forwarding, and global server-side configurations."@),
        ("System.Backup"@, "Create, download, or restore database and configuration backups."@),
        ("System.About"@, "View the project README documentation and about page."@),
        ("Plugin.Install"@, "Browse the marketplace and install new third-party extensions or drivers."@),
        ("Plugin.Manage"@, "Enable, disable, or modify settings for currently installed plugins."@),
        ("Plugin.Uninstall"@, "Completely remove plugin files and their associated cached data from the system."@),
        ("Library.Create"@, "Define new media folders (e.g., \"Movies\", \"Anime\") and assign storage paths."@),
        ("Library.Scan"@, "Manually trigger the media scanner to identify new files and update the library."@),
        ("Library.Delete"@, "Remove an entire library category from the server (does not necessarily delete files)."@),
        ("Library.View"@, "Basic permission to browse and see content within assigned libraries."@),
        ("Library.Modify"@, "Modify library data fields and manage associated library paths and settings."@),
        ("Library.PathView"@, "Browse and select file system directory paths for library folder configuration."@),
        ("Scanner.Config"@, "Configure metadata providers (TMDB, Fanart.tv) and scanning intervals."@),
        ("Scanner.DeepAnalyze"@, "Trigger CPU-intensive tasks like generating video intro markers or chapter thumbnails."@),
        ("Metadata.Modify"@, "Modify titles, descriptions, release dates, and cast information for any media item. (Extended information of resource)"@),
        ("Metadata.Artwork"@, "Upload or change posters, backdrops, and logo images for movies or shows. (Extended information of resource)"@),
        ("Metadata.Lock"@, "Prevent the automated scanner from overwriting manual changes to specific media items. (Extended information of resource)"@),
        ("Metadata.View"@, "View enriched media metadata including titles, descriptions, release dates, cast, and other media details (Extended information of resource)."@),
        ("Tag.View"@, "Browse, search, and view tags and tag groups used across the library for filtering and organization."@),
        ("Tag.Manage"@, "Create, rename, or delete global tags and genres used for filtering and organization."@),
        ("Tag.Assign"@, "Add or remove tags from specific media items without changing core metadata."@),
        ("User.View"@, "List registered users and view their basic profile information."@),
        ("User.Create"@, "Create new user accounts and send invitation links or temporary passwords."@),
        ("User.Delete"@, "Terminate user accounts and purge their playback history and personal data."@),
        ("User.ManageRoles"@, "Create, modify, and delete role definitions, and assign roles to users."@),
        ("User.ManagePerms"@, "View, create, modify, and delete permission definitions, and manage permission-to-role bindings."@),
        ("User.ManageProfile"@, "Modify user profile information including avatar, display name, and other personal settings for any user."@),
        ("User.Audit"@, "View active sessions, IP addresses, and real-time playback activity of other users."@),
        ("Resource.View"@, "Browse and search media resource entries in the library catalog."@),
        ("Resource.Create"@, "Add new media resource records to the library database."@),
        ("Resource.Modify"@, "Update existing resource records, file paths, or other resource-related settings."@),
        ("Resource.Delete"@, "Remove resource records from the library database."@),
        ("Media.Download"@, "Allow users to download original raw media files for local offline storage."@),
        ("Media.Upload"@, "Upload media files or other content from client devices to the server."@),
        ("Media.Sync"@, "Allow \"Sync for Mobile\" which involves background transcoding for offline playback."@),
        ("Media.DeleteFile"@, "CRITICAL: Allow the physical deletion of media files from the hard drive via the UI."@),
        ("Stream.Transcode"@, "Grant permission to use server GPU/CPU resources for real-time bitrate conversion."@),
        ("Stream.LiveTV"@, "Allow access to Live TV tuners and DVR scheduling (if hardware is present)."@),
        ("Social.Share"@, "Create temporary public links or \"Party Mode\" invites for non-registered users."@),
        ("Remote.Control"@, "Allow controlling other active client devices (Cast/DLNA) via the current session."@),
    ]
}

/// The permissions granted to the built-in roles, as (role, permission):
/// the administrator has every built-in permission, in order; then the
/// user's and the guest's.
pub open spec fn builtin_grant_table() -> Seq<(Seq<char>, Seq<char>)> {
    builtin_permission_table().map_values(
        |p: (Seq<char>, Seq<char>)| ("Administrator"@, p.0),
    ) + seq![
        ("User"@, "Media.Download"@),
        ("User"@, "Media.Sync"@),
        ("User"@, "Stream.Transcode"@),
        ("User"@, "Metadata.View"@),
        ("User"@, "Library.View"@),
        ("User"@, "Tag.View"@),
        ("User"@, "Resource.View"@),
        ("User"@, "User.View"@),
        ("Guest"@, "Media.Download"@),
    ]
}

/// The permission is one of the `System.` ones (power, update, logs, wipe,
/// configuration, backups, about).
pub open spec fn is_system_permission(p: Seq<char>) -> bool {
    p.len() >= 7 && p.take(7) == "System."@
}

/// The permissions the built-in `User` role is granted.
pub open spec fn user_permissions() -> Seq<Seq<char>> {
    seq![
        "Media.Download"@,
        "Media.Sync"@,
        "Stream.Transcode"@,
        "Metadata.View"@,
        "Library.View"@,
        "Tag.View"@,
        "Resource.View"@,
        "User.View"@,
    ]
}

/// The grants of the built-in roles: the administrator holds every built-in
/// permission; the user holds exactly the eight consumption permissions
/// (downloads, sync, transcoding, and viewing metadata, libraries, tags,
/// resources and users); the guest holds only `Media.Download`; the
/// anonymous role holds nothing; and no role but the administrator holds a
/// `System.` permission.
pub proof fn lemma_builtin_grants()
    ensures
        forall|k: int|
            0 <= k < builtin_permission_table().len() ==> exists|m: int|
                0 <= m < builtin_grant_table().len() && builtin_grant_table()[m] == (
                    "Administrator"@,
                    #[trigger] builtin_permission_table()[k].0,
                ),
        forall|k: int|
            0 <= k < builtin_grant_table().len() && (#[trigger] builtin_grant_table()[k]).0 == "User"@
                ==> user_permissions().contains(builtin_grant_table()[k].1),
        forall|j: int|
            0 <= j < user_permissions().len() ==> exists|m: int|
                0 <= m < builtin_grant_table().len() && builtin_grant_table()[m] == (
                    "User"@,
                    #[trigger] user_permissions()[j],
                ),
        forall|k: int|
            0 <= k < builtin_grant_table().len() && (#[trigger] builtin_grant_table()[k]).0 == "Guest"@
                ==> builtin_grant_table()[k].1 == "Media.Download"@,
        forall|k: int|
            0 <= k < builtin_grant_table().len() ==> (#[trigger] builtin_grant_table()[k]).0 != "Anonymous"@,
        forall|k: int|
            0 <= k < builtin_grant_table().len() && (#[trigger] builtin_grant_table()[k]).0
                != "Administrator"@ ==> !is_system_permission(builtin_grant_table()[k].1),
{
    reveal_strlit("Administrator");
    reveal_strlit("User");
    reveal_strlit("Guest");
    reveal_strlit("Anonymous");
    reveal_strlit("System.");
    reveal_strlit("Media.Download");
    reveal_strlit("Media.Sync");
    reveal_strlit("Stream.Transcode");
    reveal_strlit("Metadata.View");
    reveal_strlit("Library.View");
    reveal_strlit("Tag.View");
    reveal_strlit("Resource.View");
    reveal_strlit("User.View");
    let t = builtin_grant_table();
    let ps = builtin_permission_table();
    let n = ps.len() as int;
    let u = user_permissions();
    assert(t.len() == n + 9);
    assert forall|k: int| 0 <= k < n implies exists|m: int|
        0 <= m < t.len() && t[m] == ("Administrator"@, #[trigger] ps[k].0) by {
        assert(t[k] == ("Administrator"@, ps[k].0));
    }
    assert forall|k: int| 0 <= k < n implies (#[trigger] t[k]).0 == "Administrator"@ by {}
    assert forall|j: int| 0 <= j < u.len() implies exists|m: int|
        0 <= m < t.len() && t[m] == ("User"@, #[trigger] u[j]) by {
        assert(t[n + j] == ("User"@, u[j]));
    }
    assert("Administrator"@[0] == 'A' && "User"@[0] == 'U' && "Guest"@[0] == 'G');
    assert("Anonymous"@[0] == 'A' && "Anonymous"@[1] == 'n' && "Administrator"@[1] == 'd');
    assert("Administrator"@ != "User"@);
    assert("Administrator"@ != "Guest"@);
    assert("Administrator"@ != "Anonymous"@);
    assert("User"@ != "Guest"@);
    assert("User"@ != "Anonymous"@);
    assert("Guest"@ != "Anonymous"@);
    assert forall|k: int| n <= k < t.len() implies {
        &&& (#[trigger] t[k]).0 == "User"@ ==> u.contains(t[k].1)
        &&& t[k].0 == "Guest"@ ==> t[k].1 == "Media.Download"@
        &&& t[k].0 != "Anonymous"@
        &&& !is_system_permission(t[k].1)
    } by {
        let j = k - n;
        assert("System."@[0] == 'S');
        if j < 8 {
            assert(t[k] == ("User"@, u[j]));
            assert(u.contains(u[j]));
            if j == 0 {
                assert(u[0] == "Media.Download"@);
                assert("Media.Download"@[0] == 'M');
                assert(u[j][0] != 'S');
                assert(u[j].len() >= 7 ==> u[j].take(7)[0] == u[j][0]);
                assert(!is_system_permission(u[j]));
            } else if j == 1 {
                assert(u[1] == "Media.Sync"@);
                assert("Media.Sync"@[0] == 'M');
                assert(u[j][0] != 'S');
                assert(u[j].len() >= 7 ==> u[j].take(7)[0] == u[j][0]);
                assert(!is_system_permission(u[j]));
            } else if j == 2 {
                assert(u[2] == "Stream.Transcode"@);
                assert("Stream.Transcode"@[1] == 't');
                assert("System."@[1] == 'y');
                assert(u[j].take(7)[1] == 't');
                assert(!is_system_permission(u[j]));
            } else if j == 3 {
                assert(u[3] == "Metadata.View"@);
                assert("Metadata.View"@[0] == 'M');
                assert(u[j][0] != 'S');
                assert(u[j].len() >= 7 ==> u[j].take(7)[0] == u[j][0]);
                assert(!is_system_permission(u[j]));
            } else if j == 4 {
                assert(u[4] == "Library.View"@);
                assert("Library.View"@[0] == 'L');
                assert(u[j][0] != 'S');
                assert(u[j].len() >= 7 ==> u[j].take(7)[0] == u[j][0]);
                assert(!is_system_permission(u[j]));
            } else if j == 5 {
                assert(u[5] == "Tag.View"@);
                assert("Tag.View"@[0] == 'T');
                assert(u[j][0] != 'S');
                assert(u[j].len() >= 7 ==> u[j].take(7)[0] == u[j][0]);
                assert(!is_system_permission(u[j]));
            } else if j == 6 {
                assert(u[6] == "Resource.View"@);
                assert("Resource.View"@[0] == 'R');
                assert(u[j][0] != 'S');
                assert(u[j].len() >= 7 ==> u[j].take(7)[0] == u[j][0]);
                assert(!is_system_permission(u[j]));
            } else if j == 7 {
                assert(u[7] == "User.View"@);
                assert("User.View"@[0] == 'U');
                assert(u[j][0] != 'S');
                assert(u[j].len() >= 7 ==> u[j].take(7)[0] == u[j][0]);
                assert(!is_system_permission(u[j]));
            }
        } else {
            assert(t[k] == ("Guest"@, "Media.Download"@));
            assert("Media.Download"@[0] == 'M');
            assert("Media.Download"@.take(7)[0] == 'M');
        }
    }
}

/// The built-in roles.
pub fn builtin_roles() -> (r: Vec<(String, String)>)
    ensures
        text_pairs(r@) == builtin_role_table(),
{
    let mut r: Vec<(String, String)> = Vec::new();
    r.push(("Administrator".to_owned(), "Unrestricted administrative access to all server resources and system settings".to_owned()));
    r.push(("User".to_owned(), "Standard authenticated member with full playback and personal collection management".to_owned()));
    r.push(("Guest".to_owned(), "Temporary or restricted observer with limited access to specific libraries".to_owned()));
    r.push(("Anonymous".to_owned(), "Unauthenticated public access with strictly read-only playback if enabled".to_owned()));
    assert(text_pairs(r@) =~= builtin_role_table());
    r
}

/// The built-in permissions.
#[verifier::rlimit(50)]
pub fn builtin_permissions() -> (r: Vec<(String, String)>)
    ensures
        text_pairs(r@) == builtin_permission_table(),
{
    let mut r: Vec<(String, String)> = Vec::new();
    r.push(("System.Power".to_owned(), "Authorize critical power operations: Restart, Shutdown, or Sleep the server host.".to_owned()));
    r.push(("System.Update".to_owned(), "Check for, download, and initiate core system software or firmware updates.".to_owned()));
    r.push(("System.LogView".to_owned(), "Access real-time streaming logs and historical error logs for debugging and auditing.".to_owned()));
    r.push(("System.Wipe".to_owned(), "DANGER: Authorize factory reset or complete erasure of all database records and user data.".to_owned()));
    r.push(("System.Config".to_owned(), "Modify network settings, port forwarding, and global server-side configurations.".to_owned()));
    r.push(("System.Backup".to_owned(), "Create, download, or restore database and configuration backups.".to_owned()));
    r.push(("System.About".to_owned(), "View the project README documentation and about page.".to_owned()));
    r.push(("Plugin.Install".to_owned(), "Browse the marketplace and install new third-party extensions or drivers.".to_owned()));
    r.push(("Plugin.Manage".to_owned(), "Enable, disable, or modify settings for currently installed plugins.".to_owned()));
    r.push(("Plugin.Uninstall".to_owned(), "Completely remove plugin files and their associated cached data from the system.".to_owned()));
    r.push(("Library.Create".to_owned(), "Define new media folders (e.g., \"Movies\", \"Anime\") and assign storage paths.".to_owned()));
    r.push(("Library.Scan".to_owned(), "Manually trigger the media scanner to identify new files and update the library.".to_owned()));
    r.push(("Library.Delete".to_owned(), "Remove an entire library category from the server (does not necessarily delete files).".to_owned()));
    r.push(("Library.View".to_owned(), "Basic permission to browse and see content within assigned libraries.".to_owned()));
    r.push(("Library.Modify".to_owned(), "Modify library data fields and manage associated library paths and settings.".to_owned()));
    r.push(("Library.PathView".to_owned(), "Browse and select file system directory paths for library folder configuration.".to_owned()));
    r.push(("Scanner.Config".to_owned(), "Configure metadata providers (TMDB, Fanart.tv) and scanning intervals.".to_owned()));
    r.push(("Scanner.DeepAnalyze".to_owned(), "Trigger CPU-intensive tasks like generating video intro markers or chapter thumbnails.".to_owned()));
    r.push(("Metadata.Modify".to_owned(), "Modify titles, descriptions, release dates, and cast information for any media item. (Extended information of resource)".to_owned()));
    r.push(("Metadata.Artwork".to_owned(), "Upload or change posters, backdrops, and logo images for movies or shows. (Extended information of resource)".to_owned()));
    r.push(("Metadata.Lock".to_owned(), "Prevent the automated scanner from overwriting manual changes to specific media items. (Extended information of resource)".to_owned()));
    r.push(("Metadata.View".to_owned(), "View enriched media metadata including titles, descriptions, release dates, cast, and other media details (Extended information of resource).".to_owned()));
    r.push(("Tag.View".to_owned(), "Browse, search, and view tags and tag groups used across the library for filtering and organization.".to_owned()));
    r.push(("Tag.Manage".to_owned(), "Create, rename, or delete global tags and genres used for filtering and organization.".to_owned()));
    r.push(("Tag.Assign".to_owned(), "Add or remove tags from specific media items without changing core metadata.".to_owned()));
    r.push(("User.View".to_owned(), "List registered users and view their basic profile information.".to_owned()));
    r.push(("User.Create".to_owned(), "Create new user accounts and send invitation links or temporary passwords.".to_owned()));
    r.push(("User.Delete".to_owned(), "Terminate user accounts and purge their playback history and personal data.".to_owned()));
    r.push(("User.ManageRoles".to_owned(), "Create, modify, and delete role definitions, and assign roles to users.".to_owned()));
    r.push(("User.ManagePerms".to_owned(), "View, create, modify, and delete permission definitions, and manage permission-to-role bindings.".to_owned()));
    r.push(("User.ManageProfile".to_owned(), "Modify user profile information including avatar, display name, and other personal settings for any user.".to_owned()));
    r.push(("User.Audit".to_owned(), "View active sessions, IP addresses, and real-time playback activity of other users.".to_owned()));
    r.push(("Resource.View".to_owned(), "Browse and search media resource entries in the library catalog.".to_owned()));
    r.push(("Resource.Create".to_owned(), "Add new media resource records to the library database.".to_owned()));
    r.push(("Resource.Modify".to_owned(), "Update existing resource records, file paths, or other resource-related settings.".to_owned()));
    r.push(("Resource.Delete".to_owned(), "Remove resource records from the library database.".to_owned()));
    r.push(("Media.Download".to_owned(), "Allow users to download original raw media files for local offline storage.".to_owned()));
    r.push(("Media.Upload".to_owned(), "Upload media files or other content from client devices to the server.".to_owned()));
    r.push(("Media.Sync".to_owned(), "Allow \"Sync for Mobile\" which involves background transcoding for offline playback.".to_owned()));
    r.push(("Media.DeleteFile".to_owned(), "CRITICAL: Allow the physical deletion of media files from the hard drive via the UI.".to_owned()));
    r.push(("Stream.Transcode".to_owned(), "Grant permission to use server GPU/CPU resources for real-time bitrate conversion.".to_owned()));
    r.push(("Stream.LiveTV".to_owned(), "Allow access to Live TV tuners and DVR scheduling (if hardware is present).".to_owned()));
    r.push(("Social.Share".to_owned(), "Create temporary public links or \"Party Mode\" invites for non-registered users.".to_owned()));
    r.push(("Remote.Control".to_owned(), "Allow controlling other active client devices (Cast/DLNA) via the current session.".to_owned()));
    assert(text_pairs(r@) =~= builtin_permission_table());
    r
}

/// The permissions granted to the built-in roles, as (role, permission).
pub fn builtin_grants() -> (r: Vec<(String, String)>)
    ensures
        text_pairs(r@) == builtin_grant_table(),
{
    let perms = builtin_permissions();
    let ghost table = builtin_permission_table();
    let mut r: Vec<(String, String)> = Vec::new();
    let mut i: usize = 0;
    while i < perms.len()
        invariant
            text_pairs(perms@) == table,
            table == builtin_permission_table(),
            0 <= i <= perms@.len(),
            text_pairs(r@) == table.take(i as int).map_values(
                |p: (Seq<char>, Seq<char>)| ("Administrator"@, p.0),
            ),
        decreases perms.len() - i,
    {
        let ghost before = r@;
        r.push(("Administrator".to_owned(), perms[i].0.clone()));
        proof {
            assert(text_pairs(perms@)[i as int] == table[i as int]);
            assert(text_pairs(r@) =~= text_pairs(before).push(("Administrator"@, table[i as int].0)));
            assert(table.take(i + 1).map_values(
                |p: (Seq<char>, Seq<char>)| ("Administrator"@, p.0),
            ) =~= table.take(i as int).map_values(
                |p: (Seq<char>, Seq<char>)| ("Administrator"@, p.0),
            ).push(("Administrator"@, table[i as int].0)));
        }
        i = i + 1;
    }
    assert(table.take(table.len() as int) =~= table);
    r.push(("User".to_owned(), "Media.Download".to_owned()));
    r.push(("User".to_owned(), "Media.Sync".to_owned()));
    r.push(("User".to_owned(), "Stream.Transcode".to_owned()));
    r.push(("User".to_owned(), "Metadata.View".to_owned()));
    r.push(("User".to_owned(), "Library.View".to_owned()));
    r.push(("User".to_owned(), "Tag.View".to_owned()));
    r.push(("User".to_owned(), "Resource.View".to_owned()));
    r.push(("User".to_owned(), "User.View".to_owned()));
    r.push(("Guest".to_owned(), "Media.Download".to_owned()));
    assert(text_pairs(r@) =~= builtin_grant_table());
    r
}

} // verus!
