//! Packaging plugins: the names and manifest of a package, and the layout
//! rules an archive must follow before it is unpacked.

use vstd::prelude::*;
use vstd::string::*;

use crate::text::{str_chars, string_from_chars};

pub use crate::lazy_plugin::About;

verus! {

/// The build profile a package is made from.
#[derive(Debug, Clone, Copy, PartialEq, Eq, Structural)]
pub enum PackFromProfile {
    Debug,
    Release,
}

impl PackFromProfile {
    /// The directory of the profile's build output.
    pub fn dir_name(&self) -> (r: &'static str)
        ensures
            r@ == (match *self {
                PackFromProfile::Debug => "debug"@,
                PackFromProfile::Release => "release"@,
            }),
    {
        match self {
            PackFromProfile::Debug => "debug",
            PackFromProfile::Release => "release",
        }
    }
}

/// The archive of plugin `name` at `version`: `<name>-<version>.tar.gz`.
pub fn archive_file_name(name: &str, version: &str) -> (r: String)
    ensures
        r@ == name@ + "-"@ + version@ + ".tar.gz"@,
{
    let mut r = name.to_owned();
    r.append("-");
    r.append(version);
    r.append(".tar.gz");
    r
}

/// `s` with every `-` made `_`.
pub open spec fn underscored(s: Seq<char>) -> Seq<char> {
    s.map_values(|c: char| if c == '-' {
        '_'
    } else {
        c
    })
}

/// The compiled module of plugin `name`: its name with `_` for `-`, and
/// `.wasm`.
pub fn wasm_file_name(name: &str) -> (r: String)
    ensures
        r@ == underscored(name@) + ".wasm"@,
{
    let v = str_chars(name);
    let mut out: Vec<char> = Vec::new();
    let mut i: usize = 0;
    while i < v.len()
        invariant
            v@ == name@,
            0 <= i <= v@.len(),
            out@ == underscored(v@.take(i as int)),
        decreases v.len() - i,
    {
        let c = if v[i] == '-' {
            '_'
        } else {
            v[i]
        };
        out.push(c);
        assert(out@ =~= underscored(v@.take(i + 1)));
        i = i + 1;
    }
    assert(v@.take(v@.len() as int) =~= v@);
    let mut r = string_from_chars(&out);
    r.append(".wasm");
    r
}

/// The manifest of a package: what the build manifest says of the plugin,
/// with the license `custom` when it gives none.
pub fn plugin_manifest(
    name: String,
    version: String,
    description: Option<String>,
    license: Option<String>,
    authors: Vec<String>,
    dependencies: Option<Vec<String>>,
    conflicts: Option<Vec<String>>,
) -> (r: About)
    ensures
        r.name == name,
        r.version == version,
        r.description == description,
        license matches Some(l) ==> r.license == l,
        license is None ==> r.license@ == "custom"@,
        r.authors == authors,
        r.email is None,
        r.permission is None,
        r.url is None,
        r.dependencies == dependencies,
        r.conflicts == conflicts,
{
    let license = match license {
        Some(l) => l,
        None => "custom".to_owned(),
    };
    About {
        name,
        version,
        license,
        authors,
        description,
        email: None,
        permission: None,
        url: None,
        dependencies,
        conflicts,
    }
}

/// A component of an archive entry's path.
#[derive(Debug)]
pub enum ArchivePart {
    Prefix,
    RootDir,
    CurDir,
    ParentDir,
    Normal(String),
}

/// An entry of an archive: the components of its path, and whether it is a
/// directory.
#[derive(Debug)]
pub struct ArchiveEntry {
    pub components: Vec<ArchivePart>,
    pub is_dir: bool,
}

/// Why an archive's layout is refused; the number is the offending entry.
#[derive(Debug, PartialEq, Eq, Structural)]
pub enum ArchiveError {
    /// The entry's path goes up with `..`.
    PathTraversal(usize),
    /// The entry's path does not start with a name.
    InvalidPath(usize),
    /// The entry is the root itself and it is not a directory.
    RootNotDirectory(usize),
    /// The entry lies under another root than the first entry.
    UnexpectedRoot(usize),
    /// The archive has no entry.
    Empty,
}

pub open spec fn has_parent_dir(parts: Seq<ArchivePart>) -> bool {
    exists|k: int| 0 <= k < parts.len() && #[trigger] parts[k] is ParentDir
}

/// Checks entries `i..` of an archive whose root so far is `root`: each
/// must stay inside, start with a name, and that name must be the root's;
/// the first entry fixes the root, and an entry that is the root itself
/// must be a directory. The result is the root.
pub open spec fn check_layout(es: Seq<ArchiveEntry>, i: int, root: Option<Seq<char>>) -> Result<
    Seq<char>,
    ArchiveError,
>
    decreases es.len() - i,
{
    if i < 0 || i >= es.len() {
        match root {
            Some(r) => Ok(r),
            None => Err(ArchiveError::Empty),
        }
    } else {
        let e = es[i];
        let parts = e.components@;
        if has_parent_dir(parts) {
            Err(ArchiveError::PathTraversal(i as usize))
        } else if parts.len() > 0 && parts[0] is Normal {
            let p = parts[0]->Normal_0@;
            match root {
                None => if parts.len() == 1 && !e.is_dir {
                    Err(ArchiveError::RootNotDirectory(i as usize))
                } else {
                    check_layout(es, i + 1, Some(p))
                },
                Some(r) => if p != r {
                    Err(ArchiveError::UnexpectedRoot(i as usize))
                } else if parts.len() == 1 && !e.is_dir {
                    Err(ArchiveError::RootNotDirectory(i as usize))
                } else {
                    check_layout(es, i + 1, root)
                },
            }
        } else {
            Err(ArchiveError::InvalidPath(i as usize))
        }
    }
}

/// An entry that lies under the root `r`: it does not go up, it starts with
/// the name `r`, and if it is `r` itself it is a directory.
pub open spec fn entry_under(e: ArchiveEntry, r: Seq<char>) -> bool {
    let parts = e.components@;
    &&& !has_parent_dir(parts)
    &&& parts.len() > 0
    &&& parts[0] is Normal
    &&& parts[0]->Normal_0@ == r
    &&& !(parts.len() == 1 && !e.is_dir)
}

/// The root of an archive: the name its first entry starts with.
pub open spec fn first_root(es: Seq<ArchiveEntry>) -> Seq<char> {
    es[0].components@[0]->Normal_0@
}

proof fn lemma_layout_from(es: Seq<ArchiveEntry>, i: int, r: Seq<char>)
    requires
        0 <= i <= es.len(),
    ensures
        check_layout(es, i, Some(r)) is Ok <==> (forall|j: int|
            i <= j < es.len() ==> entry_under(#[trigger] es[j], r)),
        check_layout(es, i, Some(r)) matches Ok(x) ==> x == r,
    decreases es.len() - i,
{
    if i < es.len() {
        lemma_layout_from(es, i + 1, r);
        let parts = es[i].components@;
        if has_parent_dir(parts) {
            assert(!entry_under(es[i], r));
        }
    }
}

/// An archive passes exactly when it has an entry, the first entry starts
/// with a name, and every entry lies under that name as root (no `..`, and
/// no file where the root itself stands); the root returned is that name.
pub proof fn lemma_layout_accepts_exactly(es: Seq<ArchiveEntry>)
    ensures
        check_layout(es, 0, None) is Ok <==> {
            &&& es.len() > 0
            &&& es[0].components@.len() > 0
            &&& es[0].components@[0] is Normal
            &&& forall|j: int| 0 <= j < es.len() ==> entry_under(#[trigger] es[j], first_root(es))
        },
        check_layout(es, 0, None) matches Ok(x) ==> x == first_root(es),
{
    if es.len() > 0 {
        let parts = es[0].components@;
        if parts.len() > 0 && parts[0] is Normal {
            let r = first_root(es);
            lemma_layout_from(es, 1, r);
            if has_parent_dir(parts) {
                assert(!entry_under(es[0], r));
            }
        }
    }
}

/// Checks that all entries of an archive lie under one root directory, and
/// gives that root's name.
pub fn validate_archive_entries(entries: &Vec<ArchiveEntry>) -> (r: Result<String, ArchiveError>)
    ensures
        match check_layout(entries@, 0, None) {
            Ok(root) => r matches Ok(s) && s@ == root,
            Err(e) => r == Err::<String, ArchiveError>(e),
        },
{
    let mut root: Option<String> = None;
    let mut i: usize = 0;
    while i < entries.len()
        invariant
            0 <= i <= entries@.len(),
            check_layout(entries@, 0, None) == check_layout(
                entries@,
                i as int,
                match root {
                    Some(s) => Some(s@),
                    None => None,
                },
            ),
            i > 0 ==> root is Some,
        decreases entries.len() - i,
    {
        let e = &entries[i];
        let mut k: usize = 0;
        while k < e.components.len()
            invariant
                0 <= i < entries@.len(),
                *e == entries@[i as int],
                check_layout(entries@, 0, None) == check_layout(
                    entries@,
                    i as int,
                    match root {
                        Some(s) => Some(s@),
                        None => None,
                    },
                ),
                0 <= k <= e.components@.len(),
                forall|m: int| 0 <= m < k ==> !(e.components@[m] is ParentDir),
            decreases e.components.len() - k,
        {
            if let ArchivePart::ParentDir = &e.components[k] {
                assert(has_parent_dir(e.components@));
                return Err(ArchiveError::PathTraversal(i));
            }
            k = k + 1;
        }
        assert(!has_parent_dir(e.components@));
        if e.components.len() == 0 {
            return Err(ArchiveError::InvalidPath(i));
        }
        let first = match &e.components[0] {
            ArchivePart::Normal(p) => p,
            _ => {
                return Err(ArchiveError::InvalidPath(i));
            },
        };
        match &root {
            None => {
                if e.components.len() == 1 && !e.is_dir {
                    return Err(ArchiveError::RootNotDirectory(i));
                }
                root = Some(first.clone());
            },
            Some(r) => {
                if *first != *r {
                    return Err(ArchiveError::UnexpectedRoot(i));
                }
                if e.components.len() == 1 && !e.is_dir {
                    return Err(ArchiveError::RootNotDirectory(i));
                }
            },
        }
        i = i + 1;
    }
    match root {
        Some(r) => Ok(r),
        None => Err(ArchiveError::Empty),
    }
}

} // verus!
