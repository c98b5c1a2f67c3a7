//! Building the metadata tree of a library from a directory scan: each
//! entry found becomes a node under the directory it was found in, with a
//! `file:` URL and its kind. Listing the directories is left to the caller.

use vstd::prelude::*;

use crate::metadata_tree::{info_view, MetadataError, MetadataInfo, MetadataKind, MetadataQuery, MetadataTree};

verus! {

/// The kind of a scanned entry: a file, else a directory, else unknown.
pub open spec fn scanned_kind(is_file: bool, is_dir: bool) -> MetadataKind {
    if is_file {
        MetadataKind::File
    } else if is_dir {
        MetadataKind::Directory
    } else {
        MetadataKind::Unknown
    }
}

/// What the node of a scanned entry at `path` carries: the URL `file:`
/// followed by the path, its kind, and no payload.
pub fn scanned_entry_info(path: &str, is_file: bool, is_dir: bool) -> (r: MetadataInfo)
    ensures
        info_view(r) == ("file:"@ + path@, scanned_kind(is_file, is_dir), Seq::<u8>::empty()),
{
    let mut url = "file:".to_owned();
    url.append(path);
    let kind = if is_file {
        MetadataKind::File
    } else if is_dir {
        MetadataKind::Directory
    } else {
        MetadataKind::Unknown
    };
    let r = MetadataInfo { url, kind, payload: Vec::new() };
    assert(r.payload@ =~= Seq::<u8>::empty());
    r
}

/// Adds the entry `name`, found at `path` in the directory whose node is
/// `parent`, as that node's last child under the next id, which it
/// returns; a `parent` that is not in the tree is refused and nothing
/// changes.
pub fn add_scanned_entry(
    tree: &mut MetadataTree,
    parent: u64,
    name: String,
    path: &str,
    is_file: bool,
    is_dir: bool,
) -> (r: Result<u64, MetadataError>)
    requires
        old(tree).well_formed(),
        old(tree).next_id() < u64::MAX,
    ensures
        final(tree).well_formed(),
        match r {
            Ok(id) => {
                &&& old(tree).live(parent)
                &&& id == old(tree).next_id()
                &&& final(tree).next_id() == id + 1
                &&& final(tree).name_of(id) == name@
                &&& final(tree).info_of(id) == ("file:"@ + path@, scanned_kind(is_file, is_dir), Seq::<u8>::empty())
                &&& final(tree).parent_of(id) == Some(parent)
                &&& final(tree).children_of(parent) == old(tree).children_of(parent).push(id)
            },
            Err(e) => {
                &&& e == MetadataError::ParentNotFound
                &&& !old(tree).live(parent)
                &&& *final(tree) == *old(tree)
            },
        },
{
    let info = scanned_entry_info(path, is_file, is_dir);
    tree.insert(&MetadataQuery::Id(parent), name, info)
}

} // verus!
