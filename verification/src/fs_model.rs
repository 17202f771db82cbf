//! In-memory snapshot of a directory tree.
//!
//! The traversal engine works over this snapshot rather than over live
//! filesystem handles: every directory listing and every file read is
//! recorded here together with the error it produced, if any, so the
//! walk itself is a pure, fully checked computation. Paths are the full
//! paths as the directory walk produced them.

use vstd::prelude::*;

verus! {

/// One node of the directory-tree snapshot.
pub enum FsEntry {
    /// A directory and the outcome of listing it: its immediate
    /// children in listing order, or the error message the listing
    /// produced.
    Dir { path: String, listing: Result<Vec<FsEntry>, String> },
    /// A regular file and the outcome of reading it: its full byte
    /// content, or the error message the read produced.
    File { path: String, content: Result<Vec<u8>, String> },
    /// A directory entry that could not be examined at all; holds the
    /// error message.
    Unknown { error: String },
}

/// A file node that a scan fingerprints: a regular file whose content
/// was read successfully and is not empty.
pub open spec fn is_hashable_file(e: FsEntry) -> bool {
    match e {
        FsEntry::File { path: _, content } => match content {
            Ok(bytes) => bytes@.len() > 0,
            Err(_) => false,
        },
        _ => false,
    }
}

/// The immediate children of a directory node whose listing succeeded;
/// empty for every other node.
pub open spec fn dir_children(e: FsEntry) -> Seq<FsEntry> {
    match e {
        FsEntry::Dir { path: _, listing } => match listing {
            Ok(children) => children@,
            Err(_) => Seq::empty(),
        },
        _ => Seq::empty(),
    }
}

/// The snapshot recorded no failure anywhere: every directory listing
/// and every file read under `e` succeeded.
pub open spec fn tree_ok(e: FsEntry) -> bool
    decreases e, 0int,
{
    match e {
        FsEntry::Dir { path: _, listing } => match listing {
            Ok(children) => children_ok(children@, 0),
            Err(_) => false,
        },
        FsEntry::File { path: _, content } => content is Ok,
        FsEntry::Unknown { error: _ } => false,
    }
}

/// Every child of a listing from position `i` onwards is error-free.
pub open spec fn children_ok(es: Seq<FsEntry>, i: int) -> bool
    decreases es, es.len() - i,
{
    if i < 0 || i >= es.len() {
        true
    } else {
        tree_ok(es[i]) && children_ok(es, i + 1)
    }
}

/// A regular file with path `p` and successfully read content `c`
/// stands somewhere in the tree under `e`.
pub open spec fn file_in_tree(e: FsEntry, p: Seq<char>, c: Seq<u8>) -> bool
    decreases e, 0int,
{
    match e {
        FsEntry::Dir { path: _, listing } => match listing {
            Ok(children) => file_in_children(children@, 0, p, c),
            Err(_) => false,
        },
        FsEntry::File { path, content } => match content {
            Ok(bytes) => path@ == p && bytes@ == c,
            Err(_) => false,
        },
        FsEntry::Unknown { error: _ } => false,
    }
}

/// The file stands under one of the children from position `i` onwards.
pub open spec fn file_in_children(es: Seq<FsEntry>, i: int, p: Seq<char>, c: Seq<u8>) -> bool
    decreases es, es.len() - i,
{
    if i < 0 || i >= es.len() {
        false
    } else {
        file_in_tree(es[i], p, c) || file_in_children(es, i + 1, p, c)
    }
}

/// The paths of every file node in the tree under `e`, in traversal
/// order, whether or not the node is readable or empty. On a real
/// filesystem these are pairwise distinct, since each includes the
/// path of its parent directory.
pub open spec fn tree_file_paths(e: FsEntry) -> Seq<Seq<char>>
    decreases e, 0int,
{
    match e {
        FsEntry::Dir { path: _, listing } => match listing {
            Ok(children) => children_file_paths(children@, 0),
            Err(_) => Seq::empty(),
        },
        FsEntry::File { path, content: _ } => seq![path@],
        FsEntry::Unknown { error: _ } => Seq::empty(),
    }
}

/// The file paths under the children from position `i` onwards.
pub open spec fn children_file_paths(es: Seq<FsEntry>, i: int) -> Seq<Seq<char>>
    decreases es, es.len() - i,
{
    if i < 0 || i >= es.len() {
        Seq::empty()
    } else {
        tree_file_paths(es[i]) + children_file_paths(es, i + 1)
    }
}

} // verus!
