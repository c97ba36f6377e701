//! Directory enumeration and media-classification engine.
//!
//! The library models a snapshot of a directory tree as plain data
//! (`FsNode`), classifies entries by a fixed extension allow-list, lists a
//! single directory level (`read_folder`), walks a tree depth-first
//! (`read_folder_recursive`), and encodes an image file's bytes as a
//! `data:<mime>;base64,<payload>` string (`materialize_image`).  All
//! filesystem access stays with the caller, which hands the library plain
//! values and receives `FileEntry` records back.

use vstd::prelude::*;

pub mod chars;
pub mod classify;
pub mod drives;
pub mod encoding;
pub mod list;
pub mod materialize;
pub mod walk;
pub mod tree;

verus! {

/// A spec-level image of one `FileEntry` record: every `String` field as a
/// sequence of characters.
pub struct EntryV {
    pub name: Seq<char>,
    pub size: u64,
    pub folder: Seq<char>,
    pub path: Seq<char>,
    pub file_type: Seq<char>,
    pub is_directory: bool,
}

/// The record describing one filesystem object, as handed back to the caller.
///
/// `name` is the final path segment; `path` the full path; `folder` the path
/// of the containing directory; `size` the byte length reported by the
/// caller's snapshot (0 where metadata was unavailable); `file_type` the
/// lowercased extension, or `"directory"` for directories.
#[derive(Clone, Debug, PartialEq, Eq)]
pub struct FileEntry {
    pub name: String,
    pub size: u64,
    pub folder: String,
    pub path: String,
    pub file_type: String,
    pub is_directory: bool,
}

impl View for FileEntry {
    type V = EntryV;

    open spec fn view(&self) -> EntryV {
        EntryV {
            name: self.name@,
            size: self.size,
            folder: self.folder@,
            path: self.path@,
            file_type: self.file_type@,
            is_directory: self.is_directory,
        }
    }
}

/// The sequence of spec-level records behind a vector of entries.
pub open spec fn entries_view(v: Seq<FileEntry>) -> Seq<EntryV> {
    v.map_values(|e: FileEntry| e@)
}

/// How many entries of `s` record the path `p`.
pub open spec fn count_path(s: Seq<EntryV>, p: Seq<char>) -> nat {
    s.filter(|e: EntryV| e.path == p).len()
}

/// Counting entries by path distributes over concatenation.
pub proof fn lemma_count_path_add(a: Seq<EntryV>, b: Seq<EntryV>, p: Seq<char>)
    ensures
        count_path(a + b, p) == count_path(a, p) + count_path(b, p),
{
    broadcast use vstd::prelude::Seq::filter_distributes_over_add;

}

/// The count over a single entry, and over no entry.
pub proof fn lemma_count_path_small(e: EntryV, p: Seq<char>)
    ensures
        count_path(seq![e], p) == (if e.path == p {
            1nat
        } else {
            0nat
        }),
        count_path(Seq::<EntryV>::empty(), p) == 0,
{
    reveal_with_fuel(Seq::filter, 3);
    assert(seq![e].drop_last() =~= Seq::<EntryV>::empty());
    assert(Seq::<EntryV>::empty().filter(|e: EntryV| e.path == p) =~= Seq::<EntryV>::empty());
    assert(seq![e].filter(|e: EntryV| e.path == p) == (if e.path == p {
        seq![e]
    } else {
        Seq::<EntryV>::empty()
    }));
}

} // verus!
