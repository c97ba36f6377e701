//! Depth-first, pre-order traversal of a directory snapshot: only
//! classified files are emitted, each annotated with its containing
//! folder; directories themselves are never emitted.  A directory that
//! could not be opened contributes nothing, without stopping the walk
//! anywhere else.

use vstd::prelude::*;
use vstd::string::*;
use crate::{EntryV, FileEntry, entries_view, count_path, lemma_count_path_add, lemma_count_path_small};
use crate::tree::{NodeV, FsNode, node_views, lemma_node_views, node_path, all_paths, all_paths_list, wf_node, wf_list, is_dir, dir_readable, lemma_no_dup_split, lemma_wf_list_parts};
use crate::classify::{name_is_media, media_file_type, classify_name};

verus! {

/// The walk of a subtree rooted at a directory node.  A file node, or a
/// directory that could not be opened, contributes nothing.
pub open spec fn spec_walk(d: NodeV) -> Seq<EntryV>
    decreases d, 0int,
{
    match d {
        NodeV::File { .. } => Seq::empty(),
        NodeV::Dir { path, readable, children, .. } => if !readable {
            Seq::empty()
        } else {
            walk_list(children, path)
        },
    }
}

/// What one child contributes to the walk of its parent, whose path is
/// `folder`: a classified file becomes one entry; a subdirectory
/// contributes its own walk and is not emitted itself.
pub open spec fn walk_one(c: NodeV, folder: Seq<char>) -> Seq<EntryV>
    decreases c, 1int,
{
    match c {
        NodeV::File { name, path, size } => if name_is_media(name) {
            seq![
                EntryV {
                    name,
                    size,
                    folder,
                    path,
                    file_type: media_file_type(name),
                    is_directory: false,
                },
            ]
        } else {
            Seq::empty()
        },
        NodeV::Dir { .. } => spec_walk(c),
    }
}

/// The concatenated contributions of a sequence of children, in order.
pub open spec fn walk_list(s: Seq<NodeV>, folder: Seq<char>) -> Seq<EntryV>
    decreases s, 2int,
{
    if s.len() == 0 {
        Seq::empty()
    } else {
        walk_one(s[0], folder) + walk_list(s.drop_first(), folder)
    }
}

/// `walk_list` distributes over concatenation.
pub proof fn lemma_walk_list_append(a: Seq<NodeV>, b: Seq<NodeV>, folder: Seq<char>)
    ensures
        walk_list(a + b, folder) == walk_list(a, folder) + walk_list(b, folder),
    decreases a.len(),
{
    if a.len() == 0 {
        assert(a + b =~= b);
        assert(walk_list(a, folder) + walk_list(b, folder) =~= walk_list(b, folder));
    } else {
        lemma_walk_list_append(a.drop_first(), b, folder);
        assert((a + b).drop_first() =~= a.drop_first() + b);
        assert((a + b)[0] == a[0]);
        assert(walk_one(a[0], folder) + (walk_list(a.drop_first(), folder) + walk_list(b, folder))
            =~= (walk_one(a[0], folder) + walk_list(a.drop_first(), folder)) + walk_list(
            b,
            folder,
        ));
    }
}

/// Extending a processed prefix by one child appends that child's
/// contribution.
pub proof fn lemma_walk_list_take_step(s: Seq<NodeV>, folder: Seq<char>, i: int)
    requires
        0 <= i < s.len(),
    ensures
        walk_list(s.take(i + 1), folder) == walk_list(s.take(i), folder) + walk_one(s[i], folder),
{
    reveal_with_fuel(walk_list, 3);
    assert(s.take(i + 1) =~= s.take(i) + seq![s[i]]);
    lemma_walk_list_append(s.take(i), seq![s[i]], folder);
    assert(seq![s[i]].drop_first() =~= Seq::<NodeV>::empty());
    assert(walk_one(s[i], folder) + Seq::<EntryV>::empty() =~= walk_one(s[i], folder));
    assert(walk_list(seq![s[i]], folder) =~= walk_one(s[i], folder));
}

/// Whether the subtree of child `c` holds a classified file at path `p`
/// that a walk can reach: files behind an unreadable directory are
/// unreachable.
pub open spec fn contributes(c: NodeV, p: Seq<char>) -> bool
    decreases c, 1int,
{
    match c {
        NodeV::File { name, path, .. } => path == p && name_is_media(name),
        NodeV::Dir { readable, children, .. } => readable && contributes_list(children, p),
    }
}

/// Whether any subtree of a forest holds a reachable classified file at
/// path `p`.
pub open spec fn contributes_list(s: Seq<NodeV>, p: Seq<char>) -> bool
    decreases s, 2int,
{
    if s.len() == 0 {
        false
    } else {
        contributes(s[0], p) || contributes_list(s.drop_first(), p)
    }
}

/// No entry of `s` describes a directory.
pub open spec fn no_dir_entries(s: Seq<EntryV>) -> bool {
    forall|k: int| 0 <= k < s.len() ==> !(#[trigger] s[k]).is_directory
}

/// A walk never emits a directory entry (one child's contribution).
proof fn lemma_walk_one_no_directories(c: NodeV, folder: Seq<char>)
    ensures
        no_dir_entries(walk_one(c, folder)),
    decreases c, 1int,
{
    match c {
        NodeV::File { name, path, size } => {
            if name_is_media(name) {
                let e = EntryV {
                    name,
                    size,
                    folder,
                    path,
                    file_type: media_file_type(name),
                    is_directory: false,
                };
                assert forall|k: int|
                    0 <= k < walk_one(c, folder).len() implies !(#[trigger] walk_one(
                    c,
                    folder,
                )[k]).is_directory by {
                    assert(walk_one(c, folder)[k] == e);
                }
            } else {
                assert(walk_one(c, folder) =~= Seq::<EntryV>::empty());
            }
        },
        NodeV::Dir { path, readable, children, .. } => {
            if readable {
                lemma_walk_list_no_directories(children, path);
            } else {
                assert(walk_one(c, folder) =~= Seq::<EntryV>::empty());
            }
        },
    }
}

/// A walk never emits a directory entry (a forest's contributions).
proof fn lemma_walk_list_no_directories(s: Seq<NodeV>, folder: Seq<char>)
    ensures
        no_dir_entries(walk_list(s, folder)),
    decreases s, 2int,
{
    if s.len() > 0 {
        lemma_walk_one_no_directories(s[0], folder);
        lemma_walk_list_no_directories(s.drop_first(), folder);
        let w0 = walk_one(s[0], folder);
        let wr = walk_list(s.drop_first(), folder);
        assert(walk_list(s, folder) == w0 + wr);
        assert forall|k: int|
            0 <= k < walk_list(s, folder).len() implies !(#[trigger] walk_list(
            s,
            folder,
        )[k]).is_directory by {
            if k < w0.len() {
                assert((w0 + wr)[k] == w0[k]);
            } else {
                assert((w0 + wr)[k] == wr[k - w0.len()]);
            }
        }
    }
}

/// Law: a walk never includes a directory entry.
pub proof fn lemma_walk_no_directories(d: NodeV)
    ensures
        no_dir_entries(spec_walk(d)),
{
    match d {
        NodeV::File { .. } => {},
        NodeV::Dir { path, readable, children, .. } => {
            if readable {
                lemma_walk_list_no_directories(children, path);
                assert(spec_walk(d) == walk_list(children, path));
            }
        },
    }
}

/// A reachable classified file's path is recorded in the subtree.
proof fn lemma_contributes_in_paths(c: NodeV, p: Seq<char>)
    requires
        contributes(c, p),
    ensures
        all_paths(c).contains(p),
    decreases c, 1int,
{
    match c {
        NodeV::File { .. } => {
            assert(all_paths(c)[0] == p);
        },
        NodeV::Dir { path, children, .. } => {
            lemma_contributes_in_list_paths(children, p);
            let k = choose|k: int|
                0 <= k < all_paths_list(children).len() && all_paths_list(children)[k] == p;
            assert(all_paths(c)[1 + k] == p);
        },
    }
}

/// A reachable classified file's path is recorded in the forest.
proof fn lemma_contributes_in_list_paths(s: Seq<NodeV>, p: Seq<char>)
    requires
        contributes_list(s, p),
    ensures
        all_paths_list(s).contains(p),
    decreases s, 2int,
{
    if contributes(s[0], p) {
        lemma_contributes_in_paths(s[0], p);
        let k = choose|k: int| 0 <= k < all_paths(s[0]).len() && all_paths(s[0])[k] == p;
        assert(all_paths_list(s)[k] == p);
    } else {
        lemma_contributes_in_list_paths(s.drop_first(), p);
        let k = choose|k: int|
            0 <= k < all_paths_list(s.drop_first()).len() && all_paths_list(s.drop_first())[k]
                == p;
        assert(all_paths_list(s)[all_paths(s[0]).len() + k] == p);
    }
}

/// One child's contribution holds an entry with path `p` exactly when the
/// child's subtree holds a reachable classified file there, and then
/// exactly one such entry.
proof fn lemma_walk_one_count(c: NodeV, folder: Seq<char>, p: Seq<char>)
    requires
        all_paths(c).no_duplicates(),
    ensures
        count_path(walk_one(c, folder), p) == (if contributes(c, p) {
            1nat
        } else {
            0nat
        }),
    decreases c, 1int,
{
    match c {
        NodeV::File { name, path, size } => {
            if name_is_media(name) {
                lemma_count_path_small(
                    EntryV {
                        name,
                        size,
                        folder,
                        path,
                        file_type: media_file_type(name),
                        is_directory: false,
                    },
                    p,
                );
            } else {
                lemma_count_path_small(
                    EntryV {
                        name,
                        size,
                        folder,
                        path,
                        file_type: media_file_type(name),
                        is_directory: false,
                    },
                    p,
                );
            }
        },
        NodeV::Dir { path, readable, children, .. } => {
            lemma_no_dup_split(seq![path], all_paths_list(children));
            if readable {
                lemma_walk_list_count(children, path, p);
            } else {
                lemma_count_path_small(
                    EntryV {
                        name: Seq::empty(),
                        size: 0,
                        folder,
                        path: p,
                        file_type: Seq::empty(),
                        is_directory: false,
                    },
                    p,
                );
            }
        },
    }
}

/// A forest's contributions hold an entry with path `p` exactly when some
/// subtree holds a reachable classified file there, and then exactly one.
proof fn lemma_walk_list_count(s: Seq<NodeV>, folder: Seq<char>, p: Seq<char>)
    requires
        wf_list(s),
    ensures
        count_path(walk_list(s, folder), p) == (if contributes_list(s, p) {
            1nat
        } else {
            0nat
        }),
    decreases s, 2int,
{
    if s.len() == 0 {
        lemma_count_path_small(
            EntryV {
                name: Seq::empty(),
                size: 0,
                folder,
                path: p,
                file_type: Seq::empty(),
                is_directory: false,
            },
            p,
        );
    } else {
        lemma_wf_list_parts(s);
        lemma_walk_one_count(s[0], folder, p);
        lemma_walk_list_count(s.drop_first(), folder, p);
        lemma_count_path_add(walk_one(s[0], folder), walk_list(s.drop_first(), folder), p);
        if contributes(s[0], p) && contributes_list(s.drop_first(), p) {
            lemma_contributes_in_paths(s[0], p);
            lemma_contributes_in_list_paths(s.drop_first(), p);
        }
    }
}

/// Law: the walk of a well-formed directory holds exactly one entry with
/// path `p` when a classified file at `p` is reachable beneath it, and no
/// entry with path `p` otherwise.
pub proof fn lemma_walk_exactly_once(d: NodeV, p: Seq<char>)
    requires
        wf_node(d),
        is_dir(d),
    ensures
        count_path(spec_walk(d), p) == (if contributes(d, p) {
            1nat
        } else {
            0nat
        }),
{
    match d {
        NodeV::File { .. } => {},
        NodeV::Dir { path, readable, children, .. } => {
            lemma_no_dup_split(seq![path], all_paths_list(children));
            if readable {
                lemma_walk_list_count(children, path, p);
            } else {
                lemma_count_path_small(
                    EntryV {
                        name: Seq::empty(),
                        size: 0,
                        folder: path,
                        path: p,
                        file_type: Seq::empty(),
                        is_directory: false,
                    },
                    p,
                );
            }
        },
    }
}

/// Law: a subdirectory that could not be opened contributes nothing to the
/// walk, and every sibling subtree's entries are unchanged: removing that
/// child leaves the walk of the parent as it was.
pub proof fn lemma_walk_unreadable_child(s: Seq<NodeV>, folder: Seq<char>, i: int)
    requires
        0 <= i < s.len(),
        s[i] is Dir,
        !dir_readable(s[i]),
    ensures
        walk_list(s, folder) == walk_list(s.remove(i), folder),
{
    reveal_with_fuel(walk_list, 3);
    let unit = seq![s[i]];
    assert(s =~= s.take(i) + unit + s.skip(i + 1));
    assert(s.remove(i) =~= s.take(i) + s.skip(i + 1));
    lemma_walk_list_append(s.take(i) + unit, s.skip(i + 1), folder);
    lemma_walk_list_append(s.take(i), unit, folder);
    lemma_walk_list_append(s.take(i), s.skip(i + 1), folder);
    assert(walk_one(s[i], folder) =~= Seq::<EntryV>::empty());
    assert(unit.drop_first() =~= Seq::<NodeV>::empty());
    assert(walk_list(unit, folder) =~= Seq::<EntryV>::empty());
    assert(walk_list(s.take(i), folder) + walk_list(unit, folder) =~= walk_list(
        s.take(i),
        folder,
    ));
    assert(walk_list(s, folder) =~= walk_list(s.take(i), folder) + walk_list(
        s.skip(i + 1),
        folder,
    ));
}

/// Appends one child's contribution to `out`, recursing depth-first into
/// subdirectories.
#[verifier::loop_isolation(false)]
fn walk_node(c: &FsNode, folder: &str, out: &mut Vec<FileEntry>)
    ensures
        entries_view(final(out)@) == entries_view(old(out)@) + walk_one(c@, folder@),
    decreases *c,
{
    match c {
        FsNode::File { name, path, size } => {
            match classify_name(name.as_str()) {
                Some(ft) => {
                    let e = FileEntry {
                        name: name.clone(),
                        size: *size,
                        folder: String::from_str(folder),
                        path: path.clone(),
                        file_type: ft,
                        is_directory: false,
                    };
                    let ghost o0 = out@;
                    out.push(e);
                    proof {
                        assert(walk_one(c@, folder@) =~= seq![e@]);
                        assert(entries_view(out@) =~= entries_view(o0) + seq![e@]);
                    }
                },
                None => {
                    proof {
                        assert(walk_one(c@, folder@) =~= Seq::<EntryV>::empty());
                        assert(entries_view(out@) =~= entries_view(out@) + Seq::<
                            EntryV,
                        >::empty());
                    }
                },
            }
        },
        FsNode::Dir { path, readable, children, .. } => {
            if !*readable {
                proof {
                    assert(walk_one(c@, folder@) =~= Seq::<EntryV>::empty());
                    assert(entries_view(out@) =~= entries_view(out@) + Seq::<EntryV>::empty());
                }
                return;
            }
            let ghost vch = node_views(children@);
            proof {
                lemma_node_views(children@);
                assert(walk_one(c@, folder@) == walk_list(vch, path@));
            }
            let mut i: usize = 0;
            while i < children.len()
                invariant
                    i <= children@.len(),
                    entries_view(out@) == entries_view(old(out)@) + walk_list(
                        vch.take(i as int),
                        path@,
                    ),
                decreases children@.len() - i,
            {
                let ghost o1 = out@;
                walk_node(&children[i], path.as_str(), out);
                proof {
                    lemma_walk_list_take_step(vch, path@, i as int);
                    assert(entries_view(out@) =~= entries_view(old(out)@) + walk_list(
                        vch.take(i + 1),
                        path@,
                    ));
                }
                i = i + 1;
            }
            proof {
                assert(vch.take(children@.len() as int) =~= vch);
            }
        },
    }
}

/// Walks the snapshot depth-first from its root, collecting every
/// classified file anywhere beneath it.
pub fn read_folder_recursive(dir: &FsNode) -> (r: Vec<FileEntry>)
    ensures
        entries_view(r@) == spec_walk(dir@),
{
    let mut out: Vec<FileEntry> = Vec::new();
    match dir {
        FsNode::File { .. } => {
            assert(entries_view(out@) =~= spec_walk(dir@));
        },
        FsNode::Dir { .. } => {
            walk_node(dir, "", &mut out);
            proof {
                assert(walk_one(dir@, ""@) == spec_walk(dir@));
                assert(entries_view(out@) =~= spec_walk(dir@));
            }
        },
    }
    out
}

} // verus!
