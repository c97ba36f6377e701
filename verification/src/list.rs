//! Flat, single-level listing of a directory snapshot.

use vstd::prelude::*;
use vstd::string::*;
use crate::{EntryV, FileEntry, entries_view, count_path, lemma_count_path_add, lemma_count_path_small};
use crate::tree::{NodeV, FsNode, node_views, lemma_node_views, node_path, wf_node, is_dir, dir_children, dir_readable, lemma_wf_dir_children, lemma_sibling_paths_distinct};
use crate::classify::{name_is_media, media_file_type, classify_name};

verus! {

/// The entries one child contributes to a flat listing: a directory is
/// always included, tagged `"directory"`; a file only when its name passes
/// the allow-list, tagged with its lowercased extension.
pub open spec fn list_one(c: NodeV, folder: Seq<char>) -> Seq<EntryV> {
    match c {
        NodeV::Dir { name, path, size, .. } => seq![
            EntryV {
                name,
                size,
                folder,
                path,
                file_type: "directory"@,
                is_directory: true,
            },
        ],
        NodeV::File { name, path, size } => if name_is_media(name) {
            seq![
                EntryV {
                    name,
                    size,
                    folder,
                    path,
                    file_type: media_file_type(name),
                    is_directory: false,
                },
            ]
        } else {
            Seq::empty()
        },
    }
}

/// The concatenated contributions of a sequence of children, in order.
pub open spec fn list_list(s: Seq<NodeV>, folder: Seq<char>) -> Seq<EntryV>
    decreases s.len(),
{
    if s.len() == 0 {
        Seq::empty()
    } else {
        list_one(s[0], folder) + list_list(s.drop_first(), folder)
    }
}

/// The flat listing of a snapshot node: its children's contributions in
/// enumeration order.  A file node, or a directory that could not be
/// opened, lists as empty.
pub open spec fn spec_list(d: NodeV) -> Seq<EntryV> {
    match d {
        NodeV::File { .. } => Seq::empty(),
        NodeV::Dir { path, readable, children, .. } => if !readable {
            Seq::empty()
        } else {
            list_list(children, path)
        },
    }
}

/// `list_list` distributes over concatenation.
pub proof fn lemma_list_list_append(a: Seq<NodeV>, b: Seq<NodeV>, folder: Seq<char>)
    ensures
        list_list(a + b, folder) == list_list(a, folder) + list_list(b, folder),
    decreases a.len(),
{
    if a.len() == 0 {
        assert(a + b =~= b);
        assert(list_list(a, folder) + list_list(b, folder) =~= list_list(b, folder));
    } else {
        lemma_list_list_append(a.drop_first(), b, folder);
        assert((a + b).drop_first() =~= a.drop_first() + b);
        assert((a + b)[0] == a[0]);
        assert(list_one(a[0], folder) + (list_list(a.drop_first(), folder) + list_list(b, folder))
            =~= (list_one(a[0], folder) + list_list(a.drop_first(), folder)) + list_list(
            b,
            folder,
        ));
    }
}

/// Extending a processed prefix by one child appends that child's
/// contribution.
pub proof fn lemma_list_list_take_step(s: Seq<NodeV>, folder: Seq<char>, i: int)
    requires
        0 <= i < s.len(),
    ensures
        list_list(s.take(i + 1), folder) == list_list(s.take(i), folder) + list_one(s[i], folder),
{
    reveal_with_fuel(list_list, 3);
    assert(s.take(i + 1) =~= s.take(i) + seq![s[i]]);
    lemma_list_list_append(s.take(i), seq![s[i]], folder);
    assert(seq![s[i]].drop_first() =~= Seq::<NodeV>::empty());
    assert(list_one(s[i], folder) + Seq::<EntryV>::empty() =~= list_one(s[i], folder));
    assert(list_list(seq![s[i]], folder) =~= list_one(s[i], folder));
}

/// Whether a child appears in a flat listing: directories always, files
/// exactly when their name passes the allow-list.
pub open spec fn listed(c: NodeV) -> bool {
    match c {
        NodeV::Dir { .. } => true,
        NodeV::File { name, .. } => name_is_media(name),
    }
}

/// How many listed children of `s` record the path `p`.
pub open spec fn count_listed(s: Seq<NodeV>, p: Seq<char>) -> nat
    decreases s.len(),
{
    if s.len() == 0 {
        0
    } else {
        (if node_path(s[0]) == p && listed(s[0]) {
            1nat
        } else {
            0nat
        }) + count_listed(s.drop_first(), p)
    }
}

/// A flat listing holds as many entries with path `p` as there are listed
/// children recording `p`.
pub proof fn lemma_list_count(s: Seq<NodeV>, folder: Seq<char>, p: Seq<char>)
    ensures
        count_path(list_list(s, folder), p) == count_listed(s, p),
    decreases s.len(),
{
    if s.len() == 0 {
        lemma_count_path_small(
            EntryV {
                name: Seq::empty(),
                size: 0,
                folder,
                path: p,
                file_type: Seq::empty(),
                is_directory: false,
            },
            p,
        );
    } else {
        lemma_list_count(s.drop_first(), folder, p);
        lemma_count_path_add(list_one(s[0], folder), list_list(s.drop_first(), folder), p);
        match s[0] {
            NodeV::Dir { name, path, size, .. } => {
                lemma_count_path_small(
                    EntryV {
                        name,
                        size,
                        folder,
                        path,
                        file_type: "directory"@,
                        is_directory: true,
                    },
                    p,
                );
            },
            NodeV::File { name, path, size } => {
                lemma_count_path_small(
                    EntryV {
                        name,
                        size,
                        folder,
                        path,
                        file_type: media_file_type(name),
                        is_directory: false,
                    },
                    p,
                );
            },
        }
    }
}

/// No listed child records `p`: no entry does either.
pub proof fn lemma_count_listed_zero(s: Seq<NodeV>, p: Seq<char>)
    requires
        forall|j: int| 0 <= j < s.len() ==> node_path(s[j]) != p,
    ensures
        count_listed(s, p) == 0,
    decreases s.len(),
{
    if s.len() > 0 {
        assert(forall|j: int|
            0 <= j < s.drop_first().len() ==> s.drop_first()[j] == s[j + 1]);
        lemma_count_listed_zero(s.drop_first(), p);
    }
}

/// Exactly the one child at `i` records its path: the count is one when it
/// is listed, zero when it is not.
pub proof fn lemma_count_listed_single(s: Seq<NodeV>, i: int)
    requires
        0 <= i < s.len(),
        forall|j: int| 0 <= j < s.len() && j != i ==> node_path(s[j]) != node_path(s[i]),
    ensures
        count_listed(s, node_path(s[i])) == (if listed(s[i]) {
            1nat
        } else {
            0nat
        }),
    decreases s.len(),
{
    let p = node_path(s[i]);
    assert(forall|j: int| 0 <= j < s.drop_first().len() ==> s.drop_first()[j] == s[j + 1]);
    if i == 0 {
        lemma_count_listed_zero(s.drop_first(), p);
    } else {
        lemma_count_listed_single(s.drop_first(), i - 1);
    }
}

/// Law: the flat listing of a readable, well-formed directory includes
/// every subdirectory exactly once and every allow-listed file exactly
/// once, and a file with a non-allow-listed name never appears.
pub proof fn lemma_list_exactly_once(d: NodeV, i: int)
    requires
        wf_node(d),
        is_dir(d),
        dir_readable(d),
        0 <= i < dir_children(d).len(),
    ensures
        listed(dir_children(d)[i]) ==> count_path(
            spec_list(d),
            node_path(dir_children(d)[i]),
        ) == 1,
        !listed(dir_children(d)[i]) ==> count_path(
            spec_list(d),
            node_path(dir_children(d)[i]),
        ) == 0,
{
    let s = dir_children(d);
    lemma_wf_dir_children(d);
    lemma_sibling_paths_distinct(s);
    match d {
        NodeV::File { .. } => {},
        NodeV::Dir { path, .. } => {
            lemma_list_count(s, path, node_path(s[i]));
            lemma_count_listed_single(s, i);
        },
    }
}

/// Law: once no child of a directory records the path `p` — after a
/// deletion, say — its flat listing holds no entry with path `p`.
pub proof fn lemma_list_absent(d: NodeV, p: Seq<char>)
    requires
        is_dir(d),
        forall|j: int| 0 <= j < dir_children(d).len() ==> node_path(dir_children(d)[j]) != p,
    ensures
        count_path(spec_list(d), p) == 0,
{
    match d {
        NodeV::File { .. } => {},
        NodeV::Dir { path, readable, .. } => {
            if readable {
                lemma_list_count(dir_children(d), path, p);
                lemma_count_listed_zero(dir_children(d), p);
            } else {
                lemma_count_path_small(
                    EntryV {
                        name: Seq::empty(),
                        size: 0,
                        folder: path,
                        path: p,
                        file_type: Seq::empty(),
                        is_directory: false,
                    },
                    p,
                );
            }
        },
    }
}

/// Lists one directory level of the snapshot: every subdirectory, and
/// every file whose extension passes the allow-list, in enumeration order.
#[verifier::loop_isolation(false)]
pub fn read_folder(dir: &FsNode) -> (r: Vec<FileEntry>)
    ensures
        entries_view(r@) == spec_list(dir@),
{
    match dir {
        FsNode::File { .. } => {
            let r: Vec<FileEntry> = Vec::new();
            assert(entries_view(r@) =~= spec_list(dir@));
            r
        },
        FsNode::Dir { path, readable, children, .. } => {
            if !*readable {
                let r: Vec<FileEntry> = Vec::new();
                assert(entries_view(r@) =~= spec_list(dir@));
                return r;
            }
            let ghost vch = node_views(children@);
            proof {
                lemma_node_views(children@);
            }
            let mut r: Vec<FileEntry> = Vec::new();
            let mut i: usize = 0;
            while i < children.len()
                invariant
                    i <= children@.len(),
                    entries_view(r@) == list_list(vch.take(i as int), path@),
                decreases children@.len() - i,
            {
                let c = &children[i];
                assert(c@ == vch[i as int]);
                proof {
                    lemma_list_list_take_step(vch, path@, i as int);
                }
                match c {
                    FsNode::Dir { name, path: cpath, size, .. } => {
                        let e = FileEntry {
                            name: name.clone(),
                            size: *size,
                            folder: path.clone(),
                            path: cpath.clone(),
                            file_type: String::from_str("directory"),
                            is_directory: true,
                        };
                        assert(list_one(vch[i as int], path@) =~= seq![e@]);
                        let ghost r0 = r@;
                        r.push(e);
                        proof {
                            assert(entries_view(r@) =~= entries_view(r0).push(e@));
                            assert(entries_view(r@) =~= list_list(vch.take(i + 1), path@));
                        }
                    },
                    FsNode::File { name, path: cpath, size } => {
                        match classify_name(name.as_str()) {
                            Some(ft) => {
                                let e = FileEntry {
                                    name: name.clone(),
                                    size: *size,
                                    folder: path.clone(),
                                    path: cpath.clone(),
                                    file_type: ft,
                                    is_directory: false,
                                };
                                assert(list_one(vch[i as int], path@) =~= seq![e@]);
                                let ghost r0 = r@;
                                r.push(e);
                                proof {
                                    assert(entries_view(r@) =~= entries_view(r0).push(e@));
                                    assert(entries_view(r@) =~= list_list(vch.take(i + 1), path@));
                                }
                            },
                            None => {
                                proof {
                                    assert(list_one(vch[i as int], path@) =~= Seq::<
                                        EntryV,
                                    >::empty());
                                    assert(entries_view(r@) + Seq::<EntryV>::empty() =~= entries_view(
                                        r@,
                                    ));
                                    assert(entries_view(r@) =~= list_list(vch.take(i + 1), path@));
                                }
                            },
                        }
                    },
                }
                i = i + 1;
            }
            proof {
                assert(vch.take(children@.len() as int) =~= vch);
            }
            r
        },
    }
}

} // verus!
