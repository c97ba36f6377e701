//! The modeled directory snapshot: a tree of plain values, as the caller
//! observed it on disk.  A directory that could not be opened is recorded
//! with `readable == false`; its children are whatever the caller could
//! observe (normally none).

use vstd::prelude::*;

verus! {

/// Spec-level image of a snapshot node.
pub enum NodeV {
    File { name: Seq<char>, path: Seq<char>, size: u64 },
    Dir { name: Seq<char>, path: Seq<char>, size: u64, readable: bool, children: Seq<NodeV> },
}

/// One node of a directory snapshot: a file with its name, full path and
/// byte size, or a directory with its enumerated children in the order
/// the enumeration returned them.
#[derive(Debug)]
pub enum FsNode {
    File { name: String, path: String, size: u64 },
    Dir { name: String, path: String, size: u64, readable: bool, children: Vec<FsNode> },
}

/// The spec-level image of a snapshot node.
pub open spec fn node_view(n: FsNode) -> NodeV
    decreases n, 1int,
{
    match n {
        FsNode::File { name, path, size } => NodeV::File { name: name@, path: path@, size },
        FsNode::Dir { name, path, size, readable, children } => NodeV::Dir {
            name: name@,
            path: path@,
            size,
            readable,
            children: node_views(children@),
        },
    }
}

/// The spec-level images of a sequence of snapshot nodes, in order.
pub open spec fn node_views(s: Seq<FsNode>) -> Seq<NodeV>
    decreases s, 0int,
{
    if s.len() == 0 {
        Seq::empty()
    } else {
        seq![node_view(s[0])] + node_views(s.drop_first())
    }
}

/// `node_views` is the element-wise image.
pub proof fn lemma_node_views(s: Seq<FsNode>)
    ensures
        node_views(s).len() == s.len(),
        forall|i: int| 0 <= i < s.len() ==> node_views(s)[i] == node_view(s[i]),
    decreases s.len(),
{
    if s.len() > 0 {
        lemma_node_views(s.drop_first());
    }
}

impl View for FsNode {
    type V = NodeV;

    open spec fn view(&self) -> NodeV {
        node_view(*self)
    }
}

/// The full path recorded at a node.
pub open spec fn node_path(n: NodeV) -> Seq<char> {
    match n {
        NodeV::File { path, .. } => path,
        NodeV::Dir { path, .. } => path,
    }
}

/// The name recorded at a node.
pub open spec fn node_name(n: NodeV) -> Seq<char> {
    match n {
        NodeV::File { name, .. } => name,
        NodeV::Dir { name, .. } => name,
    }
}

/// Every path recorded anywhere in the subtree, the node's own first.
pub open spec fn all_paths(n: NodeV) -> Seq<Seq<char>>
    decreases n, 1int,
{
    match n {
        NodeV::File { path, .. } => seq![path],
        NodeV::Dir { path, children, .. } => seq![path] + all_paths_list(children),
    }
}

/// Every path recorded in a forest of subtrees, in order.
pub open spec fn all_paths_list(s: Seq<NodeV>) -> Seq<Seq<char>>
    decreases s, 0int,
{
    if s.len() == 0 {
        Seq::empty()
    } else {
        all_paths(s[0]) + all_paths_list(s.drop_first())
    }
}

/// A well-formed snapshot: no two nodes record the same path.  This is
/// observationally true of a snapshot of a filesystem tree, where a path
/// names at most one object.
pub open spec fn wf_node(n: NodeV) -> bool {
    all_paths(n).no_duplicates()
}

/// A well-formed forest of sibling subtrees.
pub open spec fn wf_list(s: Seq<NodeV>) -> bool {
    all_paths_list(s).no_duplicates()
}

/// Whether a node is a directory.
pub open spec fn is_dir(n: NodeV) -> bool {
    n is Dir
}

/// A directory node's children (empty for a file).
pub open spec fn dir_children(n: NodeV) -> Seq<NodeV> {
    match n {
        NodeV::Dir { children, .. } => children,
        NodeV::File { .. } => Seq::empty(),
    }
}

/// Whether a directory node could be opened (false for a file).
pub open spec fn dir_readable(n: NodeV) -> bool {
    match n {
        NodeV::Dir { readable, .. } => readable,
        NodeV::File { .. } => false,
    }
}

/// Both halves of a duplicate-free concatenation are duplicate-free and
/// share no element.
pub proof fn lemma_no_dup_split<A>(a: Seq<A>, b: Seq<A>)
    requires
        (a + b).no_duplicates(),
    ensures
        a.no_duplicates(),
        b.no_duplicates(),
        forall|x: A| a.contains(x) ==> !b.contains(x),
{
    assert forall|i: int, j: int|
        0 <= i < a.len() && 0 <= j < a.len() && i != j implies a[i] != a[j] by {
        assert((a + b)[i] == a[i]);
        assert((a + b)[j] == a[j]);
    }
    assert forall|i: int, j: int|
        0 <= i < b.len() && 0 <= j < b.len() && i != j implies b[i] != b[j] by {
        assert((a + b)[a.len() + i] == b[i]);
        assert((a + b)[a.len() + j] == b[j]);
    }
    assert forall|x: A| a.contains(x) implies !b.contains(x) by {
        if b.contains(x) {
            let i = choose|i: int| 0 <= i < a.len() && a[i] == x;
            let j = choose|j: int| 0 <= j < b.len() && b[j] == x;
            assert((a + b)[i] == x);
            assert((a + b)[a.len() + j] == x);
        }
    }
}

/// A subtree's paths start with its root's own path.
pub proof fn lemma_all_paths_head(c: NodeV)
    ensures
        all_paths(c).len() >= 1,
        all_paths(c)[0] == node_path(c),
{
    match c {
        NodeV::File { .. } => {},
        NodeV::Dir { .. } => {},
    }
}

/// A well-formed directory's forest of children is well-formed.
pub proof fn lemma_wf_dir_children(d: NodeV)
    requires
        wf_node(d),
        d is Dir,
    ensures
        wf_list(dir_children(d)),
{
    match d {
        NodeV::File { .. } => {},
        NodeV::Dir { path, children, .. } => {
            lemma_no_dup_split(seq![path], all_paths_list(children));
        },
    }
}

/// The head subtree of a well-formed forest is well-formed, the rest is
/// well-formed, and the two record disjoint path sets.
pub proof fn lemma_wf_list_parts(s: Seq<NodeV>)
    requires
        wf_list(s),
        s.len() > 0,
    ensures
        all_paths(s[0]).no_duplicates(),
        wf_list(s.drop_first()),
        forall|x: Seq<char>|
            all_paths(s[0]).contains(x) ==> !all_paths_list(s.drop_first()).contains(x),
{
    lemma_no_dup_split(all_paths(s[0]), all_paths_list(s.drop_first()));
}

/// Every path of a member subtree is recorded in the forest's paths.
pub proof fn lemma_subtree_paths_in_list(s: Seq<NodeV>, i: int)
    requires
        0 <= i < s.len(),
    ensures
        forall|x: Seq<char>|
            all_paths(s[i]).contains(x) ==> #[trigger] all_paths_list(s).contains(x),
    decreases s.len(),
{
    if i == 0 {
        assert forall|x: Seq<char>|
            all_paths(s[0]).contains(x) implies #[trigger] all_paths_list(s).contains(x) by {
            let k = choose|k: int| 0 <= k < all_paths(s[0]).len() && all_paths(s[0])[k] == x;
            assert(all_paths_list(s)[k] == x);
        }
    } else {
        lemma_subtree_paths_in_list(s.drop_first(), i - 1);
        assert(s.drop_first()[i - 1] == s[i]);
        assert forall|x: Seq<char>|
            all_paths(s[i]).contains(x) implies #[trigger] all_paths_list(s).contains(x) by {
            assert(all_paths_list(s.drop_first()).contains(x));
            let k = choose|k: int|
                0 <= k < all_paths_list(s.drop_first()).len() && all_paths_list(s.drop_first())[k]
                    == x;
            assert(all_paths_list(s)[all_paths(s[0]).len() + k] == x);
        }
    }
}

/// In a well-formed forest, two distinct siblings record distinct paths.
pub proof fn lemma_sibling_paths_distinct(s: Seq<NodeV>)
    requires
        wf_list(s),
    ensures
        forall|i: int, j: int|
            0 <= i < s.len() && 0 <= j < s.len() && i != j ==> node_path(s[i]) != node_path(s[j]),
    decreases s.len(),
{
    if s.len() > 0 {
        lemma_wf_list_parts(s);
        lemma_sibling_paths_distinct(s.drop_first());
        lemma_all_paths_head(s[0]);
        assert forall|i: int, j: int|
            0 <= i < s.len() && 0 <= j < s.len() && i != j implies node_path(s[i]) != node_path(
            s[j],
        ) by {
            if i == 0 || j == 0 {
                let k = if i == 0 {
                    j
                } else {
                    i
                };
                assert(k >= 1);
                lemma_all_paths_head(s[k]);
                assert(all_paths(s[0]).contains(node_path(s[0])));
                lemma_subtree_paths_in_list(s.drop_first(), k - 1);
                assert(s.drop_first()[k - 1] == s[k]);
                assert(all_paths(s[k]).contains(node_path(s[k])));
                assert(all_paths_list(s.drop_first()).contains(node_path(s[k])));
            } else {
                assert(s.drop_first()[i - 1] == s[i]);
                assert(s.drop_first()[j - 1] == s[j]);
            }
        }
    }
}

} // verus!
