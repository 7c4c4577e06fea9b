use vstd::prelude::*;

verus! {

/// A snapshot of one filesystem node.
///
/// `path` is the full path string that a listing reports for the node
/// (and the string that suffix filters are matched against); `name` is
/// the final path component, which decides whether the node counts as
/// hidden.  A directory carries the snapshots of its direct children in
/// enumeration order; a plain file has none.
pub enum FsNode {
    File { path: String, name: String },
    Dir { path: String, name: String, children: Vec<FsNode> },
}

/// The full path string of a node.
pub open spec fn node_path(n: FsNode) -> Seq<char> {
    match n {
        FsNode::File { path, .. } => path@,
        FsNode::Dir { path, .. } => path@,
    }
}

/// The final path component of a node.
pub open spec fn node_name(n: FsNode) -> Seq<char> {
    match n {
        FsNode::File { name, .. } => name@,
        FsNode::Dir { name, .. } => name@,
    }
}

/// The set of path strings of the nodes at most `d` levels below `n`,
/// the node itself counting as level zero.
pub open spec fn paths_within(n: FsNode, d: nat) -> Set<Seq<char>>
    decreases n, 0int,
{
    match n {
        FsNode::File { .. } => set![node_path(n)],
        FsNode::Dir { children, .. } => {
            if d > 0 {
                set![node_path(n)].union(
                    paths_within_children(children@, children@.len() as int, (d - 1) as nat),
                )
            } else {
                set![node_path(n)]
            }
        },
    }
}

/// The union of [`paths_within`] over the first `i` entries of `cs`.
pub open spec fn paths_within_children(cs: Seq<FsNode>, i: int, d: nat) -> Set<Seq<char>>
    decreases cs, i,
{
    if i <= 0 || cs.len() < i {
        Set::empty()
    } else {
        paths_within_children(cs, i - 1, d).union(paths_within(cs[i - 1], d))
    }
}

/// All path strings of a snapshot: the node's own first, then each
/// subtree's paths, in enumeration order.
pub open spec fn tree_paths(n: FsNode) -> Seq<Seq<char>>
    decreases n, 0int,
{
    match n {
        FsNode::File { .. } => seq![node_path(n)],
        FsNode::Dir { children, .. } => seq![node_path(n)] + seq_tree_paths(
            children@,
            children@.len() as int,
        ),
    }
}

/// The concatenation of [`tree_paths`] over the first `i` entries of
/// `cs`.
pub open spec fn seq_tree_paths(cs: Seq<FsNode>, i: int) -> Seq<Seq<char>>
    decreases cs, i,
{
    if i <= 0 || cs.len() < i {
        Seq::empty()
    } else {
        seq_tree_paths(cs, i - 1) + tree_paths(cs[i - 1])
    }
}

/// The path strings of the nodes strictly below `n`.
pub open spec fn descendant_paths(n: FsNode) -> Seq<Seq<char>> {
    match n {
        FsNode::File { .. } => Seq::empty(),
        FsNode::Dir { children, .. } => seq_tree_paths(children@, children@.len() as int),
    }
}

/// A well-formed snapshot: no two nodes share a path string.  Every
/// snapshot read from a real filesystem has this shape, since each
/// node's path spells its position in the tree.
pub open spec fn paths_unique(n: FsNode) -> bool {
    tree_paths(n).no_duplicates()
}

/// `m` is a node of the tree rooted at `n`, the root itself included.
pub open spec fn tree_contains(n: FsNode, m: FsNode) -> bool
    decreases n, 0int,
{
    n == m || match n {
        FsNode::File { .. } => false,
        FsNode::Dir { children, .. } => seq_tree_contains(children@, children@.len() as int, m),
    }
}

/// `m` is a node of one of the first `i` trees of `cs`.
pub open spec fn seq_tree_contains(cs: Seq<FsNode>, i: int, m: FsNode) -> bool
    decreases cs, i,
{
    i > 0 && cs.len() >= i && (tree_contains(cs[i - 1], m) || seq_tree_contains(cs, i - 1, m))
}

impl FsNode {
    /// The full path string of this node.
    pub fn path_str(&self) -> (r: &String)
        ensures
            r@ == node_path(*self),
    {
        match self {
            FsNode::File { path, .. } => path,
            FsNode::Dir { path, .. } => path,
        }
    }

    /// The final path component of this node.
    pub fn name_str(&self) -> (r: &String)
        ensures
            r@ == node_name(*self),
    {
        match self {
            FsNode::File { name, .. } => name,
            FsNode::Dir { name, .. } => name,
        }
    }
}

} // verus!
