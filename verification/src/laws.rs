//! The general guarantees of the listing engine, each stated over the
//! same spec functions that the executable functions' contracts use.

use crate::options::ListOptionView;
use crate::options::child_options;
use crate::options::spec_children;
use crate::options::spec_descend;
use crate::options::spec_entry;
use crate::options::spec_list;
use crate::options::spec_root_entry;
use crate::options::spec_would_show;
use crate::options::with_level;
use crate::options::with_suffix_added;
use crate::options::with_suffixes;
use crate::tree::FsNode;
use crate::tree::descendant_paths;
use crate::tree::node_path;
use crate::tree::paths_unique;
use crate::tree::paths_within;
use crate::tree::paths_within_children;
use crate::tree::seq_tree_contains;
use crate::tree::seq_tree_paths;
use crate::tree::tree_contains;
use crate::tree::tree_paths;
use vstd::prelude::*;

verus! {

/// A configuration that accepts neither hidden nor unhidden names
/// lists nothing, whatever the tree holds.
pub proof fn lemma_no_visibility_empty(o: ListOptionView, root: Option<FsNode>)
    requires
        !o.hidden,
        !o.unhidden,
    ensures
        spec_list(o, root) == Seq::<Seq<char>>::empty(),
{
    match root {
        None => {},
        Some(n) => {
            lemma_no_visibility_descend(o, n);
            assert(spec_list(o, root) =~= Seq::<Seq<char>>::empty());
        },
    }
}

proof fn lemma_no_visibility_descend(o: ListOptionView, n: FsNode)
    requires
        !o.hidden,
        !o.unhidden,
    ensures
        spec_descend(o, n) == Seq::<Seq<char>>::empty(),
    decreases n, 0int,
{
    match n {
        FsNode::File { .. } => {},
        FsNode::Dir { children, .. } => {
            lemma_no_visibility_children(o, children@, children@.len() as int);
        },
    }
}

proof fn lemma_no_visibility_children(o: ListOptionView, cs: Seq<FsNode>, i: int)
    requires
        !o.hidden,
        !o.unhidden,
        i <= cs.len(),
    ensures
        spec_children(o, cs, i) == Seq::<Seq<char>>::empty(),
    decreases cs, i,
{
    if 0 < i <= cs.len() {
        lemma_no_visibility_children(o, cs, i - 1);
        lemma_no_visibility_descend(child_options(o), cs[i - 1]);
        assert(spec_children(o, cs, i) =~= Seq::<Seq<char>>::empty());
    }
}

/// A configuration that accepts neither files nor directories lists
/// nothing, whatever the tree holds.
pub proof fn lemma_no_type_empty(o: ListOptionView, root: Option<FsNode>)
    requires
        !o.dir,
        !o.file,
    ensures
        spec_list(o, root) == Seq::<Seq<char>>::empty(),
{
    match root {
        None => {},
        Some(n) => {
            lemma_no_type_descend(o, n);
            assert(spec_list(o, root) =~= Seq::<Seq<char>>::empty());
        },
    }
}

proof fn lemma_no_type_descend(o: ListOptionView, n: FsNode)
    requires
        !o.dir,
        !o.file,
    ensures
        spec_descend(o, n) == Seq::<Seq<char>>::empty(),
    decreases n, 0int,
{
    match n {
        FsNode::File { .. } => {},
        FsNode::Dir { children, .. } => {
            lemma_no_type_children(o, children@, children@.len() as int);
        },
    }
}

proof fn lemma_no_type_children(o: ListOptionView, cs: Seq<FsNode>, i: int)
    requires
        !o.dir,
        !o.file,
        i <= cs.len(),
    ensures
        spec_children(o, cs, i) == Seq::<Seq<char>>::empty(),
    decreases cs, i,
{
    if 0 < i <= cs.len() {
        lemma_no_type_children(o, cs, i - 1);
        lemma_no_type_descend(child_options(o), cs[i - 1]);
        assert(spec_children(o, cs, i) =~= Seq::<Seq<char>>::empty());
    }
}

/// Listing is a pure function of the configuration and the snapshot:
/// two runs over the same values yield the same result.
pub proof fn lemma_list_idempotent(
    o: ListOptionView,
    root: Option<FsNode>,
    r1: Seq<Seq<char>>,
    r2: Seq<Seq<char>>,
)
    requires
        r1 == spec_list(o, root),
        r2 == spec_list(o, root),
    ensures
        r1 == r2,
{
}

/// An absent root is not an error: the listing is simply empty,
/// whatever the configuration asks for.
pub proof fn lemma_absent_root_empty(o: ListOptionView)
    ensures
        spec_list(o, Option::<FsNode>::None) == Seq::<Seq<char>>::empty(),
{
}

/// With recursion off and no descent left, at most the root's own
/// entry is listed: the root is still judged by the type, visibility
/// and suffix filters, and no child is visited.
pub proof fn lemma_depth_zero_root_only(o: ListOptionView, n: FsNode)
    requires
        !o.recursive,
        o.level == 0,
    ensures
        spec_list(o, Some(n)) == spec_root_entry(o, n),
{
    assert(spec_list(o, Some(n)) =~= spec_root_entry(o, n));
}

proof fn lemma_self_within(n: FsNode, d: nat)
    ensures
        paths_within(n, d).contains(node_path(n)),
{
    match n {
        FsNode::File { .. } => {},
        FsNode::Dir { .. } => {},
    }
}

/// With recursion off, every listed path belongs to a node at most
/// `o.level` levels below the root.
pub proof fn lemma_depth_bound(o: ListOptionView, n: FsNode, j: int)
    requires
        !o.recursive,
        0 <= j < spec_list(o, Some(n)).len(),
    ensures
        paths_within(n, o.level).contains(spec_list(o, Some(n))[j]),
{
    let entry = spec_root_entry(o, n);
    if j < entry.len() {
        lemma_self_within(n, o.level);
        assert(spec_list(o, Some(n))[j] == node_path(n));
    } else {
        lemma_descend_within(o, n, j - entry.len());
        assert(spec_list(o, Some(n))[j] == spec_descend(o, n)[j - entry.len()]);
    }
}

proof fn lemma_descend_within(o: ListOptionView, n: FsNode, j: int)
    requires
        !o.recursive,
        0 <= j < spec_descend(o, n).len(),
    ensures
        o.level > 0,
        paths_within(n, o.level).contains(spec_descend(o, n)[j]),
    decreases n, 0int,
{
    match n {
        FsNode::File { .. } => {},
        FsNode::Dir { children, .. } => {
            lemma_children_within(o, children@, children@.len() as int, j);
        },
    }
}

proof fn lemma_children_within(o: ListOptionView, cs: Seq<FsNode>, i: int, j: int)
    requires
        !o.recursive,
        o.level > 0,
        i <= cs.len(),
        0 <= j < spec_children(o, cs, i).len(),
    ensures
        paths_within_children(cs, i, (o.level - 1) as nat).contains(spec_children(o, cs, i)[j]),
    decreases cs, i,
{
    let prefix = spec_children(o, cs, i - 1);
    let entry = spec_entry(o, cs[i - 1]);
    let sub = spec_descend(child_options(o), cs[i - 1]);
    if j < prefix.len() {
        lemma_children_within(o, cs, i - 1, j);
        assert(spec_children(o, cs, i)[j] == prefix[j]);
    } else if j < prefix.len() + entry.len() {
        lemma_self_within(cs[i - 1], (o.level - 1) as nat);
        assert(spec_children(o, cs, i)[j] == node_path(cs[i - 1]));
    } else {
        lemma_descend_within(child_options(o), cs[i - 1], j - prefix.len() - entry.len());
        assert(spec_children(o, cs, i)[j] == sub[j - prefix.len() - entry.len()]);
    }
}

/// With recursion on, the numeric level is irrelevant: any level gives
/// the same listing.
pub proof fn lemma_recursive_ignores_level(o: ListOptionView, k: nat, root: Option<FsNode>)
    requires
        o.recursive,
    ensures
        spec_list(o, root) == spec_list(with_level(o, k), root),
{
    match root {
        None => {},
        Some(n) => {
            lemma_rec_level_descend(o, k, n);
            assert(spec_root_entry(o, n) == spec_root_entry(with_level(o, k), n));
        },
    }
}

proof fn lemma_rec_level_descend(o: ListOptionView, k: nat, n: FsNode)
    requires
        o.recursive,
    ensures
        spec_descend(o, n) == spec_descend(with_level(o, k), n),
    decreases n, 0int,
{
    match n {
        FsNode::File { .. } => {},
        FsNode::Dir { children, .. } => {
            lemma_rec_level_children(o, k, children@, children@.len() as int);
        },
    }
}

proof fn lemma_rec_level_children(o: ListOptionView, k: nat, cs: Seq<FsNode>, i: int)
    requires
        o.recursive,
    ensures
        spec_children(o, cs, i) == spec_children(with_level(o, k), cs, i),
    decreases cs, i,
{
    if 0 < i <= cs.len() {
        lemma_rec_level_children(o, k, cs, i - 1);
        lemma_rec_level_descend(o, k, cs[i - 1]);
        assert(spec_entry(o, cs[i - 1]) == spec_entry(with_level(o, k), cs[i - 1]));
        assert(child_options(o) == o);
        assert(child_options(with_level(o, k)) == with_level(o, k));
    }
}

/// With recursion on, every node of the tree that the match predicate
/// accepts shows up in the listing, at whatever depth it sits.
pub proof fn lemma_recursive_complete(o: ListOptionView, n: FsNode, m: FsNode)
    requires
        o.recursive,
        tree_contains(n, m),
        spec_would_show(o, m),
    ensures
        spec_list(o, Some(n)).contains(node_path(m)),
{
    if n == m {
        assert(spec_list(o, Some(n))[0] == node_path(m));
    } else {
        lemma_rec_complete_descend(o, n, m);
        let d = spec_descend(o, n);
        let t = choose|t: int| 0 <= t < d.len() && d[t] == node_path(m);
        assert(spec_list(o, Some(n))[spec_root_entry(o, n).len() + t] == node_path(m));
    }
}

proof fn lemma_rec_complete_descend(o: ListOptionView, n: FsNode, m: FsNode)
    requires
        o.recursive,
        tree_contains(n, m),
        n != m,
        spec_would_show(o, m),
    ensures
        spec_descend(o, n).contains(node_path(m)),
    decreases n, 0int,
{
    match n {
        FsNode::File { .. } => {},
        FsNode::Dir { children, .. } => {
            lemma_rec_complete_children(o, children@, children@.len() as int, m);
        },
    }
}

proof fn lemma_rec_complete_children(o: ListOptionView, cs: Seq<FsNode>, i: int, m: FsNode)
    requires
        o.recursive,
        seq_tree_contains(cs, i, m),
        spec_would_show(o, m),
    ensures
        spec_children(o, cs, i).contains(node_path(m)),
    decreases cs, i,
{
    let prefix = spec_children(o, cs, i - 1);
    let entry = spec_entry(o, cs[i - 1]);
    let sub = spec_descend(child_options(o), cs[i - 1]);
    assert(child_options(o) == o);
    if tree_contains(cs[i - 1], m) {
        if cs[i - 1] == m {
            assert(spec_children(o, cs, i)[prefix.len() as int] == node_path(m));
        } else {
            lemma_rec_complete_descend(o, cs[i - 1], m);
            let t = choose|t: int| 0 <= t < sub.len() && sub[t] == node_path(m);
            assert(spec_children(o, cs, i)[prefix.len() + entry.len() + t] == node_path(m));
        }
    } else {
        lemma_rec_complete_children(o, cs, i - 1, m);
        let t = choose|t: int| 0 <= t < prefix.len() && prefix[t] == node_path(m);
        assert(spec_children(o, cs, i)[t] == node_path(m));
    }
}

/// Splitting a duplicate-free concatenation: each part is
/// duplicate-free, and the parts share no element.
proof fn lemma_no_dup_split(a: Seq<Seq<char>>, b: Seq<Seq<char>>)
    requires
        (a + b).no_duplicates(),
    ensures
        a.no_duplicates(),
        b.no_duplicates(),
        a.disjoint(b),
{
    assert forall|i: int, j: int|
        0 <= i < a.len() && 0 <= j < a.len() && i != j implies a[i] != a[j] by {
        assert((a + b)[i] == a[i]);
        assert((a + b)[j] == a[j]);
    }
    assert forall|i: int, j: int|
        0 <= i < b.len() && 0 <= j < b.len() && i != j implies b[i] != b[j] by {
        assert((a + b)[a.len() + i] == b[i]);
        assert((a + b)[a.len() + j] == b[j]);
    }
    assert forall|i: int, j: int| 0 <= i < a.len() && 0 <= j < b.len() implies a[i] != b[j] by {
        assert((a + b)[i] == a[i]);
        assert((a + b)[a.len() + j] == b[j]);
    }
}

/// Two sequences drawn from disjoint pools are disjoint themselves.
proof fn lemma_disjoint_via(
    a: Seq<Seq<char>>,
    b: Seq<Seq<char>>,
    ta: Seq<Seq<char>>,
    tb: Seq<Seq<char>>,
)
    requires
        forall|j: int| 0 <= j < a.len() ==> ta.contains(#[trigger] a[j]),
        forall|j: int| 0 <= j < b.len() ==> tb.contains(#[trigger] b[j]),
        ta.disjoint(tb),
    ensures
        a.disjoint(b),
{
    assert forall|i: int, j: int| 0 <= i < a.len() && 0 <= j < b.len() implies a[i] != b[j] by {
        let p = choose|p: int| 0 <= p < ta.len() && ta[p] == a[i];
        let q = choose|q: int| 0 <= q < tb.len() && tb[q] == b[j];
        assert(ta[p] != tb[q]);
    }
}

/// Membership carries from a part into the concatenation.
proof fn lemma_elems_in_concat(
    s: Seq<Seq<char>>,
    ta: Seq<Seq<char>>,
    tb: Seq<Seq<char>>,
    left: bool,
)
    requires
        left ==> forall|j: int| 0 <= j < s.len() ==> ta.contains(#[trigger] s[j]),
        !left ==> forall|j: int| 0 <= j < s.len() ==> tb.contains(#[trigger] s[j]),
    ensures
        forall|j: int| 0 <= j < s.len() ==> (ta + tb).contains(#[trigger] s[j]),
{
    assert forall|j: int| 0 <= j < s.len() implies (ta + tb).contains(s[j]) by {
        if left {
            let p = choose|p: int| 0 <= p < ta.len() && ta[p] == s[j];
            assert((ta + tb)[p] == s[j]);
        } else {
            let p = choose|p: int| 0 <= p < tb.len() && tb[p] == s[j];
            assert((ta + tb)[ta.len() + p] == s[j]);
        }
    }
}

/// Everything a walk reports below a duplicate-free snapshot is
/// duplicate-free, and each entry is one of the strict descendants'
/// paths.
proof fn lemma_descend_no_dup(o: ListOptionView, n: FsNode)
    requires
        tree_paths(n).no_duplicates(),
    ensures
        spec_descend(o, n).no_duplicates(),
        forall|j: int|
            0 <= j < spec_descend(o, n).len() ==> descendant_paths(n).contains(
                #[trigger] spec_descend(o, n)[j],
            ),
    decreases n, 0int,
{
    match n {
        FsNode::File { .. } => {},
        FsNode::Dir { children, .. } => {
            if !(!o.recursive && o.level == 0) {
                let cs = children@;
                lemma_no_dup_split(seq![node_path(n)], seq_tree_paths(cs, cs.len() as int));
                lemma_children_no_dup(o, cs, cs.len() as int);
            }
        },
    }
}

/// The same, child list by child list.
proof fn lemma_children_no_dup(o: ListOptionView, cs: Seq<FsNode>, i: int)
    requires
        i <= cs.len(),
        seq_tree_paths(cs, i).no_duplicates(),
    ensures
        spec_children(o, cs, i).no_duplicates(),
        forall|j: int|
            0 <= j < spec_children(o, cs, i).len() ==> seq_tree_paths(cs, i).contains(
                #[trigger] spec_children(o, cs, i)[j],
            ),
    decreases cs, i,
{
    if 0 < i <= cs.len() {
        let c = cs[i - 1];
        let prefix = spec_children(o, cs, i - 1);
        let entry = spec_entry(o, c);
        let sub = spec_descend(child_options(o), c);
        let whole = spec_children(o, cs, i);
        let prev = seq_tree_paths(cs, i - 1);
        let tp = tree_paths(c);
        let dp = descendant_paths(c);
        assert(seq_tree_paths(cs, i) == prev + tp);
        assert(whole == prefix + entry + sub);
        assert(tp =~= seq![node_path(c)] + dp);
        lemma_no_dup_split(prev, tp);
        lemma_no_dup_split(seq![node_path(c)], dp);
        lemma_children_no_dup(o, cs, i - 1);
        lemma_descend_no_dup(child_options(o), c);

        // Each part's entries sit in the combined pool `prev + tp`.
        assert forall|j: int| 0 <= j < entry.len() implies tp.contains(#[trigger] entry[j]) by {
            assert(entry[j] == node_path(c));
            assert(tp[0] == node_path(c));
        }
        lemma_elems_in_concat(sub, seq![node_path(c)], dp, false);
        lemma_elems_in_concat(prefix, prev, tp, true);
        lemma_elems_in_concat(entry, prev, tp, false);
        lemma_elems_in_concat(sub, prev, tp, false);
        assert forall|j: int|
            0 <= j < whole.len() implies seq_tree_paths(cs, i).contains(whole[j]) by {
            if j < prefix.len() {
                assert(whole[j] == prefix[j]);
            } else if j < prefix.len() + entry.len() {
                assert(whole[j] == entry[j - prefix.len()]);
            } else {
                assert(whole[j] == sub[j - prefix.len() - entry.len()]);
            }
        }

        // The three parts are pairwise disjoint, so the whole is
        // duplicate-free.
        lemma_disjoint_via(prefix, entry, prev, tp);
        lemma_disjoint_via(prefix, sub, prev, tp);
        lemma_disjoint_via(entry, sub, seq![node_path(c)], dp);
        vstd::seq_lib::lemma_no_dup_in_concat(prefix, entry);
        assert forall|p: int, q: int|
            0 <= p < (prefix + entry).len() && 0 <= q < sub.len() implies (prefix + entry)[p]
            != sub[q] by {
            if p < prefix.len() {
                assert((prefix + entry)[p] == prefix[p]);
            } else {
                assert((prefix + entry)[p] == entry[p - prefix.len()]);
            }
        }
        vstd::seq_lib::lemma_no_dup_in_concat(prefix + entry, sub);
        assert(whole == (prefix + entry) + sub);
    }
}

/// Over a snapshot whose nodes carry pairwise distinct path strings,
/// a listing never repeats an entry: each node is listed at most once.
pub proof fn lemma_list_no_duplicates(o: ListOptionView, n: FsNode)
    requires
        paths_unique(n),
    ensures
        spec_list(o, Some(n)).no_duplicates(),
{
    let entry = spec_root_entry(o, n);
    let d = spec_descend(o, n);
    assert(tree_paths(n) =~= seq![node_path(n)] + descendant_paths(n));
    lemma_no_dup_split(seq![node_path(n)], descendant_paths(n));
    lemma_descend_no_dup(o, n);
    assert forall|j: int|
        0 <= j < entry.len() implies seq![node_path(n)].contains(#[trigger] entry[j]) by {
        assert(seq![node_path(n)][0] == node_path(n));
    }
    lemma_disjoint_via(entry, d, seq![node_path(n)], descendant_paths(n));
    vstd::seq_lib::lemma_no_dup_in_concat(entry, d);
    assert(spec_list(o, Some(n)) == entry + d);
}

/// Replacing the suffix list twice keeps only the second replacement:
/// the earlier entries are shadowed.
pub proof fn lemma_sufs_shadow(v: ListOptionView, a: Seq<Seq<char>>, b: Seq<Seq<char>>)
    ensures
        with_suffixes(with_suffixes(v, a), b) == with_suffixes(v, b),
{
    assert(with_suffixes(with_suffixes(v, a), b) =~= with_suffixes(v, b));
}

/// Appending a suffix twice accumulates: both entries stay, in order.
pub proof fn lemma_suf_accumulates(v: ListOptionView, a: Seq<char>, b: Seq<char>)
    ensures
        with_suffix_added(with_suffix_added(v, a), b) == with_suffixes(v, v.sufs.push(a).push(b)),
{
    assert(with_suffix_added(with_suffix_added(v, a), b) =~= with_suffixes(
        v,
        v.sufs.push(a).push(b),
    ));
}

} // verus!
