use crate::tree::FsNode;
use crate::tree::node_name;
use crate::tree::node_path;
use vstd::prelude::*;
use vstd::string::StrSliceExecFns;
use vstd::string::StringExecFns;

verus! {

/// What a [`ListOption`] holds, as mathematical values.
#[verifier::ext_equal]
pub ghost struct ListOptionView {
    /// Directories pass the type filter.
    pub dir: bool,
    /// Files pass the type filter.
    pub file: bool,
    /// Names starting with `.` pass the visibility filter.
    pub hidden: bool,
    /// Names not starting with `.` pass the visibility filter.
    pub unhidden: bool,
    /// Descend without bound, ignoring `level`.
    pub recursive: bool,
    /// Remaining levels of descent when not recursive.
    pub level: nat,
    /// If non-empty, only paths ending in one of these pass.
    pub sufs: Seq<Seq<char>>,
}

/// The configuration of a listing: which kinds of nodes to show, how
/// deep to descend, and which suffixes to keep.
///
/// A `ListOption` is a plain value: every setter consumes it and hands
/// back the updated configuration, so a kept copy is never changed
/// behind the caller's back.
#[derive(Clone, Debug)]
pub struct ListOption {
    dir: bool,
    file: bool,
    hidden: bool,
    unhidden: bool,
    recursive: bool,
    level: usize,
    sufs: Vec<String>,
}

impl View for ListOption {
    type V = ListOptionView;

    closed spec fn view(&self) -> ListOptionView {
        ListOptionView {
            dir: self.dir,
            file: self.file,
            hidden: self.hidden,
            unhidden: self.unhidden,
            recursive: self.recursive,
            level: self.level as nat,
            sufs: self.sufs.deep_view(),
        }
    }
}

/// The documented defaults: show directories and files, only unhidden
/// names, one level of descent, no suffix restriction.
pub open spec fn spec_default_options() -> ListOptionView {
    ListOptionView {
        dir: true,
        file: true,
        hidden: false,
        unhidden: true,
        recursive: false,
        level: 1,
        sufs: Seq::empty(),
    }
}

/// `.` followed by the given text, the conventional shape of an
/// extension suffix.
pub open spec fn dotted(s: Seq<char>) -> Seq<char> {
    seq!['.'] + s
}

/// Every entry of `ss`, each with a leading `.`.
pub open spec fn dotted_all(ss: Seq<Seq<char>>) -> Seq<Seq<char>> {
    ss.map_values(|s: Seq<char>| dotted(s))
}

/// `v` with one more suffix appended.
pub open spec fn with_suffix_added(v: ListOptionView, s: Seq<char>) -> ListOptionView {
    ListOptionView { sufs: v.sufs.push(s), ..v }
}

/// `v` with its suffix list replaced outright.
pub open spec fn with_suffixes(v: ListOptionView, ss: Seq<Seq<char>>) -> ListOptionView {
    ListOptionView { sufs: ss, ..v }
}

impl Default for ListOption {
    fn default() -> (r: Self)
        ensures
            r@ == spec_default_options(),
    {
        let r = ListOption {
            dir: true,
            file: true,
            hidden: false,
            unhidden: true,
            recursive: false,
            level: 1,
            sufs: Vec::new(),
        };
        proof {
            assert(r@ =~= spec_default_options());
        }
        r
    }
}

impl ListOption {
    /// A configuration with the documented defaults.
    pub fn new() -> (r: Self)
        ensures
            r@ == spec_default_options(),
    {
        Self::default()
    }

    /// Choose whether directories pass the type filter.
    pub fn dir(self, if_show: bool) -> (r: Self)
        ensures
            r@ == (ListOptionView { dir: if_show, ..self@ }),
    {
        ListOption { dir: if_show, ..self }
    }

    /// Choose whether files pass the type filter.
    pub fn file(self, if_show: bool) -> (r: Self)
        ensures
            r@ == (ListOptionView { file: if_show, ..self@ }),
    {
        ListOption { file: if_show, ..self }
    }

    /// Choose whether names starting with `.` pass the visibility filter.
    pub fn hidden(self, if_show: bool) -> (r: Self)
        ensures
            r@ == (ListOptionView { hidden: if_show, ..self@ }),
    {
        ListOption { hidden: if_show, ..self }
    }

    /// Choose whether names not starting with `.` pass the visibility
    /// filter.
    pub fn unhidden(self, if_show: bool) -> (r: Self)
        ensures
            r@ == (ListOptionView { unhidden: if_show, ..self@ }),
    {
        ListOption { unhidden: if_show, ..self }
    }

    /// Set how many levels below the root a non-recursive listing may
    /// descend.
    pub fn level(self, level: usize) -> (r: Self)
        ensures
            r@ == (ListOptionView { level: level as nat, ..self@ }),
    {
        ListOption { level, ..self }
    }

    /// Choose whether to descend without bound, ignoring the level.
    pub fn recursive(self, if_choose: bool) -> (r: Self)
        ensures
            r@ == (ListOptionView { recursive: if_choose, ..self@ }),
    {
        ListOption { recursive: if_choose, ..self }
    }

    /// Show directories only.
    pub fn only_dir(self) -> (r: Self)
        ensures
            r@ == (ListOptionView { file: false, dir: true, ..self@ }),
    {
        ListOption { file: false, dir: true, ..self }
    }

    /// Show files only.
    pub fn only_file(self) -> (r: Self)
        ensures
            r@ == (ListOptionView { file: true, dir: false, ..self@ }),
    {
        ListOption { file: true, dir: false, ..self }
    }

    /// Show hidden names only.
    pub fn only_hidden(self) -> (r: Self)
        ensures
            r@ == (ListOptionView { hidden: true, unhidden: false, ..self@ }),
    {
        ListOption { hidden: true, unhidden: false, ..self }
    }

    /// Show unhidden names only.
    pub fn only_unhidden(self) -> (r: Self)
        ensures
            r@ == (ListOptionView { hidden: false, unhidden: true, ..self@ }),
    {
        ListOption { hidden: false, unhidden: true, ..self }
    }

    /// Append one extension to the suffix list; a leading `.` is added,
    /// so `ext("rs")` keeps paths ending in `.rs`.
    pub fn ext(self, ext: &str) -> (r: Self)
        ensures
            r@ == with_suffix_added(self@, dotted(ext@)),
    {
        let mut r = self;
        let e = dot_prefixed(ext);
        let ghost v0 = r@;
        r.sufs.push(e);
        proof {
            assert(r@.sufs =~= v0.sufs.push(dotted(ext@)));
            assert(r@ =~= with_suffix_added(v0, dotted(ext@)));
        }
        r
    }

    /// Replace the suffix list with the given extensions, each with a
    /// leading `.` added.  Anything appended before is discarded.
    pub fn exts(self, exts: Vec<&str>) -> (r: Self)
        ensures
            r@ == with_suffixes(self@, dotted_all(exts.deep_view())),
    {
        let mut r = self;
        let ghost v0 = r@;
        let mut v: Vec<String> = Vec::new();
        let mut i: usize = 0;
        while i < exts.len()
            invariant
                i <= exts.len(),
                v.deep_view() == dotted_all(exts.deep_view().take(i as int)),
            decreases exts.len() - i,
        {
            let e = dot_prefixed(exts[i]);
            v.push(e);
            proof {
                assert(v.deep_view() =~= dotted_all(exts.deep_view().take(i as int)).push(
                    dotted(exts.deep_view()[i as int]),
                ));
                assert(dotted_all(exts.deep_view().take(i + 1)) =~= dotted_all(
                    exts.deep_view().take(i as int),
                ).push(dotted(exts.deep_view()[i as int])));
            }
            i += 1;
        }
        r.sufs = v;
        proof {
            assert(exts.deep_view().take(exts.len() as int) =~= exts.deep_view());
            assert(r@ =~= with_suffixes(v0, dotted_all(exts.deep_view())));
        }
        r
    }

    /// Append one literal suffix, taken as given: no `.` is inserted.
    pub fn suf(self, suf: &str) -> (r: Self)
        ensures
            r@ == with_suffix_added(self@, suf@),
    {
        let mut r = self;
        let s = String::from_str(suf);
        let ghost v0 = r@;
        r.sufs.push(s);
        proof {
            assert(r@.sufs =~= v0.sufs.push(suf@));
            assert(r@ =~= with_suffix_added(v0, suf@));
        }
        r
    }

    /// Replace the suffix list with the given literal entries.  Anything
    /// appended before is discarded.
    pub fn sufs(self, sufs: Vec<&str>) -> (r: Self)
        ensures
            r@ == with_suffixes(self@, sufs.deep_view()),
    {
        let mut r = self;
        let ghost v0 = r@;
        let mut v: Vec<String> = Vec::new();
        let mut i: usize = 0;
        while i < sufs.len()
            invariant
                i <= sufs.len(),
                v.deep_view() == sufs.deep_view().take(i as int),
            decreases sufs.len() - i,
        {
            let s = String::from_str(sufs[i]);
            v.push(s);
            proof {
                assert(v.deep_view() =~= sufs.deep_view().take(i as int).push(
                    sufs.deep_view()[i as int],
                ));
                assert(sufs.deep_view().take(i + 1) =~= sufs.deep_view().take(i as int).push(
                    sufs.deep_view()[i as int],
                ));
            }
            i += 1;
        }
        r.sufs = v;
        proof {
            assert(sufs.deep_view().take(sufs.len() as int) =~= sufs.deep_view());
            assert(r@ =~= with_suffixes(v0, sufs.deep_view()));
        }
        r
    }
}

/// `s` ends with `suffix`.
pub open spec fn spec_ends_with(s: Seq<char>, suffix: Seq<char>) -> bool {
    suffix.len() <= s.len() && s.subrange(s.len() - suffix.len(), s.len() as int) == suffix
}

/// A name counts as hidden when it starts with `.`.
pub open spec fn starts_hidden(name: Seq<char>) -> bool {
    name.len() > 0 && name[0] == '.'
}

/// The visibility filter: hidden names pass when `hidden` is set,
/// unhidden names pass when `unhidden` is set.  The two switches are
/// independent: with both unset nothing passes, with both set
/// everything does.
pub open spec fn check_hidden(o: ListOptionView, name: Seq<char>) -> bool {
    (o.hidden && starts_hidden(name)) || (o.unhidden && !starts_hidden(name))
}

/// The type filter: a file passes when `file` is set, a directory when
/// `dir` is.
pub open spec fn check_type(o: ListOptionView, n: FsNode) -> bool {
    match n {
        FsNode::File { .. } => o.file,
        FsNode::Dir { .. } => o.dir,
    }
}

/// The depth-eligibility filter, judged with the level remaining at the
/// node's own position: a recursive walk is always eligible, otherwise
/// some descent must be left.
pub open spec fn check_level(o: ListOptionView) -> bool {
    o.recursive || o.level > 0
}

/// The suffix filter: an empty list restricts nothing, otherwise the
/// full path string must end with one of the entries.
pub open spec fn check_suffix(o: ListOptionView, path: Seq<char>) -> bool {
    o.sufs.len() == 0 || exists|k: int| 0 <= k < o.sufs.len() && spec_ends_with(path, o.sufs[k])
}

/// The match predicate: a node is listed exactly when all four filters
/// pass.
pub open spec fn spec_would_show(o: ListOptionView, n: FsNode) -> bool {
    check_hidden(o, node_name(n)) && check_type(o, n) && check_level(o) && check_suffix(
        o,
        node_path(n),
    )
}

/// The three filters that do not look at the level.  The root of a
/// listing is always depth-eligible, so this is all that is asked of
/// it; depth-eligibility governs the nodes below.
pub open spec fn spec_root_shows(o: ListOptionView, n: FsNode) -> bool {
    check_hidden(o, node_name(n)) && check_type(o, n) && check_suffix(o, node_path(n))
}

/// `o` with its level replaced.
pub open spec fn with_level(o: ListOptionView, level: nat) -> ListOptionView {
    ListOptionView { level, ..o }
}

/// The configuration a directory's children are walked with: one level
/// of descent fewer, unless the walk is recursive, which ignores the
/// level altogether.  The level never goes below zero.
pub open spec fn child_options(o: ListOptionView) -> ListOptionView {
    if o.recursive {
        o
    } else if o.level == 0 {
        with_level(o, 0)
    } else {
        with_level(o, (o.level - 1) as nat)
    }
}

/// The node's own listing entry: its path if the predicate passes,
/// nothing otherwise.
pub open spec fn spec_entry(o: ListOptionView, n: FsNode) -> Seq<Seq<char>> {
    if spec_would_show(o, n) {
        seq![node_path(n)]
    } else {
        Seq::empty()
    }
}

/// The root's own listing entry: the root is always depth-eligible, so
/// only the type, visibility and suffix filters decide.
pub open spec fn spec_root_entry(o: ListOptionView, n: FsNode) -> Seq<Seq<char>> {
    if spec_root_shows(o, n) {
        seq![node_path(n)]
    } else {
        Seq::empty()
    }
}

/// Everything a walk configured by `o` reports strictly below `n`:
/// nothing for a file, nothing once a non-recursive walk has no descent
/// left, and otherwise each child's own entry followed by that child's
/// subtree, in enumeration order.
pub open spec fn spec_descend(o: ListOptionView, n: FsNode) -> Seq<Seq<char>>
    decreases n, 0int,
{
    match n {
        FsNode::File { .. } => Seq::empty(),
        FsNode::Dir { children, .. } => {
            if !o.recursive && o.level == 0 {
                Seq::empty()
            } else {
                spec_children(o, children@, children@.len() as int)
            }
        },
    }
}

/// What the first `i` children contribute: each child is judged with
/// the parent's configuration `o`, then walked with `child_options(o)`.
pub open spec fn spec_children(o: ListOptionView, cs: Seq<FsNode>, i: int) -> Seq<Seq<char>>
    decreases cs, i,
{
    if i <= 0 || cs.len() < i {
        Seq::empty()
    } else {
        spec_children(o, cs, i - 1) + spec_entry(o, cs[i - 1]) + spec_descend(
            child_options(o),
            cs[i - 1],
        )
    }
}

/// The whole listing for a root: nothing for an absent root, otherwise
/// the root's own entry followed by its descendants.
pub open spec fn spec_list(o: ListOptionView, root: Option<FsNode>) -> Seq<Seq<char>> {
    match root {
        None => Seq::empty(),
        Some(n) => spec_root_entry(o, n) + spec_descend(o, n),
    }
}

/// The snapshot a borrowed root stands for.
pub open spec fn root_value(root: Option<&FsNode>) -> Option<FsNode> {
    match root {
        None => None,
        Some(n) => Some(*n),
    }
}

impl ListOption {
    /// Whether this configuration would list the given node when the
    /// walk reaches it: all four filters, depth-eligibility included.
    /// A listing's root is exempt from the depth-eligibility part; see
    /// [`Self::list`].
    pub fn would_show(&self, n: &FsNode) -> (r: bool)
        ensures
            r == spec_would_show(self@, *n),
    {
        proof {
            assert(with_level(self@, self@.level) =~= self@);
        }
        self.show_at(self.level, n)
    }

    /// The match predicate with the remaining level passed alongside,
    /// so that a deeper walk can judge nodes without copying the
    /// configuration.
    fn show_at(&self, level: usize, n: &FsNode) -> (r: bool)
        ensures
            r == spec_would_show(with_level(self@, level as nat), *n),
    {
        let filters = self.filter_match(n);
        let level_ok = self.recursive || level > 0;
        filters && level_ok
    }

    /// The three level-free filters together: what is asked of a root.
    fn filter_match(&self, n: &FsNode) -> (r: bool)
        ensures
            r == spec_root_shows(self@, *n),
    {
        let starts = starts_with_dot(n.name_str().as_str());
        let hidden_ok = (self.hidden && starts) || (self.unhidden && !starts);
        let type_ok = match n {
            FsNode::File { .. } => self.file,
            FsNode::Dir { .. } => self.dir,
        };
        let suffix_ok = self.suffix_ok(n.path_str().as_str());
        hidden_ok && type_ok && suffix_ok
    }

    /// The suffix filter alone, against a full path string.
    fn suffix_ok(&self, path: &str) -> (r: bool)
        ensures
            r == check_suffix(self@, path@),
    {
        if self.sufs.len() == 0 {
            return true;
        }
        let mut i: usize = 0;
        while i < self.sufs.len()
            invariant
                i <= self.sufs.len(),
                forall|k: int| 0 <= k < i ==> !spec_ends_with(path@, self@.sufs[k]),
            decreases self.sufs.len() - i,
        {
            proof {
                assert(self@.sufs[i as int] == self.sufs@[i as int]@);
            }
            if str_ends_with(path, self.sufs[i].as_str()) {
                return true;
            }
            i += 1;
        }
        false
    }

    /// List the snapshot under `root`: the root's own entry if it
    /// matches, then every matching descendant the configuration
    /// reaches, depth first and in enumeration order.  The root is
    /// always depth-eligible — only the type, visibility and suffix
    /// filters are asked of it — while every node below it is subject
    /// to the full predicate, depth-eligibility included.  An absent
    /// root yields an empty listing.  The result is exactly
    /// `spec_list(self@, root_value(root))`.
    pub fn list(&self, root: Option<&FsNode>) -> (r: Vec<String>)
        ensures
            r.deep_view() == spec_list(self@, root_value(root)),
    {
        let mut out: Vec<String> = Vec::new();
        proof {
            assert(out.deep_view() =~= Seq::<Seq<char>>::empty());
        }
        match root {
            None => {},
            Some(n) => {
                proof {
                    assert(with_level(self@, self@.level) =~= self@);
                }
                if self.filter_match(n) {
                    let p = n.path_str().clone();
                    let ghost out0 = out;
                    out.push(p);
                    proof {
                        lemma_deep_view_push(out0, out, node_path(*n));
                    }
                }
                proof {
                    assert(out.deep_view() =~= spec_root_entry(self@, *n));
                }
                self.inner_list(self.level, n, &mut out);
            },
        }
        out
    }

    /// Walk the children of `n`, appending everything the configuration
    /// reports strictly below `n` to `out`.
    fn inner_list(&self, level: usize, n: &FsNode, out: &mut Vec<String>)
        ensures
            final(out).deep_view() == old(out).deep_view() + spec_descend(
                with_level(self@, level as nat),
                *n,
            ),
        decreases *n, 0int,
    {
        let ghost o_cur = with_level(self@, level as nat);
        match n {
            FsNode::File { .. } => {
                proof {
                    assert(out.deep_view() =~= old(out).deep_view() + spec_descend(o_cur, *n));
                }
            },
            FsNode::Dir { children, .. } => {
                if !self.recursive && level == 0 {
                    proof {
                        assert(out.deep_view() =~= old(out).deep_view() + spec_descend(o_cur, *n));
                    }
                    return;
                }
                let sub_level: usize = if self.recursive {
                    level
                } else {
                    level - 1
                };
                proof {
                    assert(with_level(self@, sub_level as nat) =~= child_options(o_cur));
                }
                let ghost base = out.deep_view();
                let ghost cs = children@;
                let mut i: usize = 0;
                while i < children.len()
                    invariant
                        i <= children.len(),
                        n is Dir,
                        n->Dir_children == *children,
                        cs == children@,
                        out.deep_view() == base + spec_children(o_cur, cs, i as int),
                        o_cur == with_level(self@, level as nat),
                        self.recursive ==> sub_level == level,
                        !self.recursive ==> level > 0 && sub_level == level - 1,
                        self@.recursive == self.recursive,
                    decreases children.len() - i,
                {
                    let child: &FsNode = &children[i];
                    proof {
                        assert(cs[i as int] == *child);
                        assert(with_level(self@, level as nat) =~= o_cur);
                    }
                    let ghost before_child = out.deep_view();
                    if self.show_at(level, child) {
                        let p = child.path_str().clone();
                        let ghost out0 = out;
                        out.push(p);
                        proof {
                            lemma_deep_view_push(*out0, *out, node_path(*child));
                        }
                    }
                    proof {
                        assert(out.deep_view() =~= before_child + spec_entry(o_cur, *child));
                        assert(with_level(self@, sub_level as nat) =~= child_options(o_cur));
                    }
                    proof {
                        assert(decreases_to!(*n => n->Dir_children));
                        assert(decreases_to!(n->Dir_children => n->Dir_children@));
                        assert(decreases_to!(n->Dir_children@ => n->Dir_children@[i as int]));
                        assert(decreases_to!(*n => *child));
                    }
                    self.inner_list(sub_level, child, out);
                    proof {
                        assert(out.deep_view() =~= base + spec_children(o_cur, cs, i as int)
                            + spec_entry(o_cur, cs[i as int]) + spec_descend(
                            child_options(o_cur),
                            cs[i as int],
                        ));
                        assert(spec_children(o_cur, cs, i as int + 1) == spec_children(
                            o_cur,
                            cs,
                            i as int,
                        ) + spec_entry(o_cur, cs[i as int]) + spec_descend(
                            child_options(o_cur),
                            cs[i as int],
                        ));
                        assert(out.deep_view() =~= base + spec_children(o_cur, cs, i as int + 1));
                    }
                    i += 1;
                }
                proof {
                    assert(spec_descend(o_cur, *n) == spec_children(o_cur, cs, cs.len() as int));
                    assert(out.deep_view() =~= old(out).deep_view() + spec_descend(o_cur, *n));
                }
            },
        }
    }
}

/// Pushing a string onto a vector appends its character sequence to the
/// vector's deep view.
proof fn lemma_deep_view_push(v0: Vec<String>, v1: Vec<String>, s: Seq<char>)
    requires
        v1@.len() == v0@.len() + 1,
        v1@ =~= v0@.push(v1@[v0@.len() as int]),
        v1@[v0@.len() as int]@ == s,
    ensures
        v1.deep_view() == v0.deep_view().push(s),
{
    assert(v1.deep_view() =~= v0.deep_view().push(s));
}

/// `s` ends with `suffix`, compared character by character.
fn str_ends_with(s: &str, suffix: &str) -> (r: bool)
    ensures
        r == spec_ends_with(s@, suffix@),
{
    let n: usize = s.unicode_len();
    let m: usize = suffix.unicode_len();
    if m > n {
        return false;
    }
    let mut i: usize = 0;
    while i < m
        invariant
            m <= n,
            n == s@.len(),
            m == suffix@.len(),
            i <= m,
            forall|j: int| 0 <= j < i ==> s@[n - m + j] == suffix@[j],
        decreases m - i,
    {
        if s.get_char(n - m + i) != suffix.get_char(i) {
            proof {
                if spec_ends_with(s@, suffix@) {
                    assert(s@.subrange(n - m, n as int)[i as int] == s@[n - m + i]);
                }
            }
            return false;
        }
        i += 1;
    }
    proof {
        assert(s@.subrange(n - m, n as int) =~= suffix@);
    }
    true
}

/// The given text starts with `.`.
fn starts_with_dot(s: &str) -> (r: bool)
    ensures
        r == starts_hidden(s@),
{
    if s.unicode_len() == 0 {
        false
    } else {
        s.get_char(0) == '.'
    }
}

/// `.` followed by the given text, as a fresh string.
fn dot_prefixed(s: &str) -> (r: String)
    ensures
        r@ == dotted(s@),
{
    proof {
        reveal_strlit(".");
    }
    let d = String::from_str(".");
    let r = d.concat(s);
    proof {
        assert(r@ =~= dotted(s@));
    }
    r
}

} // verus!
