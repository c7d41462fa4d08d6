//! The navigable description tree: a tree of one-line entries, some of them
//! opened, flattened into the list of visible rows, with a selected entry
//! addressed by its path of child indices.
use vstd::prelude::*;
use crate::desc::{DescNode, DescV, desc_view, descs_view, lemma_desc_child_decreases};
use crate::text::{push_char, push_text};
use crate::types::PatternSpan;
use vstd::string::StringSliceAdditionalSpecFns;

verus! {

/// One entry of the tree: its text (the explained part of the pattern
/// between backquotes, then the description), the part of the pattern it
/// explains, its sub-entries and whether they are shown.
pub struct TreeNode {
    pub text: String,
    pub span: PatternSpan,
    pub children: Vec<TreeNode>,
    pub opened: bool,
}

/// Model of a tree entry.
pub struct TreeV {
    pub text: Seq<char>,
    pub span: PatternSpan,
    pub children: Seq<TreeV>,
    pub opened: bool,
}

pub open spec fn tree_view(t: TreeNode) -> TreeV
    decreases t,
{
    TreeV { text: t.text@, span: t.span, children: trees_view(t.children@), opened: t.opened }
}

pub open spec fn trees_view(s: Seq<TreeNode>) -> Seq<TreeV>
    decreases s,
{
    Seq::new(
        s.len(),
        |i: int|
            if 0 <= i < s.len() {
                tree_view(s[i])
            } else {
                TreeV { text: Seq::empty(), span: PatternSpan { start: 0, end: 0 }, children: Seq::empty(), opened: false }
            },
    )
}

impl View for TreeNode {
    type V = TreeV;

    open spec fn view(&self) -> TreeV {
        tree_view(*self)
    }
}

impl TreeNode {
    /// A closed entry.
    pub fn new(text: String, span: PatternSpan, children: Vec<TreeNode>) -> (r: TreeNode)
        ensures
            r@ == (TreeV { text: text@, span, children: trees_view(children@), opened: false }),
    {
        TreeNode { text, span, children, opened: false }
    }
}

// ---------------------------------------------------------------------------
// Flattening
// ---------------------------------------------------------------------------

/// A visible row of the tree: the entry, its path of child indices, its
/// depth, and whether it is the first among its siblings.
pub struct FlatV {
    pub node: TreeV,
    pub path: Seq<usize>,
    pub depth: usize,
    pub root: bool,
}

/// The visible rows of `nodes`, whose parent is at `path`: each entry, then
/// (if it is opened and has children) the rows of its children, one level
/// deeper.
pub open spec fn flat_nodes(nodes: Seq<TreeV>, path: Seq<usize>, depth: usize) -> Seq<FlatV>
    decreases nodes, nodes.len() + 1,
{
    flat_range(nodes, path, depth, nodes.len())
}

/// The rows of the first `n` entries of `nodes`.
pub open spec fn flat_range(nodes: Seq<TreeV>, path: Seq<usize>, depth: usize, n: nat) -> Seq<FlatV>
    decreases nodes, n,
{
    if n == 0 || n > nodes.len() {
        Seq::empty()
    } else {
        flat_range(nodes, path, depth, (n - 1) as nat) + flat_one(
            nodes[n - 1],
            path.push((n - 1) as usize),
            depth,
            n == 1,
        )
    }
}

/// The rows of one entry at `path`.
pub open spec fn flat_one(node: TreeV, path: Seq<usize>, depth: usize, root: bool) -> Seq<FlatV>
    decreases node, 0nat,
{
    seq![FlatV { node, path, depth, root }] + if node.opened && node.children.len() > 0 {
        flat_nodes(node.children, path, depth.saturating_add(1))
    } else {
        Seq::empty()
    }
}

/// The visible rows of a whole tree.
pub open spec fn flat_tree(nodes: Seq<TreeV>) -> Seq<FlatV> {
    flat_nodes(nodes, Seq::empty(), 0)
}

/// A visible row as the flattening hands it out.
pub struct Flat<'a> {
    pub node: &'a TreeNode,
    pub path: Vec<usize>,
    pub depth: usize,
    pub root: bool,
}

pub open spec fn flat_view(f: Flat) -> FlatV {
    FlatV { node: f.node@, path: f.path@, depth: f.depth, root: f.root }
}

pub open spec fn flats_view(s: Seq<Flat>) -> Seq<FlatV> {
    Seq::new(s.len(), |i: int| flat_view(s[i]))
}

/// `p` followed by `i`.
pub(crate) fn extend_path(p: &Vec<usize>, i: usize) -> (r: Vec<usize>)
    ensures
        r@ == p@.push(i),
{
    let mut r: Vec<usize> = Vec::new();
    let mut k: usize = 0;
    while k < p.len()
        invariant
            k <= p.len(),
            r@ == p@.subrange(0, k as int),
        decreases p.len() - k,
    {
        r.push(p[k]);
        k += 1;
    }
    r.push(i);
    r
}

/// A copy of a path.
pub(crate) fn copy_path(p: &Vec<usize>) -> (r: Vec<usize>)
    ensures
        r@ == p@,
{
    let mut r: Vec<usize> = Vec::new();
    let mut k: usize = 0;
    while k < p.len()
        invariant
            k <= p.len(),
            r@ == p@.subrange(0, k as int),
        decreases p.len() - k,
    {
        r.push(p[k]);
        k += 1;
    }
    proof {
        assert(p@.subrange(0, p.len() as int) =~= p@);
    }
    r
}

/// Whether two paths are equal.
pub(crate) fn same_path(a: &Vec<usize>, b: &Vec<usize>) -> (r: bool)
    ensures
        r == (a@ == b@),
{
    if a.len() != b.len() {
        return false;
    }
    let mut k: usize = 0;
    while k < a.len()
        invariant
            a.len() == b.len(),
            k <= a.len(),
            a@.subrange(0, k as int) == b@.subrange(0, k as int),
        decreases a.len() - k,
    {
        if a[k] != b[k] {
            assert(a@.subrange(0, k + 1)[k as int] != b@.subrange(0, k + 1)[k as int]);
            return false;
        }
        assert(a@.subrange(0, k + 1) =~= a@.subrange(0, k as int).push(a@[k as int]));
        assert(b@.subrange(0, k + 1) =~= b@.subrange(0, k as int).push(b@[k as int]));
        k += 1;
    }
    assert(a@ =~= a@.subrange(0, k as int));
    assert(b@ =~= b@.subrange(0, k as int));
    true
}

proof fn lemma_child_decreases(nodes: Vec<TreeNode>, i: int)
    requires
        0 <= i < nodes@.len(),
    ensures
        decreases_to!(nodes => nodes@[i].children),
{
    broadcast use vstd::std_specs::vec::group_vec_axioms;

    assert(decreases_to!(nodes => nodes@));
    assert(decreases_to!(nodes@ => nodes@[i]));
    assert(decreases_to!(nodes@[i] => nodes@[i].children));
}

/// Appends the visible rows of `nodes` (whose parent is at `path`) to `out`.
fn flatten_into<'a>(nodes: &'a Vec<TreeNode>, path: &Vec<usize>, depth: usize, out: &mut Vec<Flat<'a>>)
    ensures
        flats_view(final(out)@) == flats_view(old(out)@) + flat_nodes(trees_view(nodes@), path@, depth),
    decreases nodes,
{
    let ghost tv = trees_view(nodes@);
    let ghost start = flats_view(out@);
    let mut i: usize = 0;
    while i < nodes.len()
        invariant
            tv == trees_view(nodes@),
            i <= nodes.len(),
            flats_view(out@) == start + flat_range(tv, path@, depth, i as nat),
        decreases nodes.len() - i,
    {
        let p = extend_path(path, i);
        let node = &nodes[i];
        let ghost before = flats_view(out@);
        out.push(Flat { node, path: copy_path(&p), depth, root: i == 0 });
        proof {
            assert(flats_view(out@) =~= before.push(FlatV { node: tv[i as int], path: p@, depth, root: i == 0 }));
        }
        proof {
            assert(tv[i as int] == tree_view(*node));
            assert(tv[i as int].children.len() == node.children@.len());
        }
        if node.opened && node.children.len() > 0 {
            proof {
                lemma_child_decreases(*nodes, i as int);
            }
            flatten_into(&node.children, &p, depth.saturating_add(1), out);
            proof {
                assert(flats_view(out@) =~= before.push(FlatV { node: tv[i as int], path: p@, depth, root: i == 0 })
                    + flat_nodes(tv[i as int].children, p@, depth.saturating_add(1)));
            }
        } else {
            proof {
                assert(flat_one(tv[i as int], p@, depth, i == 0) =~= seq![FlatV { node: tv[i as int], path: p@, depth, root: i == 0 }]);
            }
        }
        proof {
            assert(flat_range(tv, path@, depth, (i + 1) as nat) =~= flat_range(tv, path@, depth, i as nat)
                + flat_one(tv[i as int], path@.push(i), depth, i == 0));
            assert(flats_view(out@) =~= start + flat_range(tv, path@, depth, (i + 1) as nat));
        }
        i += 1;
    }
}

/// The visible rows of a tree.
pub fn flatten(nodes: &Vec<TreeNode>) -> (r: Vec<Flat<'_>>)
    ensures
        flats_view(r@) == flat_tree(trees_view(nodes@)),
{
    let mut out: Vec<Flat<'_>> = Vec::new();
    let root: Vec<usize> = Vec::new();
    proof {
        assert(flats_view(out@) =~= Seq::<FlatV>::empty());
    }
    flatten_into(nodes, &root, 0, &mut out);
    proof {
        assert(flats_view(out@) =~= flat_tree(trees_view(nodes@)));
    }
    out
}

// ---------------------------------------------------------------------------
// Looking up and changing entries by path
// ---------------------------------------------------------------------------

/// The entry at `path` (a list of child indices from the top level), if
/// there is one.
pub open spec fn node_at(nodes: Seq<TreeV>, path: Seq<usize>) -> Option<TreeV>
    decreases path.len(),
{
    if path.len() == 0 || path[0] >= nodes.len() {
        None
    } else if path.len() == 1 {
        Some(nodes[path[0] as int])
    } else {
        node_at(nodes[path[0] as int].children, path.drop_first())
    }
}

/// The tree with the entry at `path` opened (`v`) or closed; unchanged if
/// there is no such entry.
pub open spec fn set_opened(nodes: Seq<TreeV>, path: Seq<usize>, v: bool) -> Seq<TreeV>
    decreases path.len(),
{
    if path.len() == 0 || path[0] >= nodes.len() {
        nodes
    } else {
        let n = nodes[path[0] as int];
        nodes.update(
            path[0] as int,
            if path.len() == 1 {
                TreeV { text: n.text, span: n.span, children: n.children, opened: v }
            } else {
                TreeV { text: n.text, span: n.span, children: set_opened(n.children, path.drop_first(), v), opened: n.opened }
            },
        )
    }
}

fn find_node<'a>(nodes: &'a Vec<TreeNode>, path: &Vec<usize>, k: usize) -> (r: Option<&'a TreeNode>)
    requires
        k <= path.len(),
    ensures
        match r {
            Some(n) => node_at(trees_view(nodes@), path@.subrange(k as int, path.len() as int)) == Some(n@),
            None => node_at(trees_view(nodes@), path@.subrange(k as int, path.len() as int)) is None,
        },
    decreases path.len() - k,
{
    let ghost rest = path@.subrange(k as int, path.len() as int);
    if k == path.len() || path[k] >= nodes.len() {
        return None;
    }
    let i = path[k];
    proof {
        assert(rest[0] == i);
        assert(trees_view(nodes@)[i as int] == tree_view(nodes@[i as int]));
    }
    if k + 1 == path.len() {
        Some(&nodes[i])
    } else {
        proof {
            assert(rest.drop_first() =~= path@.subrange(k + 1, path.len() as int));
        }
        find_node(&nodes[i].children, path, k + 1)
    }
}

fn set_opened_from(nodes: &mut Vec<TreeNode>, path: &Vec<usize>, k: usize, v: bool)
    requires
        k <= path.len(),
    ensures
        trees_view(final(nodes)@) == set_opened(trees_view(old(nodes)@), path@.subrange(k as int, path.len() as int), v),
    decreases path.len() - k,
{
    let ghost rest = path@.subrange(k as int, path.len() as int);
    let ghost before = trees_view(nodes@);
    if k == path.len() || path[k] >= nodes.len() {
        return;
    }
    let i = path[k];
    proof {
        assert(rest[0] == i);
        assert(before[i as int] == tree_view(nodes@[i as int]));
    }
    let mut node = nodes.remove(i);
    if k + 1 == path.len() {
        node.opened = v;
    } else {
        proof {
            assert(rest.drop_first() =~= path@.subrange(k + 1, path.len() as int));
        }
        set_opened_from(&mut node.children, path, k + 1, v);
    }
    nodes.insert(i, node);
    proof {
        assert(trees_view(nodes@) =~= set_opened(before, rest, v));
    }
}

// ---------------------------------------------------------------------------
// The widget state
// ---------------------------------------------------------------------------

/// The description tree with its selection and vertical scroll.
pub struct DescTreeWidget {
    nodes: Vec<TreeNode>,
    selected: Vec<usize>,
    vscroll: usize,
}

/// Model of the widget state.
pub struct DescTreeV {
    pub nodes: Seq<TreeV>,
    pub selected: Seq<usize>,
    pub vscroll: usize,
}

impl View for DescTreeWidget {
    type V = DescTreeV;

    closed spec fn view(&self) -> DescTreeV {
        DescTreeV { nodes: trees_view(self.nodes@), selected: self.selected@, vscroll: self.vscroll }
    }
}

/// The position of the first row whose path is `p`.
pub open spec fn path_pos(f: Seq<FlatV>, p: Seq<usize>) -> Option<nat>
    decreases f.len(),
{
    if f.len() == 0 {
        None
    } else {
        match path_pos(f.drop_last(), p) {
            Some(i) => Some(i),
            None => if f.last().path == p {
                Some((f.len() - 1) as nat)
            } else {
                None
            },
        }
    }
}

/// The selection after moving down one row: the first row if nothing is
/// selected, the next row if there is one, else unchanged.
pub open spec fn down_selection(f: Seq<FlatV>, sel: Seq<usize>) -> Seq<usize> {
    if f.len() == 0 {
        sel
    } else if sel.len() == 0 {
        f[0].path
    } else {
        match path_pos(f, sel) {
            Some(i) => if i + 1 < f.len() {
                f[(i + 1) as int].path
            } else {
                sel
            },
            None => sel,
        }
    }
}

/// The selection after moving up one row: the last row if nothing is
/// selected, the previous row if there is one, else unchanged.
pub open spec fn up_selection(f: Seq<FlatV>, sel: Seq<usize>) -> Seq<usize> {
    if f.len() == 0 {
        sel
    } else if sel.len() == 0 {
        f.last().path
    } else {
        match path_pos(f, sel) {
            Some(i) => if i > 0 {
                f[i - 1].path
            } else {
                sel
            },
            None => sel,
        }
    }
}

/// Moving left: an opened selected entry is closed; otherwise the selection
/// moves to the parent, if it is not at the top level.
pub open spec fn left_state(s: DescTreeV) -> DescTreeV {
    if s.selected.len() == 0 {
        s
    } else if node_at(s.nodes, s.selected) matches Some(n) && n.opened {
        DescTreeV { nodes: set_opened(s.nodes, s.selected, false), selected: s.selected, vscroll: s.vscroll }
    } else if s.selected.len() > 1 {
        DescTreeV { nodes: s.nodes, selected: s.selected.drop_last(), vscroll: s.vscroll }
    } else {
        s
    }
}

/// Moving right: a selected entry with children is opened.
pub open spec fn right_state(s: DescTreeV) -> DescTreeV {
    if node_at(s.nodes, s.selected) matches Some(n) && n.children.len() > 0 {
        DescTreeV { nodes: set_opened(s.nodes, s.selected, true), selected: s.selected, vscroll: s.vscroll }
    } else {
        s
    }
}

fn position(flat: &Vec<Flat>, p: &Vec<usize>) -> (r: Option<usize>)
    ensures
        match r {
            Some(i) => path_pos(flats_view(flat@), p@) == Some(i as nat),
            None => path_pos(flats_view(flat@), p@) is None,
        },
{
    let ghost fv = flats_view(flat@);
    let mut k: usize = 0;
    while k < flat.len()
        invariant
            fv == flats_view(flat@),
            k <= flat.len(),
            path_pos(fv.subrange(0, k as int), p@) is None,
        decreases flat.len() - k,
    {
        proof {
            assert(fv.subrange(0, k + 1).drop_last() =~= fv.subrange(0, k as int));
        }
        if same_path(&flat[k].path, p) {
            proof {
                lemma_path_pos_prefix(fv, p@, (k + 1) as nat);
            }
            return Some(k);
        }
        k += 1;
    }
    proof {
        assert(fv.subrange(0, k as int) =~= fv);
    }
    None
}

/// A row found in a prefix is found at the same place in the whole list.
proof fn lemma_path_pos_prefix(f: Seq<FlatV>, p: Seq<usize>, n: nat)
    requires
        n <= f.len(),
        path_pos(f.subrange(0, n as int), p) is Some,
    ensures
        path_pos(f, p) == path_pos(f.subrange(0, n as int), p),
    decreases f.len() - n,
{
    if n < f.len() {
        assert(f.subrange(0, (n + 1) as int).drop_last() =~= f.subrange(0, n as int));
        lemma_path_pos_prefix(f, p, n + 1);
    } else {
        assert(f.subrange(0, n as int) =~= f);
    }
}

impl DescTreeWidget {
    /// An empty tree.
    pub fn new() -> (r: Self)
        ensures
            r@ == (DescTreeV { nodes: Seq::empty(), selected: Seq::empty(), vscroll: 0 }),
    {
        let r = DescTreeWidget { nodes: Vec::new(), selected: Vec::new(), vscroll: 0 };
        proof {
            assert(trees_view(r.nodes@) =~= Seq::<TreeV>::empty());
        }
        r
    }

    /// Replaces the entries; the selection and the scroll are reset.
    pub fn set_nodes(&mut self, nodes: Vec<TreeNode>)
        ensures
            final(self)@ == (DescTreeV { nodes: trees_view(nodes@), selected: Seq::empty(), vscroll: 0 }),
    {
        self.nodes = nodes;
        self.selected = Vec::new();
        self.vscroll = 0;
    }

    /// The selected path (child indices from the top level); empty when
    /// nothing is selected.
    pub fn selected_path(&self) -> (r: &[usize])
        ensures
            r@ == self@.selected,
    {
        self.selected.as_slice()
    }

    /// The position of the selected row among the visible rows, counted
    /// from 1 (if it is visible), and the number of visible rows.
    pub fn selected_index_total(&self) -> (r: (Option<usize>, usize))
        ensures
            r.1 == flat_tree(self@.nodes).len(),
            r.0 == (if self@.selected.len() == 0 {
                None
            } else {
                match path_pos(flat_tree(self@.nodes), self@.selected) {
                    Some(i) => Some((i + 1) as usize),
                    None => None,
                }
            }),
    {
        let flat = flatten(&self.nodes);
        let total = flat.len();
        proof {
            assert(flats_view(flat@).len() == flat@.len());
        }
        if total == 0 {
            proof {
                if self.selected@.len() != 0 {
                    assert(path_pos(flats_view(flat@), self.selected@) is None);
                }
            }
            return (None, 0);
        }
        if self.selected.len() == 0 {
            return (None, total);
        }
        match position(&flat, &self.selected) {
            Some(p) => {
                proof {
                    lemma_path_pos_bound(flats_view(flat@), self.selected@);
                }
                (Some(p + 1), total)
            },
            None => (None, total),
        }
    }

    /// Moves the selection down one row.
    pub fn select_down(&mut self)
        ensures
            final(self)@ == (DescTreeV {
                selected: down_selection(flat_tree(old(self)@.nodes), old(self)@.selected),
                ..old(self)@
            }),
    {
        let flat = flatten(&self.nodes);
        proof {
            assert(flats_view(flat@).len() == flat@.len());
        }
        if flat.len() == 0 {
            return;
        }
        if self.selected.len() == 0 {
            self.selected = copy_path(&flat[0].path);
            return;
        }
        if let Some(i) = position(&flat, &self.selected) {
            proof {
                lemma_path_pos_bound(flats_view(flat@), self.selected@);
            }
            if i + 1 < flat.len() {
                self.selected = copy_path(&flat[i + 1].path);
            }
        }
    }

    /// Moves the selection up one row.
    pub fn select_up(&mut self)
        ensures
            final(self)@ == (DescTreeV {
                selected: up_selection(flat_tree(old(self)@.nodes), old(self)@.selected),
                ..old(self)@
            }),
    {
        let flat = flatten(&self.nodes);
        proof {
            assert(flats_view(flat@).len() == flat@.len());
        }
        if flat.len() == 0 {
            return;
        }
        if self.selected.len() == 0 {
            self.selected = copy_path(&flat[flat.len() - 1].path);
            return;
        }
        if let Some(i) = position(&flat, &self.selected) {
            proof {
                lemma_path_pos_bound(flats_view(flat@), self.selected@);
            }
            if i > 0 {
                self.selected = copy_path(&flat[i - 1].path);
            }
        }
    }

    /// Closes the selected entry if it is opened, else moves to its parent.
    pub fn select_left(&mut self)
        ensures
            final(self)@ == left_state(old(self)@),
    {
        if self.selected.len() == 0 {
            return;
        }
        let opened = match find_node(&self.nodes, &self.selected, 0) {
            Some(n) => n.opened,
            None => false,
        };
        proof {
            assert(self.selected@.subrange(0, self.selected@.len() as int) =~= self.selected@);
        }
        if opened {
            set_opened_from(&mut self.nodes, &self.selected, 0, false);
            return;
        }
        if self.selected.len() > 1 {
            self.selected.pop();
        }
    }

    /// Opens the selected entry if it has children.
    pub fn select_right(&mut self)
        ensures
            final(self)@ == right_state(old(self)@),
    {
        let expandable = match find_node(&self.nodes, &self.selected, 0) {
            Some(n) => n.children.len() > 0,
            None => false,
        };
        proof {
            assert(self.selected@.subrange(0, self.selected@.len() as int) =~= self.selected@);
        }
        if expandable {
            set_opened_from(&mut self.nodes, &self.selected, 0, true);
        }
    }

    /// How many rows are scrolled above the view.
    pub fn vscroll(&self) -> (r: usize)
        ensures
            r == self@.vscroll,
    {
        self.vscroll
    }

    /// Scrolls up one row (not past the top).
    pub fn scroll_up(&mut self)
        ensures
            final(self)@ == (DescTreeV { vscroll: old(self)@.vscroll.saturating_sub(1), ..old(self)@ }),
    {
        self.vscroll = self.vscroll.saturating_sub(1);
    }

    /// Scrolls down one row.
    pub fn scroll_down(&mut self)
        requires
            old(self)@.vscroll < usize::MAX,
        ensures
            final(self)@ == (DescTreeV { vscroll: (old(self)@.vscroll + 1) as usize, ..old(self)@ }),
    {
        self.vscroll = self.vscroll + 1;
    }
}

proof fn lemma_path_pos_bound(f: Seq<FlatV>, p: Seq<usize>)
    ensures
        path_pos(f, p) matches Some(i) ==> i < f.len() && f[i as int].path == p,
    decreases f.len(),
{
    if f.len() > 0 {
        lemma_path_pos_bound(f.drop_last(), p);
    }
}

// ---------------------------------------------------------------------------
// Building the tree from a description
// ---------------------------------------------------------------------------

/// The characters of the bytes `start..end` of the pattern (empty when the
/// range is empty).
pub open spec fn slice_text(bytes: Seq<u8>, span: PatternSpan) -> Seq<char> {
    if span.start >= span.end {
        Seq::empty()
    } else {
        Seq::new((span.end - span.start) as nat, |k: int| bytes[span.start + k] as char)
    }
}

/// The text of an entry: the explained part of the pattern between
/// backquotes, a space, then the description.
pub open spec fn entry_text(bytes: Seq<u8>, d: DescV) -> Seq<char> {
    seq!['`'] + slice_text(bytes, d.span) + seq!['`', ' '] + d.desc
}

/// Whether every described part of the pattern that is shown lies within
/// the pattern and is made of one-byte characters.
pub open spec fn shows_ascii(d: DescV, bytes: Seq<u8>) -> bool
    decreases d, 1nat,
{
    &&& (d.desc.len() > 0 && d.span.start < d.span.end) ==> (d.span.end <= bytes.len() && forall|k: int|
        d.span.start <= k < d.span.end ==> #[trigger] bytes[k] < 128)
    &&& shows_ascii_all(d.items, bytes)
}

pub open spec fn shows_ascii_all(s: Seq<DescV>, bytes: Seq<u8>) -> bool
    decreases s, 0nat,
{
    s.len() == 0 || (shows_ascii_all(s.subrange(0, s.len() - 1), bytes) && shows_ascii(s[s.len() - 1], bytes))
}

/// The entries for a description line: one entry holding the entries of
/// its sub-lines, or, for a line without text, its sub-lines' entries in
/// its place.
pub open spec fn to_trees(d: DescV, bytes: Seq<u8>) -> Seq<TreeV>
    decreases d, 1nat,
{
    let children = to_trees_all(d.items, bytes);
    if d.desc.len() == 0 {
        children
    } else {
        seq![TreeV { text: entry_text(bytes, d), span: d.span, children, opened: false }]
    }
}

pub open spec fn to_trees_all(s: Seq<DescV>, bytes: Seq<u8>) -> Seq<TreeV>
    decreases s, 0nat,
{
    if s.len() == 0 {
        Seq::empty()
    } else {
        to_trees_all(s.subrange(0, s.len() - 1), bytes) + to_trees(s[s.len() - 1], bytes)
    }
}

/// The description lines shown in place of `s`: lines without text are
/// replaced by their own sub-lines.
pub open spec fn visible_items(s: Seq<DescV>) -> Seq<DescV>
    decreases s,
{
    if s.len() == 0 {
        Seq::empty()
    } else {
        visible_items(s.subrange(0, s.len() - 1)) + if s[s.len() - 1].desc.len() == 0 {
            visible_items(s[s.len() - 1].items)
        } else {
            seq![s[s.len() - 1]]
        }
    }
}

/// The part of the pattern explained by the entry at `path`, following the
/// path through the visible sub-lines as far as it leads.
pub open spec fn path_span(d: DescV, path: Seq<usize>) -> PatternSpan
    decreases path.len(),
{
    if path.len() == 0 {
        d.span
    } else {
        let vis = visible_items(d.items);
        if path[0] >= vis.len() {
            d.span
        } else {
            path_span(vis[path[0] as int], path.drop_first())
        }
    }
}

pub open spec fn refs_view(s: Seq<&DescNode>) -> Seq<DescV> {
    Seq::new(s.len(), |i: int| desc_view(*s[i]))
}

fn visible_children<'a>(node: &'a DescNode, out: &mut Vec<&'a DescNode>)
    ensures
        refs_view(final(out)@) == refs_view(old(out)@) + visible_items(descs_view(node.nested_items@)),
    decreases node,
{
    let ghost start = refs_view(out@);
    let ghost items = descs_view(node.nested_items@);
    let mut k: usize = 0;
    while k < node.nested_items.len()
        invariant
            items == descs_view(node.nested_items@),
            k <= node.nested_items.len(),
            refs_view(out@) == start + visible_items(items.subrange(0, k as int)),
        decreases node.nested_items.len() - k,
    {
        let child = &node.nested_items[k];
        let ghost before = refs_view(out@);
        proof {
            assert(items.subrange(0, k + 1).subrange(0, k as int) =~= items.subrange(0, k as int));
            assert(items[k as int] == desc_view(*child));
        }
        if child.desc.as_str().is_empty() {
            proof {
                lemma_desc_child_decreases(*node, k as int);
            }
            visible_children(child, out);
        } else {
            out.push(child);
            proof {
                assert(refs_view(out@) =~= before + seq![items[k as int]]);
            }
        }
        proof {
            assert(refs_view(out@) =~= start + visible_items(items.subrange(0, k + 1)));
        }
        k += 1;
    }
    proof {
        assert(items.subrange(0, k as int) =~= items);
    }
}

/// The entries for a description line and everything below it.
fn descnode_to_treenode(node: &DescNode, pattern: &str) -> (r: Vec<TreeNode>)
    requires
        shows_ascii(node@, pattern.spec_bytes()),
    ensures
        trees_view(r@) == to_trees(node@, pattern.spec_bytes()),
    decreases node,
{
    let ghost bytes = pattern.spec_bytes();
    let ghost items = descs_view(node.nested_items@);
    let mut children: Vec<TreeNode> = Vec::new();
    let mut k: usize = 0;
    while k < node.nested_items.len()
        invariant
            bytes == pattern.spec_bytes(),
            items == descs_view(node.nested_items@),
            shows_ascii(node@, bytes),
            k <= node.nested_items.len(),
            trees_view(children@) == to_trees_all(items.subrange(0, k as int), bytes),
        decreases node.nested_items.len() - k,
    {
        proof {
            lemma_desc_child_decreases(*node, k as int);
            assert(items.subrange(0, k + 1).subrange(0, k as int) =~= items.subrange(0, k as int));
            lemma_shows_ascii_item(items, bytes, k as int);
        }
        let ghost before = children@;
        let mut sub = descnode_to_treenode(&node.nested_items[k], pattern);
        children.append(&mut sub);
        proof {
            assert(trees_view(children@) =~= trees_view(before) + to_trees(items[k as int], bytes));
            assert(trees_view(children@) =~= to_trees_all(items.subrange(0, k + 1), bytes));
        }
        k += 1;
    }
    proof {
        assert(items.subrange(0, k as int) =~= items);
    }
    if node.desc.as_str().is_empty() {
        return children;
    }
    let bytes_exec = pattern.as_bytes();
    let mut text = String::new();
    push_char(&mut text, '`');
    let ghost head = text@;
    if node.span.start < node.span.end {
        let mut idx = node.span.start;
        while idx < node.span.end
            invariant
                bytes == pattern.spec_bytes(),
                bytes_exec@ == bytes,
                node.span.start <= idx <= node.span.end,
                node.span.end <= bytes.len(),
                text@ == head + Seq::new((idx - node.span.start) as nat, |j: int| bytes[node.span.start + j] as char),
            decreases node.span.end - idx,
        {
            let b = bytes_exec[idx];
            push_char(&mut text, b as char);
            proof {
                assert(text@ =~= head + Seq::new((idx + 1 - node.span.start) as nat, |j: int| bytes[node.span.start + j] as char));
            }
            idx += 1;
        }
    }
    proof {
        assert(text@ =~= seq!['`'] + slice_text(bytes, node.span));
    }
    push_char(&mut text, '`');
    push_char(&mut text, ' ');
    push_text(&mut text, node.desc.as_str());
    proof {
        assert(text@ =~= entry_text(bytes, node@));
    }
    let mut out: Vec<TreeNode> = Vec::new();
    out.push(TreeNode::new(text, node.span, children));
    proof {
        assert(trees_view(out@) =~= to_trees(node@, bytes));
    }
    out
}

proof fn lemma_shows_ascii_item(items: Seq<DescV>, bytes: Seq<u8>, k: int)
    requires
        shows_ascii_all(items, bytes),
        0 <= k < items.len(),
    ensures
        shows_ascii(items[k], bytes),
    decreases items.len(),
{
    if k < items.len() - 1 {
        lemma_shows_ascii_item(items.subrange(0, items.len() - 1), bytes, k);
    }
}


/// Whether the tree of a description can be shown: see `shows_ascii`.
pub fn can_show(d: &DescNode, pattern: &str) -> (r: bool)
    ensures
        r == shows_ascii(d@, pattern.spec_bytes()),
    decreases d,
{
    let ghost bytes = pattern.spec_bytes();
    let ghost items = descs_view(d.nested_items@);
    let mut k: usize = 0;
    while k < d.nested_items.len()
        invariant
            bytes == pattern.spec_bytes(),
            items == descs_view(d.nested_items@),
            k <= d.nested_items.len(),
            shows_ascii_all(items.subrange(0, k as int), bytes),
        decreases d.nested_items.len() - k,
    {
        proof {
            lemma_desc_child_decreases(*d, k as int);
            assert(items.subrange(0, k + 1).subrange(0, k as int) =~= items.subrange(0, k as int));
            assert(items[k as int] == desc_view(d.nested_items@[k as int]));
        }
        if !can_show(&d.nested_items[k], pattern) {
            proof {
                lemma_shows_ascii_prefix(items, bytes, k as int);
            }
            return false;
        }
        k += 1;
    }
    proof {
        assert(items.subrange(0, k as int) =~= items);
    }
    if d.desc.as_str().is_empty() || d.span.start >= d.span.end {
        return true;
    }
    let b = pattern.as_bytes();
    proof {
        assert(d@.desc == d.desc@);
        assert(d@.desc.len() > 0);
    }
    if d.span.end > b.len() {
        return false;
    }
    let mut i = d.span.start;
    while i < d.span.end
        invariant
            b@ == bytes,
            bytes == pattern.spec_bytes(),
            d@.desc.len() > 0,
            d.span.start < d.span.end,
            d.span.start <= i <= d.span.end,
            d.span.end <= bytes.len(),
            forall|j: int| d.span.start <= j < i ==> #[trigger] bytes[j] < 128,
        decreases d.span.end - i,
    {
        if b[i] >= 128 {
            proof {
                assert(bytes[i as int] >= 128);
                assert(d@.desc.len() > 0);
            }
            return false;
        }
        i += 1;
    }
    true
}

proof fn lemma_shows_ascii_prefix(items: Seq<DescV>, bytes: Seq<u8>, k: int)
    requires
        0 <= k < items.len(),
        !shows_ascii(items[k], bytes),
    ensures
        !shows_ascii_all(items, bytes),
    decreases items.len(),
{
    if k < items.len() - 1 {
        lemma_shows_ascii_prefix(items.subrange(0, items.len() - 1), bytes, k);
    }
}

impl DescTreeWidget {
    /// The tree of a description (lines without text are replaced by their
    /// sub-lines), nothing selected, not scrolled.
    pub fn from_descnodes(desc_root: &DescNode, pattern: &str) -> (r: Self)
        requires
            shows_ascii(desc_root@, pattern.spec_bytes()),
        ensures
            r@ == (DescTreeV { nodes: to_trees(desc_root@, pattern.spec_bytes()), selected: Seq::empty(), vscroll: 0 }),
    {
        DescTreeWidget { nodes: descnode_to_treenode(desc_root, pattern), selected: Vec::new(), vscroll: 0 }
    }

    /// The part of the pattern explained by the selected entry, looked up in
    /// the description the tree was built from.
    pub fn get_selected_span(&self, desc_root: &DescNode) -> (r: PatternSpan)
        ensures
            r == path_span(desc_root@, self@.selected),
    {
        let ghost sel = self.selected@;
        let mut cur = desc_root;
        let mut k: usize = 0;
        proof {
            assert(sel.subrange(0, sel.len() as int) =~= sel);
        }
        while k < self.selected.len()
            invariant
                sel == self.selected@,
                k <= sel.len(),
                path_span(desc_root@, sel) == path_span(cur@, sel.subrange(k as int, sel.len() as int)),
            ensures
                path_span(desc_root@, sel) == cur@.span,
            decreases sel.len() - k,
        {
            let ghost rest = sel.subrange(k as int, sel.len() as int);
            let idx = self.selected[k];
            let mut vis: Vec<&DescNode> = Vec::new();
            visible_children(cur, &mut vis);
            proof {
                assert(refs_view(vis@) =~= visible_items(cur@.items));
                assert(rest[0] == idx);
            }
            if idx >= vis.len() {
                break;
            }
            proof {
                assert(rest.drop_first() =~= sel.subrange(k + 1, sel.len() as int));
                assert(refs_view(vis@)[idx as int] == vis[idx as int]@);
            }
            cur = vis[idx];
            k += 1;
        }
        cur.span
    }
}

// ---------------------------------------------------------------------------
// Laws of the flattened tree and of navigation
// ---------------------------------------------------------------------------

/// Every list of entries in the tree has a length that a child index can
/// address.
pub open spec fn tree_fits(s: Seq<TreeV>) -> bool
    decreases s,
{
    s.len() <= usize::MAX && forall|i: int| 0 <= i < s.len() ==> tree_fits(#[trigger] s[i].children)
}

/// No two visible rows have the same path.
pub open spec fn paths_distinct(f: Seq<FlatV>) -> bool {
    forall|a: int, b: int| 0 <= a < b < f.len() ==> (#[trigger] f[a]).path != (#[trigger] f[b]).path
}

/// Every row's path extends `p`.
pub open spec fn paths_extend(f: Seq<FlatV>, p: Seq<usize>) -> bool {
    forall|a: int|
        0 <= a < f.len() ==> (#[trigger] f[a]).path.len() >= p.len() && f[a].path.subrange(0, p.len() as int) == p
}

/// Every row's path extends `p` by an index below `bound`, and perhaps more.
pub open spec fn paths_below(f: Seq<FlatV>, p: Seq<usize>, bound: nat) -> bool {
    forall|a: int|
        0 <= a < f.len() ==> (#[trigger] f[a]).path.len() > p.len() && f[a].path.subrange(0, p.len() as int) == p
            && f[a].path[p.len() as int] < bound
}

proof fn lemma_flat_one(node: TreeV, p: Seq<usize>, depth: usize, root: bool)
    requires
        tree_fits(node.children),
    ensures
        paths_extend(flat_one(node, p, depth, root), p),
        paths_distinct(flat_one(node, p, depth, root)),
    decreases node, 0nat,
{
    let f = flat_one(node, p, depth, root);
    if node.opened && node.children.len() > 0 {
        let c = flat_nodes(node.children, p, depth.saturating_add(1));
        lemma_flat_nodes(node.children, p, depth.saturating_add(1));
        assert(f == seq![FlatV { node, path: p, depth, root }] + c);
        assert forall|a: int| 0 <= a < f.len() implies (#[trigger] f[a]).path.len() >= p.len() && f[a].path.subrange(
            0,
            p.len() as int,
        ) == p by {
            if a > 0 {
                assert(f[a] == c[a - 1]);
            } else {
                assert(p.subrange(0, p.len() as int) =~= p);
            }
        }
        assert forall|a: int, b: int| 0 <= a < b < f.len() implies (#[trigger] f[a]).path != (#[trigger] f[b]).path by {
            assert(f[b] == c[b - 1]);
            if a > 0 {
                assert(f[a] == c[a - 1]);
            }
        }
    } else {
        assert(f =~= seq![FlatV { node, path: p, depth, root }]);
        assert(p.subrange(0, p.len() as int) =~= p);
    }
}

proof fn lemma_flat_range(nodes: Seq<TreeV>, p: Seq<usize>, depth: usize, n: nat)
    requires
        n <= nodes.len(),
        tree_fits(nodes),
    ensures
        paths_below(flat_range(nodes, p, depth, n), p, n),
        paths_distinct(flat_range(nodes, p, depth, n)),
    decreases nodes, n,
{
    if n > 0 {
        let r = flat_range(nodes, p, depth, (n - 1) as nat);
        let q = p.push((n - 1) as usize);
        let o = flat_one(nodes[n - 1], q, depth, n == 1);
        let f = flat_range(nodes, p, depth, n);
        lemma_flat_range(nodes, p, depth, (n - 1) as nat);
        assert(tree_fits(nodes[n - 1].children));
        lemma_flat_one(nodes[n - 1], q, depth, n == 1);
        assert(f == r + o);
        assert forall|a: int| 0 <= a < o.len() implies (#[trigger] o[a]).path.len() > p.len() && o[a].path.subrange(
            0,
            p.len() as int,
        ) == p && o[a].path[p.len() as int] == n - 1 by {
            let s = o[a].path;
            assert(s.subrange(0, q.len() as int) == q);
            assert(s.subrange(0, p.len() as int) =~= s.subrange(0, q.len() as int).subrange(0, p.len() as int));
            assert(s[p.len() as int] == s.subrange(0, q.len() as int)[p.len() as int]);
        }
        assert forall|a: int| 0 <= a < f.len() implies (#[trigger] f[a]).path.len() > p.len() && f[a].path.subrange(
            0,
            p.len() as int,
        ) == p && f[a].path[p.len() as int] < n by {
            if a < r.len() {
                assert(f[a] == r[a]);
            } else {
                assert(f[a] == o[a - r.len()]);
            }
        }
        assert forall|a: int, b: int| 0 <= a < b < f.len() implies (#[trigger] f[a]).path != (#[trigger] f[b]).path by {
            if b < r.len() {
                assert(f[a] == r[a] && f[b] == r[b]);
            } else if a < r.len() {
                assert(f[a] == r[a] && f[b] == o[b - r.len()]);
                assert(f[a].path[p.len() as int] < n - 1);
                assert(f[b].path[p.len() as int] == n - 1);
            } else {
                assert(f[a] == o[a - r.len()] && f[b] == o[b - r.len()]);
            }
        }
    }
}

proof fn lemma_flat_nodes(nodes: Seq<TreeV>, p: Seq<usize>, depth: usize)
    requires
        tree_fits(nodes),
    ensures
        paths_below(flat_nodes(nodes, p, depth), p, nodes.len()),
        paths_distinct(flat_nodes(nodes, p, depth)),
    decreases nodes, nodes.len() + 1,
{
    lemma_flat_range(nodes, p, depth, nodes.len());
}

proof fn lemma_path_pos_distinct(f: Seq<FlatV>, k: int)
    requires
        paths_distinct(f),
        0 <= k < f.len(),
    ensures
        path_pos(f, f[k].path) == Some(k as nat),
    decreases f.len(),
{
    let g = f.drop_last();
    assert(paths_distinct(g)) by {
        assert forall|a: int, b: int| 0 <= a < b < g.len() implies (#[trigger] g[a]).path != (#[trigger] g[b]).path by {
            assert(g[a] == f[a] && g[b] == f[b]);
        }
    }
    if k < f.len() - 1 {
        assert(g[k] == f[k]);
        lemma_path_pos_distinct(g, k);
    } else {
        lemma_path_pos_bound(g, f[k].path);
        if let Some(j) = path_pos(g, f[k].path) {
            assert(g[j as int] == f[j as int]);
        }
    }
}

/// The visible rows of a tree have distinct paths, and each path is longer
/// than the empty one.
pub proof fn lemma_rows_distinct(nodes: Seq<TreeV>)
    requires
        tree_fits(nodes),
    ensures
        paths_distinct(flat_tree(nodes)),
        forall|a: int| 0 <= a < flat_tree(nodes).len() ==> (#[trigger] flat_tree(nodes)[a]).path.len() > 0,
{
    lemma_flat_nodes(nodes, Seq::empty(), 0);
}

/// Moving down from a visible row that has a row below it, then up, comes
/// back to the same row.
pub proof fn lemma_down_then_up(nodes: Seq<TreeV>, sel: Seq<usize>)
    requires
        tree_fits(nodes),
        path_pos(flat_tree(nodes), sel) matches Some(i) && i + 1 < flat_tree(nodes).len(),
    ensures
        up_selection(flat_tree(nodes), down_selection(flat_tree(nodes), sel)) == sel,
{
    let f = flat_tree(nodes);
    lemma_rows_distinct(nodes);
    lemma_path_pos_bound(f, sel);
    let i = path_pos(f, sel)->Some_0;
    assert(f[i as int].path.len() > 0);
    lemma_path_pos_distinct(f, (i + 1) as int);
    assert(f[(i + 1) as int].path.len() > 0);
}

/// Moving up from a visible row that has a row above it, then down, comes
/// back to the same row.
pub proof fn lemma_up_then_down(nodes: Seq<TreeV>, sel: Seq<usize>)
    requires
        tree_fits(nodes),
        path_pos(flat_tree(nodes), sel) matches Some(i) && i > 0,
    ensures
        down_selection(flat_tree(nodes), up_selection(flat_tree(nodes), sel)) == sel,
{
    let f = flat_tree(nodes);
    lemma_rows_distinct(nodes);
    lemma_path_pos_bound(f, sel);
    let i = path_pos(f, sel)->Some_0;
    assert(f[i as int].path.len() > 0);
    lemma_path_pos_distinct(f, (i - 1) as int);
    assert(f[(i - 1) as int].path.len() > 0);
}

proof fn lemma_set_opened_at(nodes: Seq<TreeV>, p: Seq<usize>, v: bool)
    requires
        node_at(nodes, p) is Some,
    ensures
        node_at(set_opened(nodes, p, v), p) == Some(
            TreeV { opened: v, ..node_at(nodes, p)->Some_0 },
        ),
    decreases p.len(),
{
    if p.len() > 1 {
        let n = nodes[p[0] as int];
        lemma_set_opened_at(n.children, p.drop_first(), v);
    }
}

proof fn lemma_set_opened_restore(nodes: Seq<TreeV>, p: Seq<usize>, v: bool)
    requires
        node_at(nodes, p) matches Some(n) && n.opened == v,
    ensures
        set_opened(nodes, p, v) == nodes,
    decreases p.len(),
{
    let n = nodes[p[0] as int];
    if p.len() > 1 {
        lemma_set_opened_restore(n.children, p.drop_first(), v);
    }
    assert(set_opened(nodes, p, v) =~= nodes);
}

proof fn lemma_set_opened_twice(nodes: Seq<TreeV>, p: Seq<usize>, v: bool, w: bool)
    ensures
        set_opened(set_opened(nodes, p, v), p, w) == set_opened(nodes, p, w),
    decreases p.len(),
{
    if p.len() > 0 && p[0] < nodes.len() {
        let n = nodes[p[0] as int];
        if p.len() > 1 {
            lemma_set_opened_twice(n.children, p.drop_first(), v, w);
        }
        assert(set_opened(set_opened(nodes, p, v), p, w) =~= set_opened(nodes, p, w));
    }
}

/// Opening the selected entry (moving right) and then moving left closes
/// it again: the state is back to what it was.
pub proof fn lemma_right_then_left(s: DescTreeV)
    requires
        node_at(s.nodes, s.selected) matches Some(n) && n.children.len() > 0 && !n.opened,
    ensures
        left_state(right_state(s)) == s,
{
    let p = s.selected;
    lemma_set_opened_at(s.nodes, p, true);
    lemma_set_opened_twice(s.nodes, p, true, false);
    lemma_set_opened_restore(s.nodes, p, false);
}

// ---------------------------------------------------------------------------
// Row layout
// ---------------------------------------------------------------------------

/// How many lines `textwrap::wrap` breaks `text` into at `width` columns.
pub uninterp spec fn wrapped_line_count(text: Seq<char>, width: usize) -> nat;

/// Calls `textwrap::wrap(text, width)` and counts the lines it returns. The
/// contract names that count and claims nothing more about how the text is
/// broken.
#[verifier::external_body]
fn wrap_count(text: &str, width: usize) -> (n: usize)
    ensures
        n as nat == wrapped_line_count(text@, width),
{
    textwrap::wrap(text, width).len()
}

/// The rows an entry's text takes at `width` columns: none at width 0,
/// else its wrapped lines, at least one.
pub open spec fn text_height(text: Seq<char>, width: usize) -> nat {
    if width == 0 {
        0
    } else if wrapped_line_count(text, width) == 0 {
        1
    } else {
        wrapped_line_count(text, width)
    }
}

fn compute_text_height(text: &str, width: usize) -> (h: usize)
    ensures
        h as nat == text_height(text@, width),
{
    if width == 0 {
        return 0;
    }
    let n = wrap_count(text, width);
    if n == 0 {
        1
    } else {
        n
    }
}

/// The layout of one visible row: a separator line above it (all but the
/// first top-level row), the height of its text, the width of its
/// indentation and marker, and the width left for the text.
pub struct ItemLayoutV {
    pub sep: bool,
    pub node_h: nat,
    pub indent_width: usize,
    pub para_width: usize,
}

pub open spec fn item_layout(f: FlatV, content_w: usize) -> ItemLayoutV {
    let indent_width = f.depth.saturating_add(f.depth).saturating_add(2);
    let para_width = if content_w.saturating_sub(indent_width) == 0 {
        1usize
    } else {
        content_w.saturating_sub(indent_width)
    };
    let h = text_height(f.node.text, para_width);
    ItemLayoutV { sep: !f.root || f.depth > 0, node_h: if h == 0 { 1 } else { h }, indent_width, para_width }
}

pub open spec fn layouts(f: Seq<FlatV>, content_w: usize) -> Seq<ItemLayoutV> {
    Seq::new(f.len(), |i: int| item_layout(f[i], content_w))
}

/// The rows a laid-out entry takes, its separator included.
pub open spec fn item_rows(l: ItemLayoutV) -> int {
    (if l.sep { 1int } else { 0int }) + l.node_h
}

/// The first row of the `i`-th entry (its separator, if any).
pub open spec fn row_start(lay: Seq<ItemLayoutV>, i: nat) -> int
    decreases i,
{
    if i == 0 || i > lay.len() {
        0
    } else {
        row_start(lay, (i - 1) as nat) + item_rows(lay[i - 1])
    }
}

/// The row where the text of the last entry at path `sel` among the first
/// `n` starts, if there is one.
pub open spec fn selected_row(f: Seq<FlatV>, lay: Seq<ItemLayoutV>, sel: Seq<usize>, n: nat) -> Option<int>
    decreases n,
{
    if n == 0 || n > f.len() {
        None
    } else if f[n - 1].path == sel {
        Some(row_start(lay, (n - 1) as nat) + if lay[n - 1].sep { 1int } else { 0int })
    } else {
        selected_row(f, lay, sel, (n - 1) as nat)
    }
}

struct ItemLayout {
    sep: bool,
    node_h: usize,
    indent_width: usize,
    para_width: usize,
}

spec fn layout_view(l: ItemLayout) -> ItemLayoutV {
    ItemLayoutV { sep: l.sep, node_h: l.node_h as nat, indent_width: l.indent_width, para_width: l.para_width }
}

spec fn layouts_view(s: Seq<ItemLayout>) -> Seq<ItemLayoutV> {
    Seq::new(s.len(), |i: int| layout_view(s[i]))
}

proof fn lemma_row_start_mono(lay: Seq<ItemLayoutV>, i: nat, j: nat)
    requires
        i <= j <= lay.len(),
    ensures
        row_start(lay, i) <= row_start(lay, j),
    decreases j,
{
    if i < j {
        lemma_row_start_mono(lay, i, (j - 1) as nat);
    }
}

proof fn lemma_selected_row_bound(f: Seq<FlatV>, lay: Seq<ItemLayoutV>, sel: Seq<usize>, n: nat)
    requires
        n <= lay.len(),
        forall|k: int| 0 <= k < lay.len() ==> (#[trigger] lay[k]).node_h >= 1,
    ensures
        selected_row(f, lay, sel, n) matches Some(x) ==> 0 <= x < row_start(lay, n),
    decreases n,
{
    if n > 0 && n <= f.len() {
        lemma_row_start_mono(lay, 0, (n - 1) as nat);
        lemma_selected_row_bound(f, lay, sel, (n - 1) as nat);
        lemma_row_start_mono(lay, (n - 1) as nat, n);
    }
}

impl ItemLayout {
    /// The layout of every visible row at `content_w` columns, the number
    /// of rows they take, and the row where the selected entry's text
    /// starts. The counts are exact whenever they fit in a `usize`.
    fn layout_from_tree(flat: &Vec<Flat>, selected: &Vec<usize>, content_w: usize) -> (r: (Vec<ItemLayout>, usize, Option<usize>))
        ensures
            layouts_view(r.0@) == layouts(flats_view(flat@), content_w),
            row_start(layouts(flats_view(flat@), content_w), flat@.len() as nat) <= usize::MAX ==> {
                &&& r.1 == row_start(layouts(flats_view(flat@), content_w), flat@.len() as nat)
                &&& r.2 == match selected_row(flats_view(flat@), layouts(flats_view(flat@), content_w), selected@, flat@.len() as nat) {
                    Some(x) => Some(x as usize),
                    None => None::<usize>,
                }
            },
    {
        let ghost fv = flats_view(flat@);
        let ghost lay = layouts(fv, content_w);
        let mut out: Vec<ItemLayout> = Vec::new();
        let mut total: usize = 0;
        let mut sel_row: Option<usize> = None;
        let mut i: usize = 0;
        while i < flat.len()
            invariant
                fv == flats_view(flat@),
                lay == layouts(fv, content_w),
                i <= flat.len(),
                layouts_view(out@) == lay.subrange(0, i as int),
                row_start(lay, i as nat) <= usize::MAX ==> total == row_start(lay, i as nat),
                row_start(lay, i as nat) <= usize::MAX ==> sel_row == match selected_row(fv, lay, selected@, i as nat) {
                    Some(x) => Some(x as usize),
                    None => None::<usize>,
                },
            decreases flat.len() - i,
        {
            let item = &flat[i];
            proof {
                assert(layouts_view(out@).len() == out@.len());
                assert(out@.len() == i);
                assert(fv[i as int] == flat_view(*item));
                assert(lay[i as int] == item_layout(fv[i as int], content_w));
            }
            let sep = !item.root || item.depth > 0;
            let indent_width = item.depth.saturating_add(item.depth).saturating_add(2);
            let rest = content_w.saturating_sub(indent_width);
            let para_width = if rest == 0 { 1 } else { rest };
            let h = compute_text_height(item.node.text.as_str(), para_width);
            let node_h = if h == 0 { 1 } else { h };
            let s: usize = if sep { 1 } else { 0 };
            proof {
                assert(row_start(lay, (i + 1) as nat) == row_start(lay, i as nat) + s + node_h);
                lemma_row_start_mono(lay, i as nat, (i + 1) as nat);
            }
            if same_path(&item.path, selected) {
                sel_row = Some(total.saturating_add(s));
            }
            total = total.saturating_add(s).saturating_add(node_h);
            out.push(ItemLayout { sep, node_h, indent_width, para_width });
            proof {
                assert(fv[i as int].node.text == item.node.text@);
                assert(layout_view(out@[i as int]) == lay[i as int]);
                assert(layouts_view(out@) =~= lay.subrange(0, i + 1));
            }
            i += 1;
        }
        proof {
            assert(layouts_view(out@) =~= lay);
        }
        (out, total, sel_row)
    }
}

// ---------------------------------------------------------------------------
// The viewport
// ---------------------------------------------------------------------------

/// A window onto the rows of the tree: how many rows are still to be
/// skipped above it, the screen row to draw next, and the screen row below
/// its bottom.
pub struct Viewport {
    offset: usize,
    row: u16,
    bottom_row: u16,
}

pub struct ViewportV {
    pub offset: usize,
    pub row: u16,
    pub bottom_row: u16,
}

impl View for Viewport {
    type V = ViewportV;

    closed spec fn view(&self) -> ViewportV {
        ViewportV { offset: self.offset, row: self.row, bottom_row: self.bottom_row }
    }
}

/// Whether a run of rows shows in the viewport.
#[derive(Debug, Clone, Copy, PartialEq, Eq, Structural)]
pub enum Visibility {
    /// The rows are all above the viewport.
    Hidden,
    /// Some of the rows show; `offset` of them are above the viewport.
    Visible { offset: usize },
}

impl Viewport {
    /// A viewport with `offset` rows scrolled above it, drawing from screen
    /// row `row` down to (not including) `bottom_row`.
    pub fn new(offset: usize, row: u16, bottom_row: u16) -> (r: Self)
        ensures
            r@ == (ViewportV { offset, row, bottom_row }),
    {
        Viewport { offset, row, bottom_row }
    }

    /// Places a run of `span_h` rows: if all of them are still above the
    /// viewport they are skipped (and counted off the offset), otherwise
    /// they show with the current offset.
    pub fn clip(&mut self, span_h: usize) -> (r: Visibility)
        ensures
            old(self)@.offset >= span_h ==> r == Visibility::Hidden && final(self)@ == (ViewportV {
                offset: (old(self)@.offset - span_h) as usize,
                ..old(self)@
            }),
            old(self)@.offset < span_h ==> r == (Visibility::Visible { offset: old(self)@.offset }) && final(self)@
                == old(self)@,
            final(self)@ == viewport_step(old(self)@, ViewportStep::Clip(span_h)),
    {
        if self.offset >= span_h {
            self.offset = self.offset - span_h;
            Visibility::Hidden
        } else {
            Visibility::Visible { offset: self.offset }
        }
    }

    /// Counts `n` rows off the offset (not below zero).
    pub fn advance_offset(&mut self, n: usize)
        ensures
            final(self)@ == (ViewportV { offset: old(self)@.offset.saturating_sub(n), ..old(self)@ }),
            final(self)@ == viewport_step(old(self)@, ViewportStep::AdvanceOffset(n)),
    {
        self.offset = self.offset.saturating_sub(n);
    }

    /// The screen row to draw next.
    pub fn curr_row(&self) -> (r: u16)
        ensures
            r == self@.row,
    {
        self.row
    }

    /// Moves down `rows` screen rows.
    pub fn advance(&mut self, rows: u16)
        requires
            old(self)@.row + rows <= u16::MAX,
        ensures
            final(self)@ == (ViewportV { row: (old(self)@.row + rows) as u16, ..old(self)@ }),
            final(self)@ == viewport_step(old(self)@, ViewportStep::Advance(rows)),
    {
        self.row = self.row + rows;
    }

    /// How many of `span_h` rows, `offset` of which are above the viewport,
    /// fit between the current row and the bottom.
    pub fn visible_rows(&self, span_h: usize, offset: usize) -> (r: usize)
        requires
            offset <= span_h,
        ensures
            r == (if span_h - offset < self@.bottom_row.saturating_sub(self@.row) {
                span_h - offset
            } else {
                self@.bottom_row.saturating_sub(self@.row) as int
            }),
    {
        let available = self.bottom_row.saturating_sub(self.row) as usize;
        let rest = span_h - offset;
        if rest < available {
            rest
        } else {
            available
        }
    }

    /// Whether no row is left to draw.
    pub fn is_full(&self) -> (r: bool)
        ensures
            r == (self@.row >= self@.bottom_row),
            r == viewport_full(self@),
    {
        self.row >= self.bottom_row
    }
}

/// One of the calls that move a viewport on: `advance`, `clip` or
/// `advance_offset`, with its argument.
pub enum ViewportStep {
    Advance(u16),
    Clip(usize),
    AdvanceOffset(usize),
}

/// The viewport after one call.
pub open spec fn viewport_step(vp: ViewportV, s: ViewportStep) -> ViewportV {
    match s {
        ViewportStep::Advance(rows) => ViewportV { row: (vp.row + rows) as u16, ..vp },
        ViewportStep::Clip(h) => if vp.offset >= h {
            ViewportV { offset: (vp.offset - h) as usize, ..vp }
        } else {
            vp
        },
        ViewportStep::AdvanceOffset(n) => ViewportV { offset: vp.offset.saturating_sub(n), ..vp },
    }
}

/// The viewport after a sequence of calls.
pub open spec fn run_viewport(vp: ViewportV, steps: Seq<ViewportStep>) -> ViewportV
    decreases steps.len(),
{
    if steps.len() == 0 {
        vp
    } else {
        run_viewport(viewport_step(vp, steps[0]), steps.drop_first())
    }
}

/// Every `advance` in the sequence stays within the screen rows, as that
/// call requires.
pub open spec fn viewport_steps_fit(vp: ViewportV, steps: Seq<ViewportStep>) -> bool
    decreases steps.len(),
{
    steps.len() == 0 || ((steps[0] matches ViewportStep::Advance(rows) ==> vp.row + rows <= u16::MAX)
        && viewport_steps_fit(viewport_step(vp, steps[0]), steps.drop_first()))
}

/// No row is left to draw.
pub open spec fn viewport_full(vp: ViewportV) -> bool {
    vp.row >= vp.bottom_row
}

/// No sequence of calls moves a viewport's bottom row: whether it is full
/// always compares the current row with the bottom row it was made with.
pub proof fn lemma_viewport_bottom_kept(vp: ViewportV, steps: Seq<ViewportStep>)
    ensures
        run_viewport(vp, steps).bottom_row == vp.bottom_row,
    decreases steps.len(),
{
    if steps.len() > 0 {
        lemma_viewport_bottom_kept(viewport_step(vp, steps[0]), steps.drop_first());
    }
}

/// Once a viewport is full it stays full, whatever `advance`, `clip` and
/// `advance_offset` calls follow.
pub proof fn lemma_full_stays_full(vp: ViewportV, steps: Seq<ViewportStep>)
    requires
        viewport_full(vp),
        viewport_steps_fit(vp, steps),
    ensures
        viewport_full(run_viewport(vp, steps)),
    decreases steps.len(),
{
    if steps.len() > 0 {
        lemma_full_stays_full(viewport_step(vp, steps[0]), steps.drop_first());
    }
}

// ---------------------------------------------------------------------------
// What to draw
// ---------------------------------------------------------------------------

/// One thing to draw: a separator line, or (part of) an entry, with the
/// screen row it starts at.
pub enum DrawItem {
    Separator { depth: usize, row: u16 },
    Entry {
        text: String,
        span: PatternSpan,
        depth: usize,
        has_children: bool,
        opened: bool,
        selected: bool,
        row: u16,
        /// Rows of the entry's text scrolled above the viewport.
        offset: usize,
        /// Rows of the entry's text that show.
        visible: usize,
        indent_width: usize,
        para_width: usize,
    },
}

pub enum DrawV {
    Separator { depth: usize, row: u16 },
    Entry {
        text: Seq<char>,
        span: PatternSpan,
        depth: usize,
        has_children: bool,
        opened: bool,
        selected: bool,
        row: u16,
        offset: usize,
        visible: usize,
        indent_width: usize,
        para_width: usize,
    },
}

pub open spec fn draw_view(d: DrawItem) -> DrawV {
    match d {
        DrawItem::Separator { depth, row } => DrawV::Separator { depth, row },
        DrawItem::Entry {
            text,
            span,
            depth,
            has_children,
            opened,
            selected,
            row,
            offset,
            visible,
            indent_width,
            para_width,
        } => DrawV::Entry {
            text: text@,
            span,
            depth,
            has_children,
            opened,
            selected,
            row,
            offset,
            visible,
            indent_width,
            para_width,
        },
    }
}

pub open spec fn draws_view(s: Seq<DrawItem>) -> Seq<DrawV> {
    Seq::new(s.len(), |i: int| draw_view(s[i]))
}

/// The scroll after keeping the selected row in a window of `hgt` rows,
/// and not scrolling past the last full window.
pub open spec fn scroll_after(v: int, sel: Option<int>, total: int, hgt: int) -> int {
    let v1 = match sel {
        Some(r) => if r < v {
            r
        } else if r >= v + hgt {
            r + 1 - hgt
        } else {
            v
        },
        None => v,
    };
    let cap = if total - hgt > 0 {
        total - hgt
    } else {
        0
    };
    if cap < v1 {
        cap
    } else {
        v1
    }
}

/// What of an entry that starts at row `a` of the tree shows in the window
/// of rows `v..v + hgt` drawn from screen row `y`: its separator if that
/// row is in the window, and the part of its text that is.
pub open spec fn item_draws(f: FlatV, l: ItemLayoutV, a: int, v: int, y: int, hgt: int, sel: Seq<usize>) -> Seq<DrawV> {
    let b = a + if l.sep { 1int } else { 0int };
    let e = b + l.node_h;
    let top = if b > v { b } else { v };
    let bottom = if e < v + hgt { e } else { v + hgt };
    (if l.sep && v <= a < v + hgt {
        seq![DrawV::Separator { depth: f.depth, row: (y + a - v) as u16 }]
    } else {
        Seq::empty()
    }) + if e > v && b < v + hgt {
        seq![
            DrawV::Entry {
                text: f.node.text,
                span: f.node.span,
                depth: f.depth,
                has_children: f.node.children.len() > 0,
                opened: f.node.opened,
                selected: f.path == sel,
                row: (y + top - v) as u16,
                offset: (top - b) as usize,
                visible: (bottom - top) as usize,
                indent_width: l.indent_width,
                para_width: l.para_width,
            },
        ]
    } else {
        Seq::empty()
    }
}

/// What the first `n` rows show in the window.
pub open spec fn plan_draws(
    f: Seq<FlatV>,
    lay: Seq<ItemLayoutV>,
    v: int,
    y: int,
    hgt: int,
    sel: Seq<usize>,
    n: nat,
) -> Seq<DrawV>
    decreases n,
{
    if n == 0 || n > f.len() {
        Seq::empty()
    } else {
        plan_draws(f, lay, v, y, hgt, sel, (n - 1) as nat) + item_draws(
            f[n - 1],
            lay[n - 1],
            row_start(lay, (n - 1) as nat),
            v,
            y,
            hgt,
            sel,
        )
    }
}

proof fn lemma_rest_hidden(
    f: Seq<FlatV>,
    lay: Seq<ItemLayoutV>,
    v: int,
    y: int,
    hgt: int,
    sel: Seq<usize>,
    i: nat,
    n: nat,
)
    requires
        i <= n <= f.len(),
        lay.len() == f.len(),
        row_start(lay, i) >= v + hgt,
    ensures
        plan_draws(f, lay, v, y, hgt, sel, n) == plan_draws(f, lay, v, y, hgt, sel, i),
    decreases n,
{
    if i < n {
        lemma_rest_hidden(f, lay, v, y, hgt, sel, i, (n - 1) as nat);
        lemma_row_start_mono(lay, i, (n - 1) as nat);
        assert(item_draws(f[n - 1], lay[n - 1], row_start(lay, (n - 1) as nat), v, y, hgt, sel) =~= Seq::empty());
    }
}


/// Where the viewport stands when the tree's row `a` is next: rows above
/// the window are still being skipped, rows below it are drawn from the
/// matching screen row on.
pub open spec fn viewport_at(vp: ViewportV, a: int, v: int, y: int, hgt: int) -> bool {
    &&& vp.bottom_row == y + hgt
    &&& a <= v ==> vp.offset == v - a && vp.row == y
    &&& a > v ==> vp.offset == 0 && vp.row == y + (if a - v < hgt { a - v } else { hgt })
}

/// Draws one entry (starting at tree row `a`) into `out`; returns whether
/// the viewport filled up right after its separator.
fn place_item(
    vp: &mut Viewport,
    out: &mut Vec<DrawItem>,
    item: &Flat,
    l: &ItemLayout,
    selected: &Vec<usize>,
    Ghost(a): Ghost<int>,
    Ghost(v): Ghost<int>,
    Ghost(y): Ghost<int>,
    Ghost(hgt): Ghost<int>,
    Ghost(fits): Ghost<bool>,
) -> (full: bool)
    requires
        old(vp)@.row < old(vp)@.bottom_row,
        old(vp)@.bottom_row == y + hgt,
        hgt > 0,
        l.node_h >= 1,
        fits ==> a >= 0 && a + item_rows(layout_view(*l)) <= usize::MAX && viewport_at(old(vp)@, a, v, y, hgt),
    ensures
        final(vp)@.bottom_row == old(vp)@.bottom_row,
        final(vp)@.row <= final(vp)@.bottom_row,
        fits ==> draws_view(final(out)@) == draws_view(old(out)@) + item_draws(
            flat_view(*item),
            layout_view(*l),
            a,
            v,
            y,
            hgt,
            selected@,
        ),
        fits && full ==> a + (if l.sep { 1int } else { 0int }) >= v + hgt,
        fits && !full ==> viewport_at(final(vp)@, a + item_rows(layout_view(*l)), v, y, hgt),
{
    let ghost before = draws_view(out@);
    let ghost lv = layout_view(*l);
    let ghost fl = flat_view(*item);
    let s: usize = if l.sep { 1 } else { 0 };
    let item_height = l.node_h.saturating_add(s);
    if let Visibility::Hidden = vp.clip(item_height) {
        proof {
            if fits {
                assert(item_draws(fl, lv, a, v, y, hgt, selected@) =~= Seq::empty());
                assert(draws_view(out@) =~= before + item_draws(fl, lv, a, v, y, hgt, selected@));
            }
        }
        return false;
    }
    if l.sep {
        if let Visibility::Visible { .. } = vp.clip(1) {
            out.push(DrawItem::Separator { depth: item.depth, row: vp.curr_row() });
            vp.advance(1);
            vp.advance_offset(1);
            if vp.is_full() {
                proof {
                    if fits {
                        assert(item_draws(fl, lv, a, v, y, hgt, selected@) =~= seq![
                            DrawV::Separator { depth: item.depth, row: (y + a - v) as u16 },
                        ]);
                        assert(draws_view(out@) =~= before + item_draws(fl, lv, a, v, y, hgt, selected@));
                    }
                }
                return true;
            }
        }
    }
    match vp.clip(l.node_h) {
        Visibility::Visible { offset } => {
            let visible = vp.visible_rows(l.node_h, offset);
            vp.advance_offset(offset);
            let text = item.node.text.clone();
            out.push(
                DrawItem::Entry {
                    text,
                    span: item.node.span,
                    depth: item.depth,
                    has_children: item.node.children.len() > 0,
                    opened: item.node.opened,
                    selected: same_path(&item.path, selected),
                    row: vp.curr_row(),
                    offset,
                    visible,
                    indent_width: l.indent_width,
                    para_width: l.para_width,
                },
            );
            vp.advance(visible as u16);
            proof {
                if fits {
                    assert(fl.node.children.len() == item.node.children@.len());
                    assert(draws_view(out@) =~= before + item_draws(fl, lv, a, v, y, hgt, selected@));
                }
            }
        },
        Visibility::Hidden => {
            proof {
                if fits {
                    assert(false);
                }
            }
        },
    }
    false
}

impl DescTreeWidget {
    /// What to draw in an area of `width` by `height` cells whose top row
    /// is screen row `y`, after scrolling so that the selected entry's text
    /// starts inside the area and the area is not scrolled past the last
    /// row. Nothing is drawn in an area narrower than two cells or of no
    /// height. The result is as stated whenever the tree's row count fits
    /// in a `usize`.
    pub fn render_plan(&mut self, y: u16, width: u16, height: u16) -> (r: Vec<DrawItem>)
        requires
            y + height <= u16::MAX,
            old(self)@.vscroll + height <= usize::MAX,
        ensures
            final(self)@.nodes == old(self)@.nodes,
            final(self)@.selected == old(self)@.selected,
            (width < 2 || height == 0) ==> r@.len() == 0 && final(self)@ == old(self)@,
            ({
                let f = flat_tree(old(self)@.nodes);
                let lay = layouts(f, width as usize);
                let total = row_start(lay, f.len());
                let v = scroll_after(
                    old(self)@.vscroll as int,
                    selected_row(f, lay, old(self)@.selected, f.len()),
                    total,
                    height as int,
                );
                (width >= 2 && height > 0 && total <= usize::MAX) ==> {
                    &&& final(self)@.vscroll == v
                    &&& draws_view(r@) == plan_draws(f, lay, v, y as int, height as int, old(self)@.selected, f.len())
                }
            }),
    {
        let mut out: Vec<DrawItem> = Vec::new();
        if width < 2 || height == 0 {
            return out;
        }
        let content_w = width as usize;
        let content_h = height as usize;
        let flat = flatten(&self.nodes);
        let ghost fv = flats_view(flat@);
        let ghost lay = layouts(fv, content_w);
        let ghost n = flat@.len() as nat;
        let ghost fits = row_start(lay, n) <= usize::MAX;
        let (layout, total, sel_row) = ItemLayout::layout_from_tree(&flat, &self.selected, content_w);
        proof {
            assert(layouts_view(layout@).len() == layout@.len());
            assert forall|k: int| 0 <= k < lay.len() implies (#[trigger] lay[k]).node_h >= 1 by {
                assert(lay[k] == item_layout(fv[k], content_w));
            }
            lemma_selected_row_bound(fv, lay, self.selected@, n);
        }
        if let Some(row) = sel_row {
            if row < self.vscroll {
                self.vscroll = row;
            } else if row >= self.vscroll + content_h {
                self.vscroll = row - content_h + 1;
            }
        }
        let cap = total.saturating_sub(content_h);
        if cap < self.vscroll {
            self.vscroll = cap;
        }
        let ghost v = self.vscroll as int;
        let ghost sel = self.selected@;
        let ghost hgt = height as int;
        let ghost yy = y as int;
        let mut vp = Viewport::new(self.vscroll, y, y + height);
        let mut i: usize = 0;
        while i < flat.len()
            invariant_except_break
                vp@.row <= vp@.bottom_row,
                fits ==> draws_view(out@) == plan_draws(fv, lay, v, yy, hgt, sel, i as nat),
                fits ==> viewport_at(vp@, row_start(lay, i as nat), v, yy, hgt),
            invariant
                fv == flats_view(flat@),
                lay == layouts(fv, content_w),
                n == flat@.len(),
                fits == (row_start(lay, n) <= usize::MAX),
                layouts_view(layout@) == lay,
                layout@.len() == flat@.len(),
                sel == self.selected@,
                v == self.vscroll,
                hgt == height,
                hgt > 0,
                yy == y,
                yy + hgt <= u16::MAX,
                i <= flat.len(),
                vp@.bottom_row == y + height,
            ensures
                fits ==> draws_view(out@) == plan_draws(fv, lay, v, yy, hgt, sel, n),
            decreases flat.len() - i,
        {
            proof {
                lemma_row_start_mono(lay, 0, i as nat);
                if fits {
                    lemma_row_start_mono(lay, (i + 1) as nat, n);
                    lemma_row_start_mono(lay, i as nat, n);
                }
            }
            if vp.is_full() {
                proof {
                    if fits {
                        lemma_rest_hidden(fv, lay, v, yy, hgt, sel, i as nat, n);
                    }
                }
                break;
            }
            let l = &layout[i];
            let item = &flat[i];
            let ghost a = row_start(lay, i as nat);
            proof {
                assert(layout_view(*l) == lay[i as int]);
                assert(fv[i as int] == flat_view(*item));
                assert(row_start(lay, (i + 1) as nat) == a + item_rows(lay[i as int]));
                assert(lay[i as int].node_h >= 1);
            }
            let full = place_item(&mut vp, &mut out, item, l, &self.selected, Ghost(a), Ghost(v), Ghost(yy), Ghost(hgt), Ghost(fits));
            if full {
                proof {
                    if fits {
                        lemma_rest_hidden(fv, lay, v, yy, hgt, sel, (i + 1) as nat, n);
                    }
                }
                break;
            }
            i += 1;
        }
        out
    }
}

/// After drawing, the row where the selected entry's text starts lies in
/// the window, and the window does not reach past the last row when the
/// tree has more rows than the window.
pub proof fn lemma_selection_in_view(nodes: Seq<TreeV>, sel: Seq<usize>, width: usize, v0: usize, height: int)
    requires
        height > 0,
    ensures
        ({
            let f = flat_tree(nodes);
            let lay = layouts(f, width);
            let total = row_start(lay, f.len());
            let v = scroll_after(v0 as int, selected_row(f, lay, sel, f.len()), total, height);
            &&& 0 <= v
            &&& (total >= height ==> v + height <= total)
            &&& (selected_row(f, lay, sel, f.len()) matches Some(r) ==> v <= r < v + height)
        }),
{
    let f = flat_tree(nodes);
    let lay = layouts(f, width);
    assert forall|k: int| 0 <= k < lay.len() implies (#[trigger] lay[k]).node_h >= 1 by {
        assert(lay[k] == item_layout(f[k], width));
    }
    lemma_selected_row_bound(f, lay, sel, f.len());
    lemma_row_start_mono(lay, 0, f.len());
}

/// The entry that a shown description line becomes: its text, its span,
/// and the entries of its own shown sub-lines, closed.
pub open spec fn entry_tree(bytes: Seq<u8>, d: DescV) -> TreeV
    decreases d,
{
    TreeV { text: entry_text(bytes, d), span: d.span, children: to_trees_all(d.items, bytes), opened: false }
}

/// The entries built for description lines are, one for one and in order,
/// the entries of the lines shown in their place (lines without text being
/// replaced by their own sub-lines).
pub proof fn lemma_trees_follow_visible(s: Seq<DescV>, bytes: Seq<u8>)
    ensures
        to_trees_all(s, bytes).len() == visible_items(s).len(),
        forall|i: int|
            0 <= i < visible_items(s).len() ==> #[trigger] to_trees_all(s, bytes)[i] == entry_tree(
                bytes,
                visible_items(s)[i],
            ),
    decreases s,
{
    if s.len() > 0 {
        let pre = s.subrange(0, s.len() - 1);
        let last = s[s.len() - 1];
        lemma_trees_follow_visible(pre, bytes);
        let tp = to_trees_all(pre, bytes);
        let vp = visible_items(pre);
        if last.desc.len() == 0 {
            lemma_trees_follow_visible(last.items, bytes);
            let tl = to_trees_all(last.items, bytes);
            let vl = visible_items(last.items);
            assert(to_trees(last, bytes) == tl);
            assert(to_trees_all(s, bytes) == tp + tl);
            assert(visible_items(s) == vp + vl);
            assert forall|i: int| 0 <= i < visible_items(s).len() implies #[trigger] to_trees_all(s, bytes)[i]
                == entry_tree(bytes, visible_items(s)[i]) by {
                if i < vp.len() {
                    assert(tp[i] == entry_tree(bytes, vp[i]));
                } else {
                    assert(tl[i - vp.len()] == entry_tree(bytes, vl[i - vp.len()]));
                }
            }
        } else {
            assert(to_trees(last, bytes) == seq![entry_tree(bytes, last)]);
            assert(to_trees_all(s, bytes) == tp + seq![entry_tree(bytes, last)]);
            assert(visible_items(s) == vp + seq![last]);
            assert forall|i: int| 0 <= i < visible_items(s).len() implies #[trigger] to_trees_all(s, bytes)[i]
                == entry_tree(bytes, visible_items(s)[i]) by {
                if i < vp.len() {
                    assert(tp[i] == entry_tree(bytes, vp[i]));
                }
            }
        }
    }
}

/// Looking up a path in a description and in the entries built from its
/// sub-lines agree: whenever the path leads to an entry, the part of the
/// pattern found for it in the description is that entry's span (lines
/// without text are looked through in both).
pub proof fn lemma_path_span_of_entry(d: DescV, bytes: Seq<u8>, path: Seq<usize>)
    requires
        node_at(to_trees_all(d.items, bytes), path) is Some,
    ensures
        node_at(to_trees_all(d.items, bytes), path)->Some_0.span == path_span(d, path),
    decreases path.len(),
{
    let trees = to_trees_all(d.items, bytes);
    let vis = visible_items(d.items);
    lemma_trees_follow_visible(d.items, bytes);
    let p0 = path[0] as int;
    assert(0 <= p0 < trees.len());
    assert(trees[p0] == entry_tree(bytes, vis[p0]));
    assert(path_span(d, path) == path_span(vis[p0], path.drop_first()));
    if path.len() == 1 {
        assert(node_at(trees, path) == Some(trees[p0]));
        assert(path_span(vis[p0], path.drop_first()) == vis[p0].span);
    } else {
        assert(node_at(trees, path) == node_at(trees[p0].children, path.drop_first()));
        assert(trees[p0].children == to_trees_all(vis[p0].items, bytes));
        lemma_path_span_of_entry(vis[p0], bytes, path.drop_first());
    }
}

/// For a description whose top line has no text (a concatenation), the
/// part of the pattern explained by any entry of the tree built from it is
/// what `path_span` finds along the entry's path.
pub proof fn lemma_entry_span_matches(d: DescV, bytes: Seq<u8>, path: Seq<usize>)
    requires
        d.desc.len() == 0,
        node_at(to_trees(d, bytes), path) is Some,
    ensures
        node_at(to_trees(d, bytes), path)->Some_0.span == path_span(d, path),
{
    lemma_path_span_of_entry(d, bytes, path);
}

} // verus!
