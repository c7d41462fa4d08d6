//! A tree of styled one-line entries whose opened entries are kept as a set
//! of paths, drawn as a list of lines wrapped to the panel's width.
use vstd::prelude::*;
use crate::desctree::{copy_path, extend_path, same_path, scroll_after};

verus! {

/// A piece of text in one style.
pub struct Segment<S> {
    pub text: String,
    pub style: S,
}

pub struct SegV<S> {
    pub text: Seq<char>,
    pub style: S,
}

pub open spec fn seg_view<S>(s: Segment<S>) -> SegV<S> {
    SegV { text: s.text@, style: s.style }
}

pub open spec fn segs_view<S>(s: Seq<Segment<S>>) -> Seq<SegV<S>> {
    Seq::new(s.len(), |i: int| seg_view(s[i]))
}

pub open spec fn lines_view<S>(s: Seq<Vec<Segment<S>>>) -> Seq<Seq<SegV<S>>> {
    Seq::new(s.len(), |i: int| segs_view(s[i]@))
}

// ---------------------------------------------------------------------------
// Wrapping a styled line
// ---------------------------------------------------------------------------

/// The position of the first character of segment `i` in the whole line.
pub open spec fn seg_start<S>(segs: Seq<SegV<S>>, i: nat) -> int
    decreases i,
{
    if i == 0 || i > segs.len() {
        0
    } else {
        seg_start(segs, (i - 1) as nat) + segs[i - 1].text.len()
    }
}

/// The characters of segment `k` at positions `lo..hi` of the whole line,
/// with its style.
pub open spec fn piece<S>(segs: Seq<SegV<S>>, k: int, lo: int, hi: int) -> SegV<S> {
    let s = seg_start(segs, k as nat);
    let e = s + segs[k].text.len();
    let a = if s > lo { s } else { lo };
    let b = if e < hi { e } else { hi };
    SegV { text: segs[k].text.subrange(a - s, b - s), style: segs[k].style }
}

/// Whether segment `k` has characters at positions `lo..hi`.
pub open spec fn has_piece<S>(segs: Seq<SegV<S>>, k: int, lo: int, hi: int) -> bool {
    let s = seg_start(segs, k as nat);
    let e = s + segs[k].text.len();
    (if s > lo { s } else { lo }) < (if e < hi { e } else { hi })
}

/// The non-empty pieces of the first `n` segments at positions `lo..hi`,
/// in order.
pub open spec fn range_pieces<S>(segs: Seq<SegV<S>>, lo: int, hi: int, n: nat) -> Seq<SegV<S>>
    decreases n,
{
    if n == 0 || n > segs.len() {
        Seq::empty()
    } else {
        range_pieces(segs, lo, hi, (n - 1) as nat) + if has_piece(segs, n - 1, lo, hi) {
            seq![piece(segs, n - 1, lo, hi)]
        } else {
            Seq::empty()
        }
    }
}

/// A line wrapped at `width` characters: row `j` holds the characters
/// `j * width .. (j + 1) * width`, each part of a segment keeping its
/// style; an empty line is one empty row. At width 0 the line is left
/// whole.
pub open spec fn wrap_spec<S>(segs: Seq<SegV<S>>, width: int) -> Seq<Seq<SegV<S>>> {
    if width <= 0 {
        seq![segs]
    } else {
        let total = seg_start(segs, segs.len());
        let count = if total == 0 {
            1
        } else {
            (total + width - 1) / width
        };
        Seq::new(count as nat, |j: int| range_pieces(segs, j * width, (j + 1) * width, segs.len()))
    }
}

proof fn lemma_seg_start_nonneg<S>(segs: Seq<SegV<S>>, i: nat)
    ensures
        0 <= seg_start(segs, i),
    decreases i,
{
    if i > 0 && i <= segs.len() {
        lemma_seg_start_nonneg(segs, (i - 1) as nat);
    }
}

proof fn lemma_seg_start_mono<S>(segs: Seq<SegV<S>>, i: nat, j: nat)
    requires
        i <= j <= segs.len(),
    ensures
        0 <= seg_start(segs, i) <= seg_start(segs, j),
    decreases j,
{
    lemma_seg_start_nonneg(segs, i);
    if i < j {
        lemma_seg_start_mono(segs, i, (j - 1) as nat);
    }
}

/// Pieces up to `hi` change, when `hi` grows to `hi2`, only in segment
/// `i`, which covers `hi..hi2` and had no piece before `hi`.
proof fn lemma_range_extend<S>(segs: Seq<SegV<S>>, lo: int, hi: int, hi2: int, i: int, n: nat)
    requires
        0 <= i < segs.len(),
        n <= segs.len(),
        seg_start(segs, i as nat) <= hi <= hi2 <= seg_start(segs, (i + 1) as nat),
        !has_piece(segs, i, lo, hi),
    ensures
        range_pieces(segs, lo, hi2, n) == range_pieces(segs, lo, hi, n) + if i < n && has_piece(
            segs,
            i,
            lo,
            hi2,
        ) {
            seq![piece(segs, i, lo, hi2)]
        } else {
            Seq::empty()
        },
    decreases n,
{
    if n > 0 {
        lemma_range_extend(segs, lo, hi, hi2, i, (n - 1) as nat);
        let k = n - 1;
        if k < i {
            lemma_seg_start_mono(segs, (k + 1) as nat, i as nat);
            assert(piece(segs, k, lo, hi2) == piece(segs, k, lo, hi));
            assert(has_piece(segs, k, lo, hi2) == has_piece(segs, k, lo, hi));
        } else if k > i {
            lemma_seg_start_mono(segs, (i + 1) as nat, k as nat);
            assert(!has_piece(segs, k, lo, hi2));
            assert(!has_piece(segs, k, lo, hi));
        }
        assert(range_pieces(segs, lo, hi2, n) =~= range_pieces(segs, lo, hi, n) + if i < n && has_piece(
            segs,
            i,
            lo,
            hi2,
        ) {
            seq![piece(segs, i, lo, hi2)]
        } else {
            Seq::empty()
        });
    }
}

/// A range with no positions has no pieces; a range below the line's end
/// has some.
proof fn lemma_range_empty<S>(segs: Seq<SegV<S>>, lo: int, hi: int, n: nat)
    requires
        n <= segs.len(),
        0 <= lo,
        hi <= lo || seg_start(segs, n) <= lo,
    ensures
        range_pieces(segs, lo, hi, n) == Seq::<SegV<S>>::empty(),
    decreases n,
{
    if n > 0 {
        lemma_seg_start_mono(segs, 0, (n - 1) as nat);
        lemma_range_empty(segs, lo, hi, (n - 1) as nat);
    }
}

proof fn lemma_range_nonempty<S>(segs: Seq<SegV<S>>, lo: int, hi: int, n: nat)
    requires
        n <= segs.len(),
        0 <= lo < hi,
        lo < seg_start(segs, n),
    ensures
        range_pieces(segs, lo, hi, n).len() > 0,
    decreases n,
{
    if n > 0 {
        lemma_seg_start_mono(segs, 0, (n - 1) as nat);
        if lo < seg_start(segs, (n - 1) as nat) {
            lemma_range_nonempty(segs, lo, hi, (n - 1) as nat);
        }
    }
}

/// `line` wrapped at `width` characters (see `wrap_spec`).
pub fn wrap_line<S: Copy>(line: Vec<Segment<S>>, width: usize) -> (r: Vec<Vec<Segment<S>>>)
    ensures
        lines_view(r@) == wrap_spec(segs_view(line@), width as int),
{
    let ghost segs = segs_view(line@);
    let ghost nseg = line@.len() as nat;
    let ghost w = width as int;
    if width == 0 {
        let mut v: Vec<Vec<Segment<S>>> = Vec::new();
        v.push(line);
        proof {
            assert(lines_view(v@) =~= wrap_spec(segs, w));
        }
        return v;
    }
    let mut result: Vec<Vec<Segment<S>>> = Vec::new();
    let mut current: Vec<Segment<S>> = Vec::new();
    let mut col: usize = 0;
    let mut i: usize = 0;
    proof {
        assert(lines_view(result@) =~= Seq::new(0, |j: int| range_pieces(segs, j * w, (j + 1) * w, nseg)));
        lemma_range_empty(segs, 0, 0, nseg);
        assert(segs_view(current@) =~= Seq::<SegV<S>>::empty());
        assert(0int / w == 0 && 0int % w == 0) by (nonlinear_arith)
            requires
                w > 0,
        ;
        assert(0int * w == 0) by (nonlinear_arith);
    }
    while i < line.len()
        invariant
            segs == segs_view(line@),
            nseg == line@.len(),
            w == width,
            w > 0,
            i <= nseg,
            col < width,
            ({
                let p = seg_start(segs, i as nat);
                let l = p / w;
                &&& col == p % w
                &&& lines_view(result@) == Seq::new(l as nat, |j: int| range_pieces(segs, j * w, (j + 1) * w, nseg))
                &&& segs_view(current@) == range_pieces(segs, l * w, p, nseg)
            }),
        decreases nseg - i,
    {
        let seg = &line[i];
        let style = seg.style;
        let n = seg.text.as_str().unicode_len();
        let mut consumed: usize = 0;
        proof {
            assert(segs[i as int] == seg_view(*seg));
            lemma_seg_start_mono(segs, 0, i as nat);
        }
        while consumed < n
            invariant
                segs == segs_view(line@),
                nseg == line@.len(),
                w == width,
                w > 0,
                i < nseg,
                n == segs[i as int].text.len(),
                segs[i as int] == seg_view(line@[i as int]),
                style == line@[i as int].style,
                consumed <= n,
                col < width,
                consumed == 0 || col == 0 || consumed == n,
                ({
                    let p = seg_start(segs, i as nat) + consumed;
                    let l = p / w;
                    &&& p >= 0
                    &&& col == p % w
                    &&& lines_view(result@) == Seq::new(
                        l as nat,
                        |j: int| range_pieces(segs, j * w, (j + 1) * w, nseg),
                    )
                    &&& segs_view(current@) == range_pieces(segs, l * w, p, nseg)
                }),
            decreases n - consumed,
        {
            let ghost p = seg_start(segs, i as nat) + consumed;
            let ghost l = p / w;
            let ghost c0 = col as int;
            let space = width - col;
            let take = if n - consumed < space { n - consumed } else { space };
            let chunk = line[i].text.as_str().substring_char(consumed, consumed + take);
            let chunk_string = String::from_str(chunk);
            let ghost before = segs_view(current@);
            current.push(Segment { text: chunk_string, style });
            let ghost p2 = p + take;
            proof {
                assert(l * w + c0 == p) by (nonlinear_arith)
                    requires
                        l == p / w,
                        c0 == p % w,
                        w > 0,
                ;
                assert(seg_start(segs, (i + 1) as nat) == seg_start(segs, i as nat) + n);
                assert(!has_piece(segs, i as int, l * w, p));
                lemma_range_extend(segs, l * w, p, p2, i as int, nseg);
                assert(has_piece(segs, i as int, l * w, p2));
                assert(piece(segs, i as int, l * w, p2).text =~= chunk@);
                assert(segs_view(current@) =~= before.push(piece(segs, i as int, l * w, p2)));
            }
            col = col + take;
            consumed = consumed + take;
            if col >= width {
                let ghost full = current@;
                let ghost old_lines = lines_view(result@);
                result.push(current);
                current = Vec::new();
                col = 0;
                proof {
                    assert(p2 == (l + 1) * w) by (nonlinear_arith)
                        requires
                            l * w + c0 == p,
                            p2 == p + take,
                            take == w - c0,
                    ;
                    assert(p2 / w == l + 1 && p2 % w == 0) by (nonlinear_arith)
                        requires
                            p2 == (l + 1) * w,
                            w > 0,
                    ;
                    assert(lines_view(result@) =~= old_lines.push(segs_view(full)));
                    assert(segs_view(full) == range_pieces(segs, l * w, (l + 1) * w, nseg));
                    assert(lines_view(result@) =~= Seq::new(
                        (l + 1) as nat,
                        |j: int| range_pieces(segs, j * w, (j + 1) * w, nseg),
                    ));
                    lemma_range_empty(segs, (l + 1) * w, p2, nseg);
                    assert(segs_view(current@) =~= Seq::<SegV<S>>::empty());
                }
            } else {
                proof {
                    assert(p2 / w == l && p2 % w == p2 - l * w) by (nonlinear_arith)
                        requires
                            l * w <= p2 < l * w + w,
                            w > 0,
                    ;
                }
            }
        }
        i += 1;
    }
    let ghost total = seg_start(segs, nseg);
    let ghost l = total / w;
    proof {
        lemma_seg_start_nonneg(segs, nseg);
        assert(l * w + col == total && 0 <= col < w && l >= 0) by (nonlinear_arith)
            requires
                l == total / w,
                col == total % w,
                w > 0,
                total >= 0,
        ;
        if col > 0 {
            lemma_range_nonempty(segs, l * w, total, nseg);
        } else {
            lemma_range_empty(segs, l * w, total, nseg);
        }
    }
    if current.len() > 0 || result.len() == 0 {
        let ghost old_lines = lines_view(result@);
        let ghost last = current@;
        result.push(current);
        proof {
            assert(lines_view(result@) =~= old_lines.push(segs_view(last)));
            if col > 0 {
                assert((total + w - 1) / w == l + 1) by (nonlinear_arith)
                    requires
                        l * w + col == total,
                        0 < col < w,
                ;
                assert((l + 1) * w == l * w + w) by (nonlinear_arith);
                lemma_range_tail(segs, l * w, total, (l + 1) * w, nseg);
            } else {
                assert(l == 0);
                assert(total == 0) by (nonlinear_arith)
                    requires
                        l * w + col == total,
                        l == 0,
                        col == 0,
                ;
                lemma_range_empty(segs, 0, w, nseg);
            }
            assert(lines_view(result@) =~= wrap_spec(segs, w));
        }
    } else {
        proof {
            assert(lines_view(result@).len() == result@.len());
            assert(l > 0);
            assert(col == 0);
            assert(total > 0 && total == l * w) by (nonlinear_arith)
                requires
                    l * w + col == total,
                    col == 0,
                    l > 0,
                    w > 0,
            ;
            assert((total + w - 1) / w == l) by (nonlinear_arith)
                requires
                    l * w == total,
                    total > 0,
                    w > 0,
            ;
            assert(lines_view(result@) =~= wrap_spec(segs, w));
        }
    }
    result
}

/// Positions past the line's end add nothing.
proof fn lemma_range_tail<S>(segs: Seq<SegV<S>>, lo: int, total: int, hi: int, n: nat)
    requires
        n == segs.len(),
        total == seg_start(segs, n),
        lo <= total <= hi,
    ensures
        range_pieces(segs, lo, hi, n) == range_pieces(segs, lo, total, n),
{
    lemma_range_tail_prefix(segs, lo, total, hi, n);
}

proof fn lemma_range_tail_prefix<S>(segs: Seq<SegV<S>>, lo: int, total: int, hi: int, n: nat)
    requires
        n <= segs.len(),
        total == seg_start(segs, segs.len()),
        lo <= total <= hi,
    ensures
        range_pieces(segs, lo, hi, n) == range_pieces(segs, lo, total, n),
    decreases n,
{
    if n > 0 {
        lemma_range_tail_prefix(segs, lo, total, hi, (n - 1) as nat);
        lemma_seg_start_mono(segs, n, segs.len());
        assert(piece(segs, n - 1, lo, hi) == piece(segs, n - 1, lo, total));
    }
}


// ---------------------------------------------------------------------------
// The tree
// ---------------------------------------------------------------------------

/// An entry: its styled line and its sub-entries.
pub struct Node<S> {
    pub line: Vec<Segment<S>>,
    pub children: Vec<Node<S>>,
}

pub struct LineNodeV<S> {
    pub line: Seq<SegV<S>>,
    pub children: Seq<LineNodeV<S>>,
}

pub open spec fn node_view<S>(n: Node<S>) -> LineNodeV<S>
    decreases n,
{
    LineNodeV { line: segs_view(n.line@), children: nodes_view(n.children@) }
}

pub open spec fn nodes_view<S>(s: Seq<Node<S>>) -> Seq<LineNodeV<S>>
    decreases s,
{
    Seq::new(
        s.len(),
        |i: int|
            if 0 <= i < s.len() {
                node_view(s[i])
            } else {
                LineNodeV { line: Seq::empty(), children: Seq::empty() }
            },
    )
}

impl<S> Node<S> {
    pub fn new(line: Vec<Segment<S>>, children: Vec<Node<S>>) -> (r: Self)
        ensures
            node_view(r) == (LineNodeV { line: segs_view(line@), children: nodes_view(children@) }),
    {
        Node { line, children }
    }
}

/// A visible row: the entry, its path, its depth, and whether it is the
/// first of its siblings.
pub struct RowV<S> {
    pub node: LineNodeV<S>,
    pub path: Seq<usize>,
    pub depth: usize,
    pub first_sibling: bool,
}

/// The visible rows of `nodes` under `path`: each entry, then the rows of
/// its children if its path is among the opened ones.
pub open spec fn rows_of<S>(nodes: Seq<LineNodeV<S>>, opened: Set<Seq<usize>>, path: Seq<usize>, depth: usize) -> Seq<RowV<S>>
    decreases nodes, nodes.len() + 1,
{
    rows_range(nodes, opened, path, depth, nodes.len())
}

pub open spec fn rows_range<S>(
    nodes: Seq<LineNodeV<S>>,
    opened: Set<Seq<usize>>,
    path: Seq<usize>,
    depth: usize,
    n: nat,
) -> Seq<RowV<S>>
    decreases nodes, n,
{
    if n == 0 || n > nodes.len() {
        Seq::empty()
    } else {
        rows_range(nodes, opened, path, depth, (n - 1) as nat) + rows_one(
            nodes[n - 1],
            opened,
            path.push((n - 1) as usize),
            depth,
            n == 1,
        )
    }
}

pub open spec fn rows_one<S>(node: LineNodeV<S>, opened: Set<Seq<usize>>, path: Seq<usize>, depth: usize, first: bool) -> Seq<
    RowV<S>,
>
    decreases node, 0nat,
{
    seq![RowV { node, path, depth, first_sibling: first }] + if node.children.len() > 0 && opened.contains(path) {
        rows_of(node.children, opened, path, depth.saturating_add(1))
    } else {
        Seq::empty()
    }
}

pub open spec fn paths_of<S>(rows: Seq<RowV<S>>) -> Seq<Seq<usize>> {
    Seq::new(rows.len(), |i: int| rows[i].path)
}

/// The position of the first path equal to `p`.
pub open spec fn index_of_path(ps: Seq<Seq<usize>>, p: Seq<usize>) -> Option<nat>
    decreases ps.len(),
{
    if ps.len() == 0 {
        None
    } else {
        match index_of_path(ps.drop_last(), p) {
            Some(i) => Some(i),
            None => if ps.last() == p {
                Some((ps.len() - 1) as nat)
            } else {
                None
            },
        }
    }
}

/// The selection after moving down: the first row if none is selected,
/// else the next row if there is one.
pub open spec fn step_down(ps: Seq<Seq<usize>>, sel: Seq<usize>) -> Seq<usize> {
    if ps.len() == 0 {
        sel
    } else if sel.len() == 0 {
        ps[0]
    } else {
        match index_of_path(ps, sel) {
            Some(i) => if i + 1 < ps.len() {
                ps[(i + 1) as int]
            } else {
                sel
            },
            None => sel,
        }
    }
}

/// The selection after moving up: the last row if none is selected, else
/// the previous row if there is one.
pub open spec fn step_up(ps: Seq<Seq<usize>>, sel: Seq<usize>) -> Seq<usize> {
    if ps.len() == 0 {
        sel
    } else if sel.len() == 0 {
        ps.last()
    } else {
        match index_of_path(ps, sel) {
            Some(i) => if i > 0 {
                ps[i - 1]
            } else {
                sel
            },
            None => sel,
        }
    }
}

/// The entry at `path`, if there is one.
pub open spec fn entry_at<S>(nodes: Seq<LineNodeV<S>>, path: Seq<usize>) -> Option<LineNodeV<S>>
    decreases path.len(),
{
    if path.len() == 0 || path[0] >= nodes.len() {
        None
    } else if path.len() == 1 {
        Some(nodes[path[0] as int])
    } else {
        entry_at(nodes[path[0] as int].children, path.drop_first())
    }
}

/// Whether the selected entry exists and has children.
pub open spec fn expandable<S>(t: TreeWidgetV<S>) -> bool {
    t.selected.len() > 0 && (entry_at(t.nodes, t.selected) matches Some(n) && n.children.len() > 0)
}

/// The tree widget's state.
pub struct TreeWidget<S> {
    nodes: Vec<Node<S>>,
    opened: Vec<Vec<usize>>,
    selected: Vec<usize>,
    vscroll: usize,
}

pub struct TreeWidgetV<S> {
    pub nodes: Seq<LineNodeV<S>>,
    pub opened: Set<Seq<usize>>,
    pub selected: Seq<usize>,
    pub vscroll: usize,
}

pub open spec fn path_set(v: Seq<Vec<usize>>) -> Set<Seq<usize>> {
    Set::new(|p: Seq<usize>| exists|i: int| 0 <= i < v.len() && (#[trigger] v[i])@ == p)
}

impl<S> View for TreeWidget<S> {
    type V = TreeWidgetV<S>;

    closed spec fn view(&self) -> TreeWidgetV<S> {
        TreeWidgetV {
            nodes: nodes_view(self.nodes@),
            opened: path_set(self.opened@),
            selected: self.selected@,
            vscroll: self.vscroll,
        }
    }
}

pub open spec fn tree_rows<S>(t: TreeWidgetV<S>) -> Seq<RowV<S>> {
    rows_of(t.nodes, t.opened, Seq::empty(), 0)
}

/// A visible row as the flattening hands it out.
struct Row<'a, S> {
    node: &'a Node<S>,
    path: Vec<usize>,
    depth: usize,
    first_sibling: bool,
}

spec fn row_view<S>(r: Row<S>) -> RowV<S> {
    RowV { node: node_view(*r.node), path: r.path@, depth: r.depth, first_sibling: r.first_sibling }
}

spec fn rows_view<S>(s: Seq<Row<S>>) -> Seq<RowV<S>> {
    Seq::new(s.len(), |i: int| row_view(s[i]))
}

fn contains_path(set: &Vec<Vec<usize>>, p: &Vec<usize>) -> (r: bool)
    ensures
        r == path_set(set@).contains(p@),
{
    let mut k: usize = 0;
    while k < set.len()
        invariant
            k <= set.len(),
            forall|j: int| 0 <= j < k ==> (#[trigger] set@[j])@ != p@,
        decreases set.len() - k,
    {
        if same_path(&set[k], p) {
            return true;
        }
        k += 1;
    }
    false
}

proof fn lemma_node_child_decreases<S>(nodes: Vec<Node<S>>, i: int)
    requires
        0 <= i < nodes@.len(),
    ensures
        decreases_to!(nodes => nodes@[i].children),
{
    broadcast use vstd::std_specs::vec::group_vec_axioms;

    assert(decreases_to!(nodes => nodes@));
    assert(decreases_to!(nodes@ => nodes@[i]));
    assert(decreases_to!(nodes@[i] => nodes@[i].children));
}

fn rows_into<'a, S>(
    nodes: &'a Vec<Node<S>>,
    opened: &Vec<Vec<usize>>,
    path: &Vec<usize>,
    depth: usize,
    out: &mut Vec<Row<'a, S>>,
)
    ensures
        rows_view(final(out)@) == rows_view(old(out)@) + rows_of(nodes_view(nodes@), path_set(opened@), path@, depth),
    decreases nodes,
{
    let ghost nv = nodes_view(nodes@);
    let ghost os = path_set(opened@);
    let ghost start = rows_view(out@);
    let mut i: usize = 0;
    while i < nodes.len()
        invariant
            nv == nodes_view(nodes@),
            os == path_set(opened@),
            i <= nodes.len(),
            rows_view(out@) == start + rows_range(nv, os, path@, depth, i as nat),
        decreases nodes.len() - i,
    {
        let p = extend_path(path, i);
        let node = &nodes[i];
        let ghost before = rows_view(out@);
        out.push(Row { node, path: copy_path(&p), depth, first_sibling: i == 0 });
        proof {
            assert(nv[i as int] == node_view(*node));
            assert(nv[i as int].children.len() == node.children@.len());
            assert(rows_view(out@) =~= before.push(RowV { node: nv[i as int], path: p@, depth, first_sibling: i == 0 }));
        }
        if node.children.len() > 0 && contains_path(opened, &p) {
            proof {
                lemma_node_child_decreases(*nodes, i as int);
            }
            rows_into(&node.children, opened, &p, depth.saturating_add(1), out);
            proof {
                assert(rows_view(out@) =~= before.push(RowV { node: nv[i as int], path: p@, depth, first_sibling: i == 0 })
                    + rows_of(nv[i as int].children, os, p@, depth.saturating_add(1)));
            }
        } else {
            proof {
                assert(rows_one(nv[i as int], os, p@, depth, i == 0) =~= seq![
                    RowV { node: nv[i as int], path: p@, depth, first_sibling: i == 0 },
                ]);
            }
        }
        proof {
            assert(rows_range(nv, os, path@, depth, (i + 1) as nat) =~= rows_range(nv, os, path@, depth, i as nat)
                + rows_one(nv[i as int], os, path@.push(i), depth, i == 0));
            assert(rows_view(out@) =~= start + rows_range(nv, os, path@, depth, (i + 1) as nat));
        }
        i += 1;
    }
}

fn rows<'a, S>(nodes: &'a Vec<Node<S>>, opened: &Vec<Vec<usize>>) -> (r: Vec<Row<'a, S>>)
    ensures
        rows_view(r@) == rows_of(nodes_view(nodes@), path_set(opened@), Seq::empty(), 0),
{
    let mut out: Vec<Row<'a, S>> = Vec::new();
    let root: Vec<usize> = Vec::new();
    proof {
        assert(rows_view(out@) =~= Seq::<RowV<S>>::empty());
    }
    rows_into(nodes, opened, &root, 0, &mut out);
    proof {
        assert(rows_view(out@) =~= rows_of(nodes_view(nodes@), path_set(opened@), Seq::empty(), 0));
    }
    out
}

fn row_position<S>(rows: &Vec<Row<S>>, p: &Vec<usize>) -> (r: Option<usize>)
    ensures
        match r {
            Some(i) => index_of_path(paths_of(rows_view(rows@)), p@) == Some(i as nat) && i < rows@.len(),
            None => index_of_path(paths_of(rows_view(rows@)), p@) is None,
        },
{
    let ghost ps = paths_of(rows_view(rows@));
    let mut k: usize = 0;
    while k < rows.len()
        invariant
            ps == paths_of(rows_view(rows@)),
            k <= rows.len(),
            index_of_path(ps.subrange(0, k as int), p@) is None,
        decreases rows.len() - k,
    {
        proof {
            assert(ps.subrange(0, k + 1).drop_last() =~= ps.subrange(0, k as int));
        }
        if same_path(&rows[k].path, p) {
            proof {
                lemma_index_prefix(ps, p@, (k + 1) as nat);
            }
            return Some(k);
        }
        k += 1;
    }
    proof {
        assert(ps.subrange(0, k as int) =~= ps);
    }
    None
}

proof fn lemma_index_prefix(ps: Seq<Seq<usize>>, p: Seq<usize>, n: nat)
    requires
        n <= ps.len(),
        index_of_path(ps.subrange(0, n as int), p) is Some,
    ensures
        index_of_path(ps, p) == index_of_path(ps.subrange(0, n as int), p),
    decreases ps.len() - n,
{
    if n < ps.len() {
        assert(ps.subrange(0, (n + 1) as int).drop_last() =~= ps.subrange(0, n as int));
        lemma_index_prefix(ps, p, n + 1);
    } else {
        assert(ps.subrange(0, n as int) =~= ps);
    }
}

fn find_entry<'a, S>(nodes: &'a Vec<Node<S>>, path: &Vec<usize>, k: usize) -> (r: Option<&'a Node<S>>)
    requires
        k <= path.len(),
    ensures
        match r {
            Some(n) => entry_at(nodes_view(nodes@), path@.subrange(k as int, path.len() as int)) == Some(node_view(*n)),
            None => entry_at(nodes_view(nodes@), path@.subrange(k as int, path.len() as int)) is None,
        },
    decreases path.len() - k,
{
    let ghost rest = path@.subrange(k as int, path.len() as int);
    if k == path.len() || path[k] >= nodes.len() {
        return None;
    }
    let i = path[k];
    proof {
        assert(rest[0] == i);
        assert(nodes_view(nodes@)[i as int] == node_view(nodes@[i as int]));
    }
    if k + 1 == path.len() {
        Some(&nodes[i])
    } else {
        proof {
            assert(rest.drop_first() =~= path@.subrange(k + 1, path.len() as int));
        }
        find_entry(&nodes[i].children, path, k + 1)
    }
}

impl<S> TreeWidget<S> {
    pub fn new() -> (r: Self)
        ensures
            r@.nodes.len() == 0,
            r@.opened == Set::<Seq<usize>>::empty(),
            r@.selected.len() == 0,
            r@.vscroll == 0,
    {
        let r = TreeWidget { nodes: Vec::new(), opened: Vec::new(), selected: Vec::new(), vscroll: 0 };
        proof {
            assert(path_set(r.opened@) =~= Set::<Seq<usize>>::empty());
        }
        r
    }

    /// Replaces the entries; nothing is opened or selected, and the view is
    /// at the top.
    pub fn set_nodes(&mut self, nodes: Vec<Node<S>>)
        ensures
            final(self)@ == (TreeWidgetV {
                nodes: nodes_view(nodes@),
                opened: Set::<Seq<usize>>::empty(),
                selected: Seq::<usize>::empty(),
                vscroll: 0usize,
            }),
    {
        self.nodes = nodes;
        self.opened = Vec::new();
        self.selected = Vec::new();
        self.vscroll = 0;
        proof {
            assert(path_set(self.opened@) =~= Set::<Seq<usize>>::empty());
        }
    }

    /// Moves the selection down one row.
    pub fn select_down(&mut self)
        ensures
            final(self)@ == (TreeWidgetV {
                selected: step_down(paths_of(tree_rows(old(self)@)), old(self)@.selected),
                ..old(self)@
            }),
    {
        let flat = rows(&self.nodes, &self.opened);
        let ghost ps = paths_of(rows_view(flat@));
        proof {
            assert(ps.len() == flat@.len());
        }
        if flat.len() == 0 {
            return;
        }
        if self.selected.len() == 0 {
            self.selected = copy_path(&flat[0].path);
            return;
        }
        if let Some(i) = row_position(&flat, &self.selected) {
            if i + 1 < flat.len() {
                self.selected = copy_path(&flat[i + 1].path);
            }
        }
    }

    /// Moves the selection up one row.
    pub fn select_up(&mut self)
        ensures
            final(self)@ == (TreeWidgetV {
                selected: step_up(paths_of(tree_rows(old(self)@)), old(self)@.selected),
                ..old(self)@
            }),
    {
        let flat = rows(&self.nodes, &self.opened);
        let ghost ps = paths_of(rows_view(flat@));
        proof {
            assert(ps.len() == flat@.len());
        }
        if flat.len() == 0 {
            return;
        }
        if self.selected.len() == 0 {
            self.selected = copy_path(&flat[flat.len() - 1].path);
            return;
        }
        if let Some(i) = row_position(&flat, &self.selected) {
            if i > 0 {
                self.selected = copy_path(&flat[i - 1].path);
            }
        }
    }

    /// Closes the selected entry if it is opened; otherwise moves to its
    /// parent (if it is not at the top level).
    pub fn select_left(&mut self)
        ensures
            old(self)@.selected.len() == 0 ==> final(self)@ == old(self)@,
            old(self)@.selected.len() > 0 && old(self)@.opened.contains(old(self)@.selected) ==> final(self)@ == (
            TreeWidgetV { opened: old(self)@.opened.remove(old(self)@.selected), ..old(self)@ }),
            old(self)@.selected.len() > 0 && !old(self)@.opened.contains(old(self)@.selected) ==> final(self)@ == (
            TreeWidgetV {
                selected: if old(self)@.selected.len() > 1 {
                    old(self)@.selected.drop_last()
                } else {
                    old(self)@.selected
                },
                ..old(self)@
            }),
    {
        if self.selected.len() == 0 {
            return;
        }
        let ghost before = self.opened@;
        let mut kept: Vec<Vec<usize>> = Vec::new();
        let mut removed = false;
        let mut k: usize = 0;
        while k < self.opened.len()
            invariant
                before == self.opened@,
                k <= before.len(),
                forall|j: int| 0 <= j < kept@.len() ==> (#[trigger] kept@[j])@ != self.selected@,
                forall|p: Seq<usize>| #[trigger] path_set(kept@).contains(p) <==> (path_set(before.subrange(0, k as int)).contains(p)
                    && p != self.selected@),
                removed == path_set(before.subrange(0, k as int)).contains(self.selected@),
            decreases before.len() - k,
        {
            let ghost kb = kept@;
            if same_path(&self.opened[k], &self.selected) {
                removed = true;
            } else {
                kept.push(copy_path(&self.opened[k]));
            }
            proof {
                assert forall|p: Seq<usize>| #[trigger] path_set(kept@).contains(p) <==> (path_set(
                    before.subrange(0, k + 1),
                ).contains(p) && p != self.selected@) by {
                    if path_set(kept@).contains(p) {
                        let j = choose|j: int| 0 <= j < kept@.len() && (#[trigger] kept@[j])@ == p;
                        if j < kb.len() {
                            assert(kb[j] == kept@[j]);
                            assert(path_set(kb).contains(p));
                            let jj = choose|jj: int| 0 <= jj < k && (#[trigger] before.subrange(0, k as int)[jj])@ == p;
                            assert(before.subrange(0, k + 1)[jj] == before.subrange(0, k as int)[jj]);
                        } else {
                            assert(before.subrange(0, k + 1)[k as int] == before[k as int]);
                        }
                    }
                    if path_set(before.subrange(0, k + 1)).contains(p) && p != self.selected@ {
                        let jj = choose|jj: int| 0 <= jj < k + 1 && (#[trigger] before.subrange(0, k + 1)[jj])@ == p;
                        if jj < k {
                            assert(before.subrange(0, k as int)[jj] == before.subrange(0, k + 1)[jj]);
                            assert(path_set(before.subrange(0, k as int)).contains(p));
                            assert(path_set(kb).contains(p));
                            let j = choose|j: int| 0 <= j < kb.len() && (#[trigger] kb[j])@ == p;
                            assert(kept@[j] == kb[j]);
                        } else {
                            assert(kept@[kept@.len() - 1]@ == p);
                        }
                    }
                }
                if path_set(before.subrange(0, k + 1)).contains(self.selected@) {
                    let jj = choose|jj: int| 0 <= jj < k + 1 && (#[trigger] before.subrange(0, k + 1)[jj])@ == self.selected@;
                    if jj < k {
                        assert(before.subrange(0, k as int)[jj] == before.subrange(0, k + 1)[jj]);
                    }
                }
                if path_set(before.subrange(0, k as int)).contains(self.selected@) {
                    let jj = choose|jj: int| 0 <= jj < k && (#[trigger] before.subrange(0, k as int)[jj])@ == self.selected@;
                    assert(before.subrange(0, k + 1)[jj] == before.subrange(0, k as int)[jj]);
                }
                if before[k as int]@ == self.selected@ {
                    assert(before.subrange(0, k + 1)[k as int]@ == self.selected@);
                }
            }
            k += 1;
        }
        proof {
            assert(before.subrange(0, k as int) =~= before);
        }
        if removed {
            self.opened = kept;
            proof {
                assert(path_set(self.opened@) =~= path_set(before).remove(self.selected@));
            }
            return;
        }
        if self.selected.len() > 1 {
            self.selected.pop();
        }
    }

    /// Opens the selected entry if it has children.
    pub fn select_right(&mut self)
        ensures
            expandable(old(self)@) ==> final(self)@ == (TreeWidgetV {
                opened: old(self)@.opened.insert(old(self)@.selected),
                ..old(self)@
            }),
            !expandable(old(self)@) ==> final(self)@ == old(self)@,
    {
        if self.selected.len() == 0 {
            return;
        }
        let expandable = match find_entry(&self.nodes, &self.selected, 0) {
            Some(n) => n.children.len() > 0,
            None => false,
        };
        proof {
            assert(self.selected@.subrange(0, self.selected@.len() as int) =~= self.selected@);
        }
        if expandable {
            if !contains_path(&self.opened, &self.selected) {
                let ghost before = self.opened@;
                self.opened.push(copy_path(&self.selected));
                proof {
                    assert(path_set(self.opened@) =~= path_set(before).insert(self.selected@)) by {
                        assert forall|p: Seq<usize>| #[trigger] path_set(self.opened@).contains(p) <==> path_set(
                            before,
                        ).insert(self.selected@).contains(p) by {
                            if path_set(before).contains(p) {
                                let j = choose|j: int| 0 <= j < before.len() && (#[trigger] before[j])@ == p;
                                assert(self.opened@[j] == before[j]);
                            }
                            if path_set(self.opened@).contains(p) {
                                let j = choose|j: int| 0 <= j < self.opened@.len() && (#[trigger] self.opened@[j])@ == p;
                                if j < before.len() {
                                    assert(self.opened@[j] == before[j]);
                                }
                            }
                            if p == self.selected@ {
                                assert(self.opened@[before.len() as int]@ == p);
                            }
                        }
                    }
                }
            } else {
                proof {
                    assert(path_set(self.opened@).insert(self.selected@) =~= path_set(self.opened@));
                }
            }
        }
    }

    /// How many lines are scrolled above the view.
    pub fn vscroll(&self) -> (r: usize)
        ensures
            r == self@.vscroll,
    {
        self.vscroll
    }

    /// Scrolls up one row (not past the top).
    pub fn scroll_up(&mut self)
        ensures
            final(self)@ == (TreeWidgetV { vscroll: old(self)@.vscroll.saturating_sub(1), ..old(self)@ }),
    {
        self.vscroll = self.vscroll.saturating_sub(1);
    }

    /// Scrolls down one row.
    pub fn scroll_down(&mut self)
        requires
            old(self)@.vscroll < usize::MAX,
        ensures
            final(self)@ == (TreeWidgetV { vscroll: (old(self)@.vscroll + 1) as usize, ..old(self)@ }),
    {
        self.vscroll = self.vscroll + 1;
    }
}


// ---------------------------------------------------------------------------
// The lines to draw
// ---------------------------------------------------------------------------

/// A line of the drawn tree: a separator rule (after `depth` levels of
/// indentation, `rule_w` cells long), or a row of an entry's wrapped line
/// (`first` for the row that gets the entry's marker).
pub enum VisLine<S> {
    Separator { depth: usize, rule_w: usize },
    Text {
        depth: usize,
        has_children: bool,
        opened: bool,
        first: bool,
        segments: Vec<Segment<S>>,
        selected: bool,
    },
}

pub enum VisV<S> {
    Separator { depth: usize, rule_w: usize },
    Text {
        depth: usize,
        has_children: bool,
        opened: bool,
        first: bool,
        segments: Seq<SegV<S>>,
        selected: bool,
    },
}

pub open spec fn vis_view<S>(l: VisLine<S>) -> VisV<S> {
    match l {
        VisLine::Separator { depth, rule_w } => VisV::Separator { depth, rule_w },
        VisLine::Text { depth, has_children, opened, first, segments, selected } => VisV::Text {
            depth,
            has_children,
            opened,
            first,
            segments: segs_view(segments@),
            selected,
        },
    }
}

pub open spec fn viss_view<S>(s: Seq<VisLine<S>>) -> Seq<VisV<S>> {
    Seq::new(s.len(), |i: int| vis_view(s[i]))
}

/// The width left for an entry's line after its indentation and marker.
pub open spec fn inner_width(depth: usize, content_w: usize) -> usize {
    let prefix_w = depth.saturating_add(depth).saturating_add(2);
    if content_w.saturating_sub(prefix_w) == 0 {
        1
    } else {
        content_w.saturating_sub(prefix_w)
    }
}

/// Whether a row is preceded by a separator: all rows but the first at
/// the top level.
pub open spec fn has_separator<S>(r: RowV<S>) -> bool {
    !r.first_sibling || r.depth > 0
}

/// The lines of one row: its separator, then its line wrapped to the width
/// left after its indentation and marker.
pub open spec fn row_lines<S>(r: RowV<S>, opened: Set<Seq<usize>>, sel: Seq<usize>, content_w: usize) -> Seq<VisV<S>> {
    let wrapped = wrap_spec(r.node.line, inner_width(r.depth, content_w) as int);
    (if has_separator(r) {
        seq![VisV::Separator { depth: r.depth, rule_w: content_w.saturating_sub(r.depth.saturating_add(r.depth)) }]
    } else {
        Seq::empty()
    }) + Seq::new(
        wrapped.len(),
        |i: int|
            VisV::Text {
                depth: r.depth,
                has_children: r.node.children.len() > 0,
                opened: opened.contains(r.path),
                first: i == 0,
                segments: wrapped[i],
                selected: r.path == sel,
            },
    )
}

/// The lines of the first `n` rows.
pub open spec fn all_lines<S>(rows: Seq<RowV<S>>, opened: Set<Seq<usize>>, sel: Seq<usize>, content_w: usize, n: nat) -> Seq<
    VisV<S>,
>
    decreases n,
{
    if n == 0 || n > rows.len() {
        Seq::empty()
    } else {
        all_lines(rows, opened, sel, content_w, (n - 1) as nat) + row_lines(rows[n - 1], opened, sel, content_w)
    }
}

/// The line where the last row at path `sel` among the first `n` starts
/// its text, if there is one.
pub open spec fn selected_line<S>(rows: Seq<RowV<S>>, opened: Set<Seq<usize>>, sel: Seq<usize>, content_w: usize, n: nat) -> Option<
    int,
>
    decreases n,
{
    if n == 0 || n > rows.len() {
        None
    } else if rows[n - 1].path == sel {
        Some(all_lines(rows, opened, sel, content_w, (n - 1) as nat).len() + if has_separator(rows[n - 1]) {
            1int
        } else {
            0int
        })
    } else {
        selected_line(rows, opened, sel, content_w, (n - 1) as nat)
    }
}

/// What to draw: the lines in view, how many lines there are in all, and
/// the scroll they were taken at.
pub struct TreeLines<S> {
    pub lines: Vec<VisLine<S>>,
    pub total: usize,
    pub vscroll: usize,
}

fn copy_line<S: Copy>(line: &Vec<Segment<S>>) -> (r: Vec<Segment<S>>)
    ensures
        segs_view(r@) == segs_view(line@),
{
    let mut out: Vec<Segment<S>> = Vec::new();
    let mut k: usize = 0;
    while k < line.len()
        invariant
            k <= line.len(),
            out@.len() == k,
            segs_view(out@) == segs_view(line@).subrange(0, k as int),
        decreases line.len() - k,
    {
        let ghost before = segs_view(out@);
        let text = line[k].text.clone();
        out.push(Segment { text, style: line[k].style });
        proof {
            assert(seg_view(out@[k as int]) == seg_view(line@[k as int]));
            assert(segs_view(out@) =~= before.push(seg_view(line@[k as int])));
            assert(segs_view(out@) =~= segs_view(line@).subrange(0, k + 1));
        }
        k += 1;
    }
    proof {
        assert(segs_view(line@).subrange(0, k as int) =~= segs_view(line@));
    }
    out
}

impl<S: Copy> TreeWidget<S> {
    /// The lines to draw in an area of `width` by `height` cells (the last
    /// column is kept for the scrollbar), after scrolling so that the
    /// selected entry's first line is in view and the view is not past the
    /// last line; `None` for an area narrower than two cells or of no height.
    pub fn render_lines(&mut self, width: u16, height: u16) -> (r: Option<TreeLines<S>>)
        requires
            old(self)@.vscroll + height <= usize::MAX,
        ensures
            final(self)@.nodes == old(self)@.nodes,
            final(self)@.opened == old(self)@.opened,
            final(self)@.selected == old(self)@.selected,
            (width < 2 || height == 0) ==> r is None && final(self)@ == old(self)@,
            (width >= 2 && height > 0) ==> ({
                let rs = tree_rows(old(self)@);
                let cw = (width - 1) as usize;
                let all = all_lines(rs, old(self)@.opened, old(self)@.selected, cw, rs.len());
                let v = scroll_after(
                    old(self)@.vscroll as int,
                    selected_line(rs, old(self)@.opened, old(self)@.selected, cw, rs.len()),
                    all.len() as int,
                    height as int,
                );
                let end = if v + height < all.len() {
                    v + height
                } else {
                    all.len() as int
                };
                &&& r matches Some(t) && t.total == all.len() && t.vscroll == v && final(self)@.vscroll == v && viss_view(
                    t.lines@,
                ) == all.subrange(v, end)
            }),
    {
        if width < 2 || height == 0 {
            return None;
        }
        let content_w = (width - 1) as usize;
        let content_h = height as usize;
        let flat = rows(&self.nodes, &self.opened);
        let ghost rv = rows_view(flat@);
        let ghost os = path_set(self.opened@);
        let ghost sel = self.selected@;
        let mut vis: Vec<VisLine<S>> = Vec::new();
        let mut sel_row: Option<usize> = None;
        let mut i: usize = 0;
        while i < flat.len()
            invariant
                rv == rows_view(flat@),
                os == path_set(self.opened@),
                sel == self.selected@,
                i <= flat.len(),
                viss_view(vis@) == all_lines(rv, os, sel, content_w, i as nat),
                sel_row == match selected_line(rv, os, sel, content_w, i as nat) {
                    Some(x) => Some(x as usize),
                    None => None::<usize>,
                },
                forall|x: int| selected_line(rv, os, sel, content_w, i as nat) == Some(x) ==> 0 <= x <= vis@.len(),
            decreases flat.len() - i,
        {
            let row = &flat[i];
            let ghost r = rv[i as int];
            let ghost before = viss_view(vis@);
            proof {
                assert(r == row_view(*row));
                assert(r.node.children.len() == row.node.children@.len());
            }
            let indent_w = row.depth.saturating_add(row.depth);
            let sep = !row.first_sibling || row.depth > 0;
            if sep {
                vis.push(VisLine::Separator { depth: row.depth, rule_w: content_w.saturating_sub(indent_w) });
            }
            let prefix_w = indent_w.saturating_add(2);
            let rest = content_w.saturating_sub(prefix_w);
            let inner_w = if rest == 0 { 1 } else { rest };
            let is_sel = same_path(&row.path, &self.selected);
            let is_open = contains_path(&self.opened, &row.path);
            let has_children = row.node.children.len() > 0;
            let first = vis.len();
            let ghost head = viss_view(vis@);
            if is_sel {
                sel_row = Some(first);
            }
            let wrapped = wrap_line(copy_line(&row.node.line), inner_w);
            let ghost wv = lines_view(wrapped@);
            let mut k: usize = 0;
            while k < wrapped.len()
                invariant
                    k <= wrapped.len(),
                    wv == lines_view(wrapped@),
                    viss_view(vis@) == head + Seq::new(
                        k as nat,
                        |j: int|
                            VisV::Text {
                                depth: row.depth,
                                has_children,
                                opened: is_open,
                                first: j == 0,
                                segments: wv[j],
                                selected: is_sel,
                            },
                    ),
                decreases wrapped.len() - k,
            {
                let segments = copy_line(&wrapped[k]);
                let ghost vb = viss_view(vis@);
                proof {
                    assert(segs_view(segments@) == wv[k as int]);
                }
                vis.push(VisLine::Text { depth: row.depth, has_children, opened: is_open, first: k == 0, segments, selected: is_sel });
                proof {
                    assert(viss_view(vis@) =~= vb.push(
                        VisV::Text {
                            depth: row.depth,
                            has_children,
                            opened: is_open,
                            first: k == 0,
                            segments: wv[k as int],
                            selected: is_sel,
                        },
                    ));
                    assert(viss_view(vis@) =~= head + Seq::new(
                        (k + 1) as nat,
                        |j: int|
                            VisV::Text {
                                depth: row.depth,
                                has_children,
                                opened: is_open,
                                first: j == 0,
                                segments: wv[j],
                                selected: is_sel,
                            },
                    ));
                }
                k += 1;
            }
            proof {
                assert(wv == wrap_spec(r.node.line, inner_width(r.depth, content_w) as int));
                assert(viss_view(vis@) =~= before + row_lines(r, os, sel, content_w));
                assert(all_lines(rv, os, sel, content_w, (i + 1) as nat) == all_lines(rv, os, sel, content_w, i as nat)
                    + row_lines(rv[i as int], os, sel, content_w));
            }
            i += 1;
        }
        let total = vis.len();
        if let Some(row) = sel_row {
            if row < self.vscroll {
                self.vscroll = row;
            } else if row >= self.vscroll + content_h {
                self.vscroll = row - content_h + 1;
            }
        }
        let cap = total.saturating_sub(content_h);
        if cap < self.vscroll {
            self.vscroll = cap;
        }
        let v = self.vscroll;
        let ghost all = viss_view(vis@);
        proof {
            assert(v <= total);
        }
        let mut window = if v < vis.len() {
            vis.split_off(v)
        } else {
            Vec::new()
        };
        window.truncate(content_h);
        proof {
            assert(viss_view(window@) =~= all.subrange(
                v as int,
                if v + content_h < total { v + content_h } else { total as int },
            ));
        }
        Some(TreeLines { lines: window, total, vscroll: v })
    }
}

} // verus!
