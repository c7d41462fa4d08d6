//! Syntax colouring of a pattern: which part of the pattern gets which
//! colour role, as foreground and background layers. The actual colours of
//! the roles are chosen by the front end.
use vstd::prelude::*;
use crate::types::{
    ClassItem, ClassItemV, ClassKind, ClassKindV, ClassNode, ClassNodeV, GroupNode, LiteralChar,
    LiteralCharV, LiteralNode, LiteralV, NodeV, PatternSpan, RegExplainForm, RegExplainSimplifiedNode,
    RepeatNode, lemma_item_class_decreases, lemma_node_children_decrease, node_span,
};

verus! {

/// What a coloured part of the pattern is.
#[derive(Debug, Clone, Copy, PartialEq, Eq, Structural)]
pub enum ColorRole {
    Group,
    Class,
    Literal,
    Escaped,
    Assertion,
    Quantifier,
    Flag,
    Alt,
    Operator,
    Perl,
    Unicode,
    Ascii,
    Range,
}

/// A coloured part of the pattern: a foreground role (the narrowest span
/// wins) and/or a background role (backgrounds are layered).
#[derive(Debug, Clone, Copy, PartialEq, Eq)]
pub struct ColorSpan {
    pub span: PatternSpan,
    pub fg: Option<ColorRole>,
    pub bg: Option<ColorRole>,
}

pub open spec fn fg_span(span: PatternSpan, r: ColorRole) -> ColorSpan {
    ColorSpan { span, fg: Some(r), bg: None }
}

pub open spec fn bg_span(span: PatternSpan, r: ColorRole) -> ColorSpan {
    ColorSpan { span, fg: None, bg: Some(r) }
}

impl ColorSpan {
    fn fg(span: PatternSpan, c: ColorRole) -> (r: Self)
        ensures
            r == fg_span(span, c),
    {
        ColorSpan { span, fg: Some(c), bg: None }
    }

    fn bg(span: PatternSpan, c: ColorRole) -> (r: Self)
        ensures
            r == bg_span(span, c),
    {
        ColorSpan { span, fg: None, bg: Some(c) }
    }
}

/// The coloured spans of a pattern, in the order they were added (or sorted
/// widest first by `sort_spans`).
pub struct ColorGenerator {
    spans: Vec<ColorSpan>,
}

impl View for ColorGenerator {
    type V = Seq<ColorSpan>;

    closed spec fn view(&self) -> Seq<ColorSpan> {
        self.spans@
    }
}

// ---------------------------------------------------------------------------
// Which spans a tree contributes
// ---------------------------------------------------------------------------

pub open spec fn literal_spans(l: LiteralV) -> Seq<ColorSpan> {
    seq![fg_span(l.span, if l.ch is Verbatim { ColorRole::Literal } else { ColorRole::Escaped })]
}

/// The foreground role of a class by its kind (Perl, Unicode and ASCII
/// classes have one).
pub open spec fn class_fg(k: ClassKindV) -> Option<ColorRole> {
    match k {
        ClassKindV::PerlDigit | ClassKindV::PerlSpace | ClassKindV::PerlWord => Some(ColorRole::Perl),
        ClassKindV::Unicode(_) => Some(ColorRole::Unicode),
        ClassKindV::AsciiAlnum | ClassKindV::AsciiAlpha | ClassKindV::AsciiAscii | ClassKindV::AsciiBlank
        | ClassKindV::AsciiCntrl | ClassKindV::AsciiDigit | ClassKindV::AsciiGraph | ClassKindV::AsciiLower
        | ClassKindV::AsciiPrint | ClassKindV::AsciiPunct | ClassKindV::AsciiSpace | ClassKindV::AsciiUpper
        | ClassKindV::AsciiWord | ClassKindV::AsciiXdigit => Some(ColorRole::Ascii),
        _ => None,
    }
}

/// Bracketed classes get the class background.
pub open spec fn class_bg(k: ClassKindV) -> Option<ColorRole> {
    match k {
        ClassKindV::Bracketed(_) | ClassKindV::BracketedOp { .. } => Some(ColorRole::Class),
        _ => None,
    }
}

pub open spec fn opt_span(o: Option<ColorSpan>) -> Seq<ColorSpan> {
    match o {
        Some(s) => seq![s],
        None => Seq::empty(),
    }
}

/// A class node: its background, its foreground, then what its contents add.
pub open spec fn class_spans(c: ClassNodeV) -> Seq<ColorSpan>
    decreases c, 1nat,
{
    opt_span(
        match class_bg(c.kind) {
            Some(r) => Some(bg_span(c.span, r)),
            None => None,
        },
    ) + opt_span(
        match class_fg(c.kind) {
            Some(r) => Some(fg_span(c.span, r)),
            None => None,
        },
    ) + kind_spans(c.kind)
}

/// A set operation colours its operator (between the operands) and both
/// operands; a bracketed list colours each item.
pub open spec fn kind_spans(k: ClassKindV) -> Seq<ColorSpan>
    decreases k, 0nat,
{
    match k {
        ClassKindV::BracketedOp { lhs, rhs, .. } => seq![
            fg_span(PatternSpan { start: lhs.span.end, end: rhs.span.start }, ColorRole::Operator),
        ] + kind_spans(*lhs.kind) + kind_spans(*rhs.kind),
        ClassKindV::Bracketed(items) => items_spans(items),
        _ => Seq::empty(),
    }
}

pub open spec fn items_spans(s: Seq<ClassItemV>) -> Seq<ColorSpan>
    decreases s, 0nat,
{
    if s.len() == 0 {
        Seq::empty()
    } else {
        items_spans(s.subrange(0, s.len() - 1)) + item_spans(s[s.len() - 1])
    }
}

pub open spec fn item_spans(i: ClassItemV) -> Seq<ColorSpan>
    decreases i, 2nat,
{
    match i {
        ClassItemV::Literal(l) => literal_spans(l),
        ClassItemV::Range { span, .. } => seq![fg_span(span, ColorRole::Range)],
        ClassItemV::Class(c) => class_spans(c),
    }
}

/// The pipes between consecutive alternatives.
pub open spec fn pipe_spans(alts: Seq<NodeV>) -> Seq<ColorSpan>
    decreases alts.len(),
{
    if alts.len() < 2 {
        Seq::empty()
    } else {
        pipe_spans(alts.drop_last()) + seq![
            fg_span(
                PatternSpan {
                    start: node_span(alts[alts.len() - 2]).end,
                    end: node_span(alts[alts.len() - 1]).start,
                },
                ColorRole::Alt,
            ),
        ]
    }
}

/// The spans a node adds, in the order they are added.
pub open spec fn node_spans(n: NodeV) -> Seq<ColorSpan>
    decreases n, 1nat,
{
    match n {
        NodeV::Literal(l) => literal_spans(l),
        NodeV::Assertion(a) => seq![fg_span(a.span, ColorRole::Assertion)],
        NodeV::Flags { span, .. } => seq![fg_span(span, ColorRole::Flag)],
        NodeV::Class(c) => class_spans(c),
        NodeV::Group { span, inner, .. } => group_spans(span, *inner),
        NodeV::Repeat { span, inner, .. } => repeat_spans(span, *inner),
        NodeV::Alt { alts, .. } => pipe_spans(alts) + nodes_spans(alts),
        NodeV::Concat { nodes, .. } => nodes_spans(nodes),
    }
}

/// A group: its background, the brackets before and after its contents in
/// the group colour, then what its contents add.
pub open spec fn group_spans(span: PatternSpan, inner: NodeV) -> Seq<ColorSpan>
    decreases inner, 2nat,
{
    let i = node_span(inner);
    let prefix = PatternSpan { start: span.start, end: i.start };
    let suffix = PatternSpan { start: i.end, end: span.end };
    seq![bg_span(span, ColorRole::Group)]
        + (if prefix.start < prefix.end { seq![fg_span(prefix, ColorRole::Group)] } else { Seq::empty() })
        + (if suffix.start < suffix.end { seq![fg_span(suffix, ColorRole::Group)] } else { Seq::empty() })
        + node_spans(inner)
}

/// A repetition: its operator (after the repeated part), then what the
/// repeated part adds.
pub open spec fn repeat_spans(span: PatternSpan, inner: NodeV) -> Seq<ColorSpan>
    decreases inner, 2nat,
{
    seq![fg_span(PatternSpan { start: node_span(inner).end, end: span.end }, ColorRole::Quantifier)]
        + node_spans(inner)
}

pub open spec fn nodes_spans(s: Seq<NodeV>) -> Seq<ColorSpan>
    decreases s, 0nat,
{
    if s.len() == 0 {
        Seq::empty()
    } else {
        nodes_spans(s.subrange(0, s.len() - 1)) + node_spans(s[s.len() - 1])
    }
}

// ---------------------------------------------------------------------------
// Ordering and lookup
// ---------------------------------------------------------------------------

/// The width of a span; a span that ends before it starts counts as empty.
pub open spec fn width(s: ColorSpan) -> int {
    if s.span.start <= s.span.end {
        s.span.end - s.span.start
    } else {
        0
    }
}

/// `x` placed after the leading spans that are at least as wide as it.
pub open spec fn insert_by_width(s: Seq<ColorSpan>, x: ColorSpan) -> Seq<ColorSpan>
    decreases s.len(),
{
    if s.len() == 0 {
        seq![x]
    } else if width(s[0]) >= width(x) {
        seq![s[0]] + insert_by_width(s.drop_first(), x)
    } else {
        seq![x] + s
    }
}

/// The spans ordered widest first, keeping the order of equally wide spans
/// (a stable sort).
pub open spec fn sort_by_width(s: Seq<ColorSpan>) -> Seq<ColorSpan>
    decreases s.len(),
{
    if s.len() == 0 {
        s
    } else {
        insert_by_width(sort_by_width(s.drop_last()), s.last())
    }
}

pub open spec fn covers_index(s: ColorSpan, i: usize) -> bool {
    s.span.start <= i < s.span.end
}

/// The foreground of the last span that covers `i` and has one.
pub open spec fn fg_at(s: Seq<ColorSpan>, i: usize) -> Option<ColorRole>
    decreases s.len(),
{
    if s.len() == 0 {
        None
    } else if covers_index(s.last(), i) && s.last().fg is Some {
        s.last().fg
    } else {
        fg_at(s.drop_last(), i)
    }
}

/// The backgrounds of the spans that cover `i`, in order.
pub open spec fn bg_layers(s: Seq<ColorSpan>, i: usize) -> Seq<ColorRole>
    decreases s.len(),
{
    if s.len() == 0 {
        Seq::empty()
    } else {
        bg_layers(s.drop_last(), i) + (if covers_index(s.last(), i) && s.last().bg is Some {
            seq![s.last().bg->Some_0]
        } else {
            Seq::empty()
        })
    }
}

/// `s` ordered widest first.
pub open spec fn sorted_by_width(s: Seq<ColorSpan>) -> bool {
    forall|a: int, b: int| 0 <= a < b < s.len() ==> width(#[trigger] s[a]) >= width(#[trigger] s[b])
}

/// Where `insert_by_width` places `x`: after the leading spans at least as
/// wide as it.
pub open spec fn insert_pos(s: Seq<ColorSpan>, x: ColorSpan) -> int
    decreases s.len(),
{
    if s.len() == 0 {
        0
    } else if width(s[0]) >= width(x) {
        1 + insert_pos(s.drop_first(), x)
    } else {
        0
    }
}

proof fn lemma_insert_pos(s: Seq<ColorSpan>, x: ColorSpan)
    ensures
        0 <= insert_pos(s, x) <= s.len(),
        forall|j: int| 0 <= j < insert_pos(s, x) ==> width(#[trigger] s[j]) >= width(x),
        insert_pos(s, x) < s.len() ==> width(s[insert_pos(s, x)]) < width(x),
        insert_by_width(s, x) == s.insert(insert_pos(s, x), x),
    decreases s.len(),
{
    if s.len() > 0 && width(s[0]) >= width(x) {
        let t = s.drop_first();
        lemma_insert_pos(t, x);
        assert forall|j: int| 0 <= j < insert_pos(s, x) implies width(#[trigger] s[j]) >= width(x) by {
            if j > 0 {
                assert(s[j] == t[j - 1]);
            }
        }
        assert(insert_by_width(s, x) =~= s.insert(insert_pos(s, x), x));
    } else if s.len() > 0 {
        assert(insert_by_width(s, x) =~= s.insert(0, x));
    } else {
        assert(insert_by_width(s, x) =~= s.insert(0, x));
    }
}

/// Any place after the leading spans at least as wide as `x` and before the
/// first narrower one is the place `insert_by_width` chooses.
proof fn lemma_insert_at(s: Seq<ColorSpan>, x: ColorSpan, k: int)
    requires
        0 <= k <= s.len(),
        forall|j: int| 0 <= j < k ==> width(#[trigger] s[j]) >= width(x),
        k < s.len() ==> width(s[k]) < width(x),
    ensures
        insert_by_width(s, x) == s.insert(k, x),
{
    lemma_insert_pos(s, x);
    let p = insert_pos(s, x);
    if p < k {
        assert(width(s[p]) >= width(x));
    } else if k < p {
        assert(width(s[k]) >= width(x));
    }
}

proof fn lemma_insert_sorted(s: Seq<ColorSpan>, x: ColorSpan)
    requires
        sorted_by_width(s),
    ensures
        sorted_by_width(insert_by_width(s, x)),
{
    lemma_insert_pos(s, x);
    let k = insert_pos(s, x);
    let r = insert_by_width(s, x);
    s.insert_ensures(k, x);
    assert forall|a: int, b: int| 0 <= a < b < r.len() implies width(#[trigger] r[a]) >= width(#[trigger] r[b]) by {
        if b < k {
        } else if b == k {
        } else if a < k {
            assert(r[b] == s[b - 1]);
            assert(width(s[k]) < width(x) || k == s.len());
        } else if a == k {
            assert(r[b] == s[b - 1]);
            assert(width(s[k]) >= width(s[b - 1]));
        } else {
            assert(r[a] == s[a - 1]);
            assert(r[b] == s[b - 1]);
        }
    }
}

/// Sorting by width leaves the spans ordered widest first.
pub proof fn lemma_sort_by_width_sorted(s: Seq<ColorSpan>)
    ensures
        sorted_by_width(sort_by_width(s)),
    decreases s.len(),
{
    if s.len() > 0 {
        lemma_sort_by_width_sorted(s.drop_last());
        lemma_insert_sorted(sort_by_width(s.drop_last()), s.last());
    }
}

/// Sorting by width neither adds nor loses a span: the result holds the
/// same spans, each as often.
pub proof fn lemma_sort_by_width_permutes(s: Seq<ColorSpan>)
    ensures
        sort_by_width(s).to_multiset() == s.to_multiset(),
    decreases s.len(),
{
    broadcast use vstd::seq_lib::group_to_multiset_ensures;

    if s.len() > 0 {
        let t = sort_by_width(s.drop_last());
        lemma_sort_by_width_permutes(s.drop_last());
        lemma_insert_pos(t, s.last());
        assert(s.drop_last().push(s.last()) =~= s);
    }
}

/// When the foreground lookup finds a role, it comes from a span that
/// covers the offset, and no later span covers it with a foreground.
proof fn lemma_fg_at(s: Seq<ColorSpan>, i: usize) -> (m: int)
    ensures
        fg_at(s, i) is None ==> forall|k: int| 0 <= k < s.len() && covers_index(#[trigger] s[k], i) ==> s[k].fg is None,
        fg_at(s, i) is Some ==> 0 <= m < s.len() && covers_index(s[m], i) && s[m].fg == fg_at(s, i) && forall|k: int|
            m < k < s.len() && covers_index(#[trigger] s[k], i) ==> s[k].fg is None,
    decreases s.len(),
{
    if s.len() == 0 {
        0
    } else if covers_index(s.last(), i) && s.last().fg is Some {
        s.len() - 1
    } else {
        let m = lemma_fg_at(s.drop_last(), i);
        assert forall|k: int| 0 <= k < s.len() - 1 implies #[trigger] s[k] == s.drop_last()[k] by {}
        m
    }
}

/// On spans ordered widest first, the foreground that wins at an offset is
/// that of a narrowest span covering it: every span that covers the offset
/// with a foreground is at least as wide.
pub proof fn lemma_narrowest_fg_wins(s: Seq<ColorSpan>, i: usize)
    requires
        sorted_by_width(s),
    ensures
        fg_at(s, i) is None <==> (forall|k: int| 0 <= k < s.len() && covers_index(#[trigger] s[k], i) ==> s[k].fg is None),
        fg_at(s, i) is Some ==> exists|m: int|
            #![trigger s[m]]
            0 <= m < s.len() && covers_index(s[m], i) && s[m].fg == fg_at(s, i) && forall|k: int|
                0 <= k < s.len() && covers_index(#[trigger] s[k], i) && s[k].fg is Some ==> width(s[k]) >= width(s[m]),
{
    let m = lemma_fg_at(s, i);
    if fg_at(s, i) is Some {
        assert forall|k: int| 0 <= k < s.len() && covers_index(#[trigger] s[k], i) && s[k].fg is Some implies width(s[k]) >= width(s[m]) by {
            if k > m {
            } else if k < m {
                assert(width(s[k]) >= width(s[m]));
            }
        }
    }
}

// ---------------------------------------------------------------------------
// The generator
// ---------------------------------------------------------------------------

fn span_width(s: &ColorSpan) -> (w: usize)
    ensures
        w == width(*s),
{
    if s.span.start <= s.span.end {
        s.span.end - s.span.start
    } else {
        0
    }
}

impl ColorGenerator {
    pub fn new() -> (r: Self)
        ensures
            r@ == Seq::<ColorSpan>::empty(),
    {
        ColorGenerator { spans: Vec::new() }
    }

    fn add_span(&mut self, span: ColorSpan)
        ensures
            final(self)@ == old(self)@.push(span),
    {
        self.spans.push(span);
    }

    /// Orders the spans widest first; spans of equal width keep their order.
    pub fn sort_spans(&mut self)
        ensures
            final(self)@ == sort_by_width(old(self)@),
    {
        let mut out: Vec<ColorSpan> = Vec::new();
        let mut i: usize = 0;
        while i < self.spans.len()
            invariant
                i <= self.spans.len(),
                out@ == sort_by_width(self.spans@.subrange(0, i as int)),
            decreases self.spans.len() - i,
        {
            let x = self.spans[i];
            let w = span_width(&x);
            let mut k: usize = 0;
            while k < out.len() && span_width(&out[k]) >= w
                invariant
                    k <= out.len(),
                    w == width(x),
                    forall|j: int| 0 <= j < k ==> width(#[trigger] out@[j]) >= width(x),
                decreases out.len() - k,
            {
                k += 1;
            }
            proof {
                lemma_insert_at(out@, x, k as int);
                assert(self.spans@.subrange(0, i + 1).drop_last() =~= self.spans@.subrange(0, i as int));
            }
            out.insert(k, x);
            i += 1;
        }
        proof {
            assert(self.spans@.subrange(0, self.spans.len() as int) =~= self.spans@);
        }
        self.spans = out;
    }

    /// The colour roles at byte offset `i` of the pattern: the foreground of
    /// the last span covering it that has one (the narrowest, once the spans
    /// are sorted), and the backgrounds of all spans covering it, bottom
    /// layer first.
    pub fn char_color(&self, i: usize) -> (r: (Option<ColorRole>, Vec<ColorRole>))
        ensures
            r.0 == fg_at(self@, i),
            r.1@ == bg_layers(self@, i),
    {
        let mut bg: Vec<ColorRole> = Vec::new();
        let mut k: usize = 0;
        while k < self.spans.len()
            invariant
                k <= self.spans.len(),
                bg@ == bg_layers(self.spans@.subrange(0, k as int), i),
            decreases self.spans.len() - k,
        {
            let s = self.spans[k];
            proof {
                assert(self.spans@.subrange(0, k + 1).drop_last() =~= self.spans@.subrange(0, k as int));
            }
            if s.span.start <= i && i < s.span.end {
                if let Some(b) = s.bg {
                    bg.push(b);
                }
            }
            k += 1;
        }
        proof {
            assert(self.spans@.subrange(0, self.spans.len() as int) =~= self.spans@);
        }
        let mut fg: Option<ColorRole> = None;
        let mut j: usize = self.spans.len();
        while j > 0
            invariant_except_break
                fg is None,
            invariant
                j <= self.spans.len(),
                fg_at(self.spans@, i) == fg_at(self.spans@.subrange(0, j as int), i),
            ensures
                fg == fg_at(self.spans@, i),
            decreases j,
        {
            let s = self.spans[j - 1];
            proof {
                assert(self.spans@.subrange(0, j - 1) =~= self.spans@.subrange(0, j as int).drop_last());
            }
            if s.span.start <= i && i < s.span.end && s.fg.is_some() {
                fg = s.fg;
                break;
            }
            j -= 1;
        }
        (fg, bg)
    }
}

impl ColorGenerator {
    fn colorize_literal(&mut self, l: &LiteralNode)
        ensures
            final(self)@ == old(self)@ + literal_spans(l@),
    {
        let role = match l.ch {
            LiteralChar::Verbatim(_) => ColorRole::Literal,
            _ => ColorRole::Escaped,
        };
        self.add_span(ColorSpan::fg(l.span, role));
    }

    fn colorize_class(&mut self, c: &ClassNode)
        ensures
            final(self)@ == old(self)@ + class_spans(c@),
        decreases c,
    {
        let ghost start = self@;
        let bracketed = match c.kind {
            ClassKind::Bracketed(_) | ClassKind::BracketedOp { .. } => true,
            _ => false,
        };
        if bracketed {
            self.add_span(ColorSpan::bg(c.span, ColorRole::Class));
        }
        let ghost mid = self@;
        let fg = match c.kind {
            ClassKind::PerlDigit | ClassKind::PerlSpace | ClassKind::PerlWord => Some(ColorRole::Perl),
            ClassKind::Unicode(_) => Some(ColorRole::Unicode),
            ClassKind::AsciiAlnum | ClassKind::AsciiAlpha | ClassKind::AsciiAscii | ClassKind::AsciiBlank
            | ClassKind::AsciiCntrl | ClassKind::AsciiDigit | ClassKind::AsciiGraph | ClassKind::AsciiLower
            | ClassKind::AsciiPrint | ClassKind::AsciiPunct | ClassKind::AsciiSpace | ClassKind::AsciiUpper
            | ClassKind::AsciiWord | ClassKind::AsciiXdigit => Some(ColorRole::Ascii),
            _ => None,
        };
        if let Some(r) = fg {
            self.add_span(ColorSpan::fg(c.span, r));
        }
        proof {
            assert(mid == start + opt_span(
                match class_bg(c@.kind) {
                    Some(r) => Some(bg_span(c.span, r)),
                    None => None,
                },
            ));
        }
        self.colorize_kind(&c.kind);
        proof {
            assert(self@ =~= start + class_spans(c@));
        }
    }

    fn colorize_kind(&mut self, k: &ClassKind)
        ensures
            final(self)@ == old(self)@ + kind_spans(k@),
        decreases k,
    {
        match k {
            ClassKind::BracketedOp { lhs, rhs, .. } => {
                let ghost start = self@;
                self.add_span(ColorSpan::fg(PatternSpan { start: lhs.span.end, end: rhs.span.start }, ColorRole::Operator));
                self.colorize_kind(&lhs.kind);
                self.colorize_kind(&rhs.kind);
                proof {
                    assert(self@ =~= start + kind_spans(k@));
                }
            },
            ClassKind::Bracketed(items) => {
                let ghost start = self@;
                let ghost v = crate::types::class_items_view(items@);
                let mut j: usize = 0;
                while j < items.len()
                    invariant
                        *k == ClassKind::Bracketed(*items),
                        v == crate::types::class_items_view(items@),
                        j <= items.len(),
                        self@ == start + items_spans(v.subrange(0, j as int)),
                    decreases items.len() - j,
                {
                    proof {
                        crate::convert::lemma_bracketed_decreases(*k, j as int);
                        assert(v.subrange(0, j + 1).subrange(0, j as int) =~= v.subrange(0, j as int));
                    }
                    self.colorize_item(&items[j]);
                    proof {
                        assert(v.subrange(0, j + 1)[j as int] == items@[j as int]@);
                    }
                    j += 1;
                }
                proof {
                    assert(v.subrange(0, j as int) =~= v);
                }
            },
            _ => {
                proof {
                    assert(kind_spans(k@) =~= Seq::<ColorSpan>::empty());
                    assert(self@ =~= old(self)@ + kind_spans(k@));
                }
            },
        }
    }

    fn colorize_item(&mut self, i: &ClassItem)
        ensures
            final(self)@ == old(self)@ + item_spans(i@),
        decreases i,
    {
        match i {
            ClassItem::Literal(l) => self.colorize_literal(l),
            ClassItem::Range { span, .. } => {
                self.add_span(ColorSpan::fg(*span, ColorRole::Range));
                proof {
                    assert(self@ =~= old(self)@ + item_spans(i@));
                }
            },
            ClassItem::Class(c) => {
                proof {
                    lemma_item_class_decreases(*i);
                }
                self.colorize_class(c);
            },
        }
    }

    fn colorize_group(&mut self, g: &GroupNode)
        ensures
            final(self)@ == old(self)@ + group_spans(g.span, g.inner@),
        decreases g, 0nat,
    {
        let ghost start = self@;
        let inner = g.inner.span();
        self.add_span(ColorSpan::bg(g.span, ColorRole::Group));
        let prefix = PatternSpan { start: g.span.start, end: inner.start };
        let suffix = PatternSpan { start: inner.end, end: g.span.end };
        if prefix.start < prefix.end {
            self.add_span(ColorSpan::fg(prefix, ColorRole::Group));
        }
        if suffix.start < suffix.end {
            self.add_span(ColorSpan::fg(suffix, ColorRole::Group));
        }
        self.colorize_node(&g.inner);
        proof {
            assert(self@ =~= start + group_spans(g.span, g.inner@));
        }
    }

    fn colorize_repeat(&mut self, r: &RepeatNode)
        ensures
            final(self)@ == old(self)@ + repeat_spans(r.span, r.inner@),
        decreases r, 0nat,
    {
        let ghost start = self@;
        let op = PatternSpan { start: r.inner.span().end, end: r.span.end };
        self.add_span(ColorSpan::fg(op, ColorRole::Quantifier));
        self.colorize_node(&r.inner);
        proof {
            assert(self@ =~= start + repeat_spans(r.span, r.inner@));
        }
    }

    fn colorize_node(&mut self, n: &RegExplainSimplifiedNode)
        ensures
            final(self)@ == old(self)@ + node_spans(n@),
        decreases n, 1nat,
    {
        let ghost start = self@;
        match n {
            RegExplainSimplifiedNode::Literal(l) => self.colorize_literal(l),
            RegExplainSimplifiedNode::Assertion(a) => {
                self.add_span(ColorSpan::fg(a.span, ColorRole::Assertion));
                proof {
                    assert(self@ =~= start + node_spans(n@));
                }
            },
            RegExplainSimplifiedNode::Flags(f) => {
                self.add_span(ColorSpan::fg(f.span, ColorRole::Flag));
                proof {
                    assert(self@ =~= start + node_spans(n@));
                }
            },
            RegExplainSimplifiedNode::Class(c) => self.colorize_class(c),
            RegExplainSimplifiedNode::Group(g) => self.colorize_group(g),
            RegExplainSimplifiedNode::Repeat(r) => self.colorize_repeat(r),
            RegExplainSimplifiedNode::Alt { alts, .. } => {
                let ghost v = crate::types::nodes_view(alts@);
                if alts.len() > 0 {
                    let mut k: usize = 1;
                    while k < alts.len()
                        invariant
                            v == crate::types::nodes_view(alts@),
                            1 <= k <= alts.len(),
                            self@ == start + pipe_spans(v.subrange(0, k as int)),
                        decreases alts.len() - k,
                    {
                        let pipe = PatternSpan { start: alts[k - 1].span().end, end: alts[k].span().start };
                        self.add_span(ColorSpan::fg(pipe, ColorRole::Alt));
                        proof {
                            assert(v.subrange(0, k + 1).drop_last() =~= v.subrange(0, k as int));
                        }
                        k += 1;
                    }
                    proof {
                        assert(v.subrange(0, k as int) =~= v);
                    }
                } else {
                    proof {
                        assert(pipe_spans(v) =~= Seq::<ColorSpan>::empty());
                        assert(self@ =~= start + pipe_spans(v));
                    }
                }
                self.colorize_children(n, alts);
                proof {
                    assert(self@ =~= start + node_spans(n@));
                }
            },
            RegExplainSimplifiedNode::Concat { nodes, .. } => {
                self.colorize_children(n, nodes);
            },
        }
    }

    fn colorize_children(&mut self, n: &RegExplainSimplifiedNode, children: &Vec<RegExplainSimplifiedNode>)
        requires
            (*n matches RegExplainSimplifiedNode::Alt { alts: x, .. } && x == *children) || (*n matches RegExplainSimplifiedNode::Concat {
                nodes: x,
                ..
            } && x == *children),
        ensures
            final(self)@ == old(self)@ + nodes_spans(crate::types::nodes_view(children@)),
        decreases n, 0nat,
    {
        let ghost start = self@;
        let ghost v = crate::types::nodes_view(children@);
        let mut j: usize = 0;
        while j < children.len()
            invariant
                (*n matches RegExplainSimplifiedNode::Alt { alts: x, .. } && x == *children) || (*n matches RegExplainSimplifiedNode::Concat {
                    nodes: x,
                    ..
                } && x == *children),
                v == crate::types::nodes_view(children@),
                j <= children.len(),
                self@ == start + nodes_spans(v.subrange(0, j as int)),
            decreases children.len() - j,
        {
            proof {
                lemma_node_children_decrease(*n, *children, j as int);
                assert(v.subrange(0, j + 1).subrange(0, j as int) =~= v.subrange(0, j as int));
            }
            self.colorize_node(&children[j]);
            proof {
                assert(v.subrange(0, j + 1)[j as int] == children@[j as int]@);
            }
            j += 1;
        }
        proof {
            assert(v.subrange(0, j as int) =~= v);
        }
    }
}

/// Adds the colour spans of a part of a pattern.
pub trait Colorizer<T> {
    fn colorize(&mut self, target: T);
}

impl<'a> Colorizer<&'a RegExplainForm> for ColorGenerator {
    /// Colours the whole pattern, then orders the spans widest first.
    fn colorize(&mut self, form: &'a RegExplainForm)
        ensures
            final(self)@ == sort_by_width(old(self)@ + node_spans(form.root@)),
    {
        self.colorize_node(&form.root);
        self.sort_spans();
    }
}

impl<'a> Colorizer<&'a RegExplainSimplifiedNode> for ColorGenerator {
    fn colorize(&mut self, node: &'a RegExplainSimplifiedNode)
        ensures
            final(self)@ == old(self)@ + node_spans(node@),
    {
        self.colorize_node(node);
    }
}

impl<'a> Colorizer<&'a GroupNode> for ColorGenerator {
    fn colorize(&mut self, target: &'a GroupNode)
        ensures
            final(self)@ == old(self)@ + group_spans(target.span, target.inner@),
    {
        self.colorize_group(target);
    }
}

impl<'a> Colorizer<&'a RepeatNode> for ColorGenerator {
    fn colorize(&mut self, target: &'a RepeatNode)
        ensures
            final(self)@ == old(self)@ + repeat_spans(target.span, target.inner@),
    {
        self.colorize_repeat(target);
    }
}

impl<'a> Colorizer<&'a LiteralNode> for ColorGenerator {
    fn colorize(&mut self, target: &'a LiteralNode)
        ensures
            final(self)@ == old(self)@ + literal_spans(target@),
    {
        self.colorize_literal(target);
    }
}

impl<'a> Colorizer<&'a ClassNode> for ColorGenerator {
    fn colorize(&mut self, target: &'a ClassNode)
        ensures
            final(self)@ == old(self)@ + class_spans(target@),
    {
        self.colorize_class(target);
    }
}

impl<'a> Colorizer<&'a ClassKind> for ColorGenerator {
    fn colorize(&mut self, target: &'a ClassKind)
        ensures
            final(self)@ == old(self)@ + kind_spans(target@),
    {
        self.colorize_kind(target);
    }
}

/// An alternation of `n` alternatives colours the `n - 1` gaps between
/// neighbouring alternatives (the `|` separators) first, in order, each
/// from the end of one alternative to the start of the next.
pub proof fn lemma_alt_pipes(span: PatternSpan, alts: Seq<NodeV>)
    ensures
        node_spans(NodeV::Alt { span, alts }).len() >= alts.len() - 1,
        forall|k: int|
            0 <= k < alts.len() - 1 ==> #[trigger] node_spans(NodeV::Alt { span, alts })[k] == fg_span(
                PatternSpan { start: node_span(alts[k]).end, end: node_span(alts[k + 1]).start },
                ColorRole::Alt,
            ),
{
    lemma_pipe_spans(alts);
}

proof fn lemma_pipe_spans(alts: Seq<NodeV>)
    ensures
        alts.len() >= 1 ==> pipe_spans(alts).len() == alts.len() - 1,
        alts.len() == 0 ==> pipe_spans(alts).len() == 0,
        forall|k: int|
            0 <= k < alts.len() - 1 ==> #[trigger] pipe_spans(alts)[k] == fg_span(
                PatternSpan { start: node_span(alts[k]).end, end: node_span(alts[k + 1]).start },
                ColorRole::Alt,
            ),
    decreases alts.len(),
{
    if alts.len() >= 2 {
        let a = alts.drop_last();
        lemma_pipe_spans(a);
        assert forall|k: int| 0 <= k < alts.len() - 1 implies #[trigger] pipe_spans(alts)[k] == fg_span(
            PatternSpan { start: node_span(alts[k]).end, end: node_span(alts[k + 1]).start },
            ColorRole::Alt,
        ) by {
            if k < alts.len() - 2 {
                assert(a[k] == alts[k]);
                assert(a[k + 1] == alts[k + 1]);
                assert(pipe_spans(alts)[k] == pipe_spans(a)[k]);
            }
        }
    }
}

} // verus!
