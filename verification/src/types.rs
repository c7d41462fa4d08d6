//! The simplified regular-expression tree that every other module works on,
//! together with its mathematical model (the `*V` types, reached through `@`).
use vstd::prelude::*;

verus! {

/// A half-open range `start..end` of byte offsets into the pattern.
#[derive(Debug, Clone, Copy, PartialEq, Eq, Structural)]
pub struct PatternSpan {
    pub start: usize,
    pub end: usize,
}

/// A parsed pattern together with its simplified tree.
#[derive(Debug)]
pub struct RegExplainForm {
    pub pattern: String,
    pub root: RegExplainSimplifiedNode,
}

#[derive(Debug, PartialEq)]
pub enum RegExplainSimplifiedNode {
    Flags(FlagNode),
    Literal(LiteralNode),
    Assertion(AssertionNode),
    Alt { span: PatternSpan, alts: Vec<RegExplainSimplifiedNode> },
    Concat { span: PatternSpan, nodes: Vec<RegExplainSimplifiedNode> },
    Class(ClassNode),
    Group(GroupNode),
    Repeat(RepeatNode),
}

#[derive(Debug, PartialEq)]
pub struct RepeatNode {
    pub span: PatternSpan,
    pub greedy: bool,
    pub min: u32,
    /// `None` means unbounded.
    pub max: Option<u32>,
    pub inner: Box<RegExplainSimplifiedNode>,
}

#[derive(Debug, PartialEq)]
pub struct GroupNode {
    pub span: PatternSpan,
    pub kind: GroupKind,
    pub inner: Box<RegExplainSimplifiedNode>,
}

#[derive(Debug, Clone, PartialEq)]
pub enum GroupKind {
    Capture { index: u32, name: Option<String> },
    NonCapturing(Vec<FlagItem>),
}

#[derive(Debug, PartialEq)]
pub struct ClassNode {
    pub span: PatternSpan,
    pub negated: bool,
    pub kind: ClassKind,
}

#[derive(Debug, PartialEq)]
pub enum ClassKind {
    Dot,
    PerlDigit,
    PerlSpace,
    PerlWord,
    AsciiAlnum,
    AsciiAlpha,
    AsciiAscii,
    AsciiBlank,
    AsciiCntrl,
    AsciiDigit,
    AsciiGraph,
    AsciiLower,
    AsciiPrint,
    AsciiPunct,
    AsciiSpace,
    AsciiUpper,
    AsciiWord,
    AsciiXdigit,
    Unicode(UnicodeClassKind),
    Bracketed(Vec<ClassItem>),
    BracketedOp { op: ClassBinaryOp, lhs: ClassOperand, rhs: ClassOperand },
}

#[derive(Debug, PartialEq)]
pub struct ClassOperand {
    pub span: PatternSpan,
    pub kind: Box<ClassKind>,
}

#[derive(Debug, PartialEq)]
pub enum ClassItem {
    Literal(LiteralNode),
    Range { span: PatternSpan, start: char, end: char },
    Class(ClassNode),
}

#[derive(Debug, Clone, Copy, PartialEq, Eq, Structural)]
pub enum ClassBinaryOp {
    /// `[a&&b]`
    Intersection,
    /// `[a--b]`
    Difference,
    /// `[a~~b]`
    SymmetricDifference,
}

#[derive(Debug, Clone, PartialEq)]
pub enum UnicodeClassKind {
    Named(String),
    NamedValue { negated: bool, name: String, value: String },
}

#[derive(Debug, Clone, PartialEq)]
pub struct LiteralNode {
    pub span: PatternSpan,
    pub ch: LiteralChar,
}

#[derive(Debug, Clone, PartialEq)]
pub enum LiteralChar {
    Verbatim(String),
    Octal(String),
    Hex(String),
    Special(SpecialChar),
}

#[derive(Debug, Clone, Copy, PartialEq, Eq, Structural)]
pub enum SpecialChar {
    Bell,
    FormFeed,
    Tab,
    LineFeed,
    CarriageReturn,
    VerticalTab,
    Space,
}

#[derive(Debug, Clone, Copy, PartialEq, Eq, Structural)]
pub struct AssertionNode {
    pub span: PatternSpan,
    pub kind: AssertionKind,
}

#[derive(Debug, Clone, Copy, PartialEq, Eq, Structural)]
pub enum AssertionKind {
    StartLine,
    EndLine,
    StartText,
    EndText,
    WordBoundary,
    NotWordBoundary,
    WordBoundaryStart,
    WordBoundaryEnd,
    WordBoundaryStartHalf,
    WordBoundaryEndHalf,
}

#[derive(Debug, Clone, PartialEq)]
pub struct FlagNode {
    pub span: PatternSpan,
    pub items: Vec<FlagItem>,
}

#[derive(Debug, Clone, Copy, PartialEq, Eq, Structural)]
pub struct FlagItem {
    pub span: PatternSpan,
    pub negated: bool,
    pub kind: FlagKind,
}

#[derive(Debug, Clone, Copy, PartialEq, Eq, Structural)]
pub enum FlagKind {
    /// `i`
    CaseInsensitive,
    /// `m`
    MultiLine,
    /// `s`
    DotMatchesNewLine,
    /// `U`
    SwapGreed,
    /// `u`
    Unicode,
    /// `R`
    Crlf,
    /// `x`
    IgnoreWhitespace,
}

// ---------------------------------------------------------------------------
// Mathematical model
// ---------------------------------------------------------------------------

/// Model of a simplified node: strings as `Seq<char>`, vectors as `Seq`.
pub enum NodeV {
    Flags { span: PatternSpan, items: Seq<FlagItem> },
    Literal(LiteralV),
    Assertion(AssertionNode),
    Alt { span: PatternSpan, alts: Seq<NodeV> },
    Concat { span: PatternSpan, nodes: Seq<NodeV> },
    Class(ClassNodeV),
    Group { span: PatternSpan, kind: GroupKindV, inner: Box<NodeV> },
    Repeat { span: PatternSpan, greedy: bool, min: u32, max: Option<u32>, inner: Box<NodeV> },
}

pub struct LiteralV {
    pub span: PatternSpan,
    pub ch: LiteralCharV,
}

pub enum LiteralCharV {
    Verbatim(Seq<char>),
    Octal(Seq<char>),
    Hex(Seq<char>),
    Special(SpecialChar),
}

pub enum GroupKindV {
    Capture { index: u32, name: Option<Seq<char>> },
    NonCapturing(Seq<FlagItem>),
}

pub struct ClassNodeV {
    pub span: PatternSpan,
    pub negated: bool,
    pub kind: ClassKindV,
}

pub enum ClassKindV {
    Dot,
    PerlDigit,
    PerlSpace,
    PerlWord,
    AsciiAlnum,
    AsciiAlpha,
    AsciiAscii,
    AsciiBlank,
    AsciiCntrl,
    AsciiDigit,
    AsciiGraph,
    AsciiLower,
    AsciiPrint,
    AsciiPunct,
    AsciiSpace,
    AsciiUpper,
    AsciiWord,
    AsciiXdigit,
    Unicode(UnicodeClassKindV),
    Bracketed(Seq<ClassItemV>),
    BracketedOp { op: ClassBinaryOp, lhs: ClassOperandV, rhs: ClassOperandV },
}

pub struct ClassOperandV {
    pub span: PatternSpan,
    pub kind: Box<ClassKindV>,
}

pub enum ClassItemV {
    Literal(LiteralV),
    Range { span: PatternSpan, start: char, end: char },
    Class(ClassNodeV),
}

pub enum UnicodeClassKindV {
    Named(Seq<char>),
    NamedValue { negated: bool, name: Seq<char>, value: Seq<char> },
}

pub open spec fn literal_char_view(c: LiteralChar) -> LiteralCharV {
    match c {
        LiteralChar::Verbatim(s) => LiteralCharV::Verbatim(s@),
        LiteralChar::Octal(s) => LiteralCharV::Octal(s@),
        LiteralChar::Hex(s) => LiteralCharV::Hex(s@),
        LiteralChar::Special(s) => LiteralCharV::Special(s),
    }
}

pub open spec fn literal_view(l: LiteralNode) -> LiteralV {
    LiteralV { span: l.span, ch: literal_char_view(l.ch) }
}

pub open spec fn unicode_kind_view(u: UnicodeClassKind) -> UnicodeClassKindV {
    match u {
        UnicodeClassKind::Named(s) => UnicodeClassKindV::Named(s@),
        UnicodeClassKind::NamedValue { negated, name, value } => UnicodeClassKindV::NamedValue {
            negated,
            name: name@,
            value: value@,
        },
    }
}

pub open spec fn group_kind_view(k: GroupKind) -> GroupKindV {
    match k {
        GroupKind::Capture { index, name } => GroupKindV::Capture {
            index,
            name: match name {
                Some(n) => Some(n@),
                None => None,
            },
        },
        GroupKind::NonCapturing(items) => GroupKindV::NonCapturing(items@),
    }
}

pub open spec fn class_node_view(c: ClassNode) -> ClassNodeV
    decreases c,
{
    ClassNodeV { span: c.span, negated: c.negated, kind: class_kind_view(c.kind) }
}

pub open spec fn class_kind_view(k: ClassKind) -> ClassKindV
    decreases k,
{
    match k {
        ClassKind::Dot => ClassKindV::Dot,
        ClassKind::PerlDigit => ClassKindV::PerlDigit,
        ClassKind::PerlSpace => ClassKindV::PerlSpace,
        ClassKind::PerlWord => ClassKindV::PerlWord,
        ClassKind::AsciiAlnum => ClassKindV::AsciiAlnum,
        ClassKind::AsciiAlpha => ClassKindV::AsciiAlpha,
        ClassKind::AsciiAscii => ClassKindV::AsciiAscii,
        ClassKind::AsciiBlank => ClassKindV::AsciiBlank,
        ClassKind::AsciiCntrl => ClassKindV::AsciiCntrl,
        ClassKind::AsciiDigit => ClassKindV::AsciiDigit,
        ClassKind::AsciiGraph => ClassKindV::AsciiGraph,
        ClassKind::AsciiLower => ClassKindV::AsciiLower,
        ClassKind::AsciiPrint => ClassKindV::AsciiPrint,
        ClassKind::AsciiPunct => ClassKindV::AsciiPunct,
        ClassKind::AsciiSpace => ClassKindV::AsciiSpace,
        ClassKind::AsciiUpper => ClassKindV::AsciiUpper,
        ClassKind::AsciiWord => ClassKindV::AsciiWord,
        ClassKind::AsciiXdigit => ClassKindV::AsciiXdigit,
        ClassKind::Unicode(u) => ClassKindV::Unicode(unicode_kind_view(u)),
        ClassKind::Bracketed(items) => ClassKindV::Bracketed(class_items_view(items@)),
        ClassKind::BracketedOp { op, lhs, rhs } => ClassKindV::BracketedOp {
            op,
            lhs: ClassOperandV { span: lhs.span, kind: Box::new(class_kind_view(*lhs.kind)) },
            rhs: ClassOperandV { span: rhs.span, kind: Box::new(class_kind_view(*rhs.kind)) },
        },
    }
}

pub open spec fn class_items_view(s: Seq<ClassItem>) -> Seq<ClassItemV>
    decreases s,
{
    Seq::new(
        s.len(),
        |i: int|
            if 0 <= i < s.len() {
                class_item_view(s[i])
            } else {
                ClassItemV::Range { span: PatternSpan { start: 0, end: 0 }, start: ' ', end: ' ' }
            },
    )
}

pub open spec fn class_item_view(i: ClassItem) -> ClassItemV
    decreases i,
{
    match i {
        ClassItem::Literal(l) => ClassItemV::Literal(literal_view(l)),
        ClassItem::Range { span, start, end } => ClassItemV::Range { span, start, end },
        ClassItem::Class(c) => ClassItemV::Class(class_node_view(c)),
    }
}

pub open spec fn node_view(n: RegExplainSimplifiedNode) -> NodeV
    decreases n,
{
    match n {
        RegExplainSimplifiedNode::Flags(f) => NodeV::Flags { span: f.span, items: f.items@ },
        RegExplainSimplifiedNode::Literal(l) => NodeV::Literal(literal_view(l)),
        RegExplainSimplifiedNode::Assertion(a) => NodeV::Assertion(a),
        RegExplainSimplifiedNode::Alt { span, alts } => NodeV::Alt { span, alts: nodes_view(alts@) },
        RegExplainSimplifiedNode::Concat { span, nodes } => NodeV::Concat {
            span,
            nodes: nodes_view(nodes@),
        },
        RegExplainSimplifiedNode::Class(c) => NodeV::Class(class_node_view(c)),
        RegExplainSimplifiedNode::Group(g) => NodeV::Group {
            span: g.span,
            kind: group_kind_view(g.kind),
            inner: Box::new(node_view(*g.inner)),
        },
        RegExplainSimplifiedNode::Repeat(r) => NodeV::Repeat {
            span: r.span,
            greedy: r.greedy,
            min: r.min,
            max: r.max,
            inner: Box::new(node_view(*r.inner)),
        },
    }
}

pub open spec fn nodes_view(s: Seq<RegExplainSimplifiedNode>) -> Seq<NodeV>
    decreases s,
{
    Seq::new(
        s.len(),
        |i: int|
            if 0 <= i < s.len() {
                node_view(s[i])
            } else {
                NodeV::Concat { span: PatternSpan { start: 0, end: 0 }, nodes: Seq::empty() }
            },
    )
}

impl View for RegExplainSimplifiedNode {
    type V = NodeV;

    open spec fn view(&self) -> NodeV {
        node_view(*self)
    }
}

impl View for LiteralNode {
    type V = LiteralV;

    open spec fn view(&self) -> LiteralV {
        literal_view(*self)
    }
}

impl View for ClassNode {
    type V = ClassNodeV;

    open spec fn view(&self) -> ClassNodeV {
        class_node_view(*self)
    }
}

impl View for ClassKind {
    type V = ClassKindV;

    open spec fn view(&self) -> ClassKindV {
        class_kind_view(*self)
    }
}

impl View for ClassItem {
    type V = ClassItemV;

    open spec fn view(&self) -> ClassItemV {
        class_item_view(*self)
    }
}

/// The span that a model node covers in the pattern.
pub open spec fn node_span(n: NodeV) -> PatternSpan {
    match n {
        NodeV::Flags { span, .. } => span,
        NodeV::Literal(l) => l.span,
        NodeV::Assertion(a) => a.span,
        NodeV::Class(c) => c.span,
        NodeV::Group { span, .. } => span,
        NodeV::Repeat { span, .. } => span,
        NodeV::Alt { span, .. } => span,
        NodeV::Concat { span, .. } => span,
    }
}

impl RegExplainSimplifiedNode {
    /// The span of the pattern that this node was parsed from.
    pub fn span(&self) -> (r: PatternSpan)
        ensures
            r == node_span(self@),
    {
        match self {
            RegExplainSimplifiedNode::Flags(f) => f.span,
            RegExplainSimplifiedNode::Literal(l) => l.span,
            RegExplainSimplifiedNode::Assertion(a) => a.span,
            RegExplainSimplifiedNode::Class(c) => c.span,
            RegExplainSimplifiedNode::Group(g) => g.span,
            RegExplainSimplifiedNode::Repeat(r) => r.span,
            RegExplainSimplifiedNode::Alt { span, .. } => *span,
            RegExplainSimplifiedNode::Concat { span, .. } => *span,
        }
    }
}

pub(crate) proof fn lemma_node_children_decrease(n: RegExplainSimplifiedNode, v: Vec<RegExplainSimplifiedNode>, i: int)
    requires
        (n matches RegExplainSimplifiedNode::Alt { alts: x, .. } && x == v) || (n matches RegExplainSimplifiedNode::Concat {
            nodes: x,
            ..
        } && x == v),
        0 <= i < v@.len(),
    ensures
        decreases_to!(n => v@[i]),
{
    broadcast use vstd::std_specs::vec::group_vec_axioms;
    assert(decreases_to!(n => v));
    assert(decreases_to!(v => v@));
    assert(decreases_to!(v@ => v@[i]));
}

pub(crate) proof fn lemma_item_class_decreases(i: ClassItem)
    requires
        i is Class,
    ensures
        decreases_to!(i => i->Class_0.kind),
{
    if let ClassItem::Class(c) = i {
        assert(decreases_to!(i => c));
        assert(decreases_to!(c => c.kind));
    }
}

pub(crate) proof fn lemma_inner_decreases(n: RegExplainSimplifiedNode)
    requires
        n is Group || n is Repeat,
    ensures
        n is Group ==> decreases_to!(n => *n->Group_0.inner),
        n is Repeat ==> decreases_to!(n => *n->Repeat_0.inner),
{
    match n {
        RegExplainSimplifiedNode::Group(g) => {
            assert(decreases_to!(n => g));
            assert(decreases_to!(g => g.inner));
        },
        RegExplainSimplifiedNode::Repeat(r) => {
            assert(decreases_to!(n => r));
            assert(decreases_to!(r => r.inner));
        },
        _ => {},
    }
}

} // verus!
