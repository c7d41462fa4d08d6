//! Turns the parser's syntax tree into the simplified tree of `types`.
use vstd::prelude::*;
use crate::syntax::{
    SynAst, SynClassBracketed, SynClassSet, SynClassSetItem, SynClassSimple, SynClassUnicode,
    SynFlagsItem, SynFlagsItemKind, SynGroupKind, SynLiteral, SynLiteralKind, SynAssertionKind,
    SynRepetitionKind, SynUnicodeKind, SynUnicodeOp, SyntaxError, parse_regex, regex_syntax_parse,
};
use crate::text::{char_string, push_text};
use crate::types::{
    AssertionKind, AssertionNode, ClassBinaryOp, ClassItem, ClassItemV, ClassKind, ClassKindV,
    ClassNode, ClassNodeV, ClassOperand, ClassOperandV, FlagItem, FlagNode, GroupKind, GroupKindV,
    GroupNode, LiteralChar, LiteralCharV, LiteralNode, LiteralV, NodeV, PatternSpan,
    RegExplainForm, RegExplainSimplifiedNode, RepeatNode, UnicodeClassKind, UnicodeClassKindV,
    class_kind_view,
};

verus! {

// ---------------------------------------------------------------------------
// What the conversion is
// ---------------------------------------------------------------------------

pub open spec fn literal_of(l: SynLiteral) -> LiteralV {
    LiteralV {
        span: l.span,
        ch: match l.kind {
            SynLiteralKind::Special(s) => LiteralCharV::Special(s),
            SynLiteralKind::Verbatim => LiteralCharV::Verbatim(seq![l.c]),
            SynLiteralKind::Meta => LiteralCharV::Verbatim(seq![l.c]),
            SynLiteralKind::Superfluous => LiteralCharV::Verbatim(seq![l.c]),
            SynLiteralKind::Octal => LiteralCharV::Octal(seq![l.c]),
            SynLiteralKind::HexFixed => LiteralCharV::Hex(seq![l.c]),
            SynLiteralKind::HexBrace => LiteralCharV::Hex(seq![l.c]),
        },
    }
}

/// The angle-bracket forms `\<` and `\>` count as the start and end word
/// boundaries.
pub open spec fn assertion_kind_of(k: SynAssertionKind) -> AssertionKind {
    match k {
        SynAssertionKind::StartLine => AssertionKind::StartLine,
        SynAssertionKind::EndLine => AssertionKind::EndLine,
        SynAssertionKind::StartText => AssertionKind::StartText,
        SynAssertionKind::EndText => AssertionKind::EndText,
        SynAssertionKind::WordBoundary => AssertionKind::WordBoundary,
        SynAssertionKind::NotWordBoundary => AssertionKind::NotWordBoundary,
        SynAssertionKind::WordBoundaryStart => AssertionKind::WordBoundaryStart,
        SynAssertionKind::WordBoundaryStartAngle => AssertionKind::WordBoundaryStart,
        SynAssertionKind::WordBoundaryEnd => AssertionKind::WordBoundaryEnd,
        SynAssertionKind::WordBoundaryEndAngle => AssertionKind::WordBoundaryEnd,
        SynAssertionKind::WordBoundaryStartHalf => AssertionKind::WordBoundaryStartHalf,
        SynAssertionKind::WordBoundaryEndHalf => AssertionKind::WordBoundaryEndHalf,
    }
}

/// The flags of a flag group, in order; a flag is negated when a `-` came
/// before it (`negated` says whether one came before `items`).
pub open spec fn flag_items_from(items: Seq<SynFlagsItem>, negated: bool) -> Seq<FlagItem>
    decreases items.len(),
{
    if items.len() == 0 {
        Seq::empty()
    } else {
        match items[0].kind {
            SynFlagsItemKind::Negation => flag_items_from(items.drop_first(), true),
            SynFlagsItemKind::Flag(f) => seq![FlagItem { span: items[0].span, negated, kind: f }]
                + flag_items_from(items.drop_first(), negated),
        }
    }
}

/// Minimum and maximum count of a repetition operator.
pub open spec fn repetition_bounds(k: SynRepetitionKind) -> (u32, Option<u32>) {
    match k {
        SynRepetitionKind::ZeroOrOne => (0, Some(1)),
        SynRepetitionKind::ZeroOrMore => (0, None),
        SynRepetitionKind::OneOrMore => (1, None),
        SynRepetitionKind::Exactly(n) => (n, Some(n)),
        SynRepetitionKind::AtLeast(n) => (n, None),
        SynRepetitionKind::Bounded(lo, hi) => (lo, Some(hi)),
    }
}

pub open spec fn group_kind_of(k: SynGroupKind) -> GroupKindV {
    match k {
        SynGroupKind::CaptureIndex(i) => GroupKindV::Capture { index: i, name: None },
        SynGroupKind::CaptureName { name, index } => GroupKindV::Capture { index, name: Some(name@) },
        SynGroupKind::NonCapturing(flags) => GroupKindV::NonCapturing(
            flag_items_from(flags.items@, false),
        ),
    }
}

pub open spec fn unicode_kind_of(k: SynUnicodeKind) -> UnicodeClassKindV {
    match k {
        SynUnicodeKind::OneLetter(c) => UnicodeClassKindV::Named(seq![c]),
        SynUnicodeKind::Named(s) => UnicodeClassKindV::Named(s@),
        SynUnicodeKind::NamedValue { op, name, value } => UnicodeClassKindV::NamedValue {
            negated: op is NotEqual,
            name: name@,
            value: value@,
        },
    }
}

pub open spec fn unicode_class_of(c: SynClassUnicode) -> ClassNodeV {
    ClassNodeV { span: c.span, negated: c.negated, kind: ClassKindV::Unicode(unicode_kind_of(c.kind)) }
}

pub open spec fn simple_class_of(c: SynClassSimple) -> ClassNodeV {
    ClassNodeV { span: c.span, negated: c.negated, kind: class_kind_view(c.kind) }
}

pub open spec fn bracketed_of(c: SynClassBracketed) -> ClassNodeV
    decreases c, 0nat,
{
    ClassNodeV { span: c.span, negated: c.negated, kind: class_set_kind(c.kind) }
}

/// A bracketed class is the list of its items, unions flattened; a binary
/// operation keeps both operands with their spans.
pub open spec fn class_set_kind(s: SynClassSet) -> ClassKindV
    decreases s, 0nat,
{
    match s {
        SynClassSet::Item(i) => ClassKindV::Bracketed(collected_items(i)),
        SynClassSet::BinaryOp { span, kind, lhs, rhs } => ClassKindV::BracketedOp {
            op: kind,
            lhs: ClassOperandV { span: class_set_span_of(*lhs), kind: Box::new(class_set_kind(*lhs)) },
            rhs: ClassOperandV { span: class_set_span_of(*rhs), kind: Box::new(class_set_kind(*rhs)) },
        },
    }
}

pub open spec fn class_item_span(i: ClassItemV) -> PatternSpan {
    match i {
        ClassItemV::Literal(l) => l.span,
        ClassItemV::Range { span, .. } => span,
        ClassItemV::Class(c) => c.span,
    }
}

/// The span of a class-set operand: from its first to its last item (an
/// empty item list gives `0..0`), or the span of a nested operation.
pub open spec fn class_set_span_of(s: SynClassSet) -> PatternSpan
    decreases s, 0nat,
{
    match s {
        SynClassSet::Item(i) => {
            let items = collected_items(i);
            if items.len() == 0 {
                PatternSpan { start: 0, end: 0 }
            } else {
                PatternSpan {
                    start: class_item_span(items[0]).start,
                    end: class_item_span(items[items.len() - 1]).end,
                }
            }
        },
        SynClassSet::BinaryOp { span, .. } => span,
    }
}

/// The items of a class-set item: nothing for an empty item, the items of
/// each member for a union, else the item itself.
pub open spec fn collected_items(i: SynClassSetItem) -> Seq<ClassItemV>
    decreases i, 1nat,
{
    match i {
        SynClassSetItem::Empty(_) => Seq::empty(),
        SynClassSetItem::Union { items, .. } => collect_items_seq(items@),
        _ => seq![class_item_of(i)],
    }
}

pub open spec fn collect_items_seq(s: Seq<SynClassSetItem>) -> Seq<ClassItemV>
    decreases s, 0nat,
{
    if s.len() == 0 {
        Seq::empty()
    } else {
        collect_items_seq(s.subrange(0, s.len() - 1)) + collected_items(s[s.len() - 1])
    }
}

/// A single (non-empty, non-union) class-set item.
pub open spec fn class_item_of(i: SynClassSetItem) -> ClassItemV
    decreases i, 0nat,
{
    match i {
        SynClassSetItem::Literal(l) => ClassItemV::Literal(literal_of(l)),
        SynClassSetItem::Range { span, start, end } => ClassItemV::Range { span, start: start.c, end: end.c },
        SynClassSetItem::Ascii(c) => ClassItemV::Class(simple_class_of(c)),
        SynClassSetItem::Unicode(c) => ClassItemV::Class(unicode_class_of(c)),
        SynClassSetItem::Perl(c) => ClassItemV::Class(simple_class_of(c)),
        SynClassSetItem::Bracketed(b) => ClassItemV::Class(bracketed_of(*b)),
        SynClassSetItem::Empty(span) => ClassItemV::Range { span, start: ' ', end: ' ' },
        SynClassSetItem::Union { span, .. } => ClassItemV::Range { span, start: ' ', end: ' ' },
    }
}

pub open spec fn is_verbatim(n: NodeV) -> bool {
    n matches NodeV::Literal(l) && l.ch is Verbatim
}

/// Two adjacent verbatim literals as one: the span runs from the first's
/// start to the second's end, the text is both texts in order.
pub open spec fn join_verbatim(a: NodeV, b: NodeV) -> NodeV {
    match (a, b) {
        (NodeV::Literal(la), NodeV::Literal(lb)) => match (la.ch, lb.ch) {
            (LiteralCharV::Verbatim(sa), LiteralCharV::Verbatim(sb)) => NodeV::Literal(
                LiteralV {
                    span: PatternSpan { start: la.span.start, end: lb.span.end },
                    ch: LiteralCharV::Verbatim(sa + sb),
                },
            ),
            _ => a,
        },
        _ => a,
    }
}

/// The nodes of a concatenation, each run of adjacent verbatim literals
/// merged into one literal.
pub open spec fn merge_verbatims(ns: Seq<NodeV>) -> Seq<NodeV>
    decreases ns.len(),
{
    if ns.len() == 0 {
        ns
    } else {
        let m = merge_verbatims(ns.drop_last());
        let x = ns.last();
        if m.len() > 0 && is_verbatim(m.last()) && is_verbatim(x) {
            m.drop_last().push(join_verbatim(m.last(), x))
        } else {
            m.push(x)
        }
    }
}

/// The simplified node for a parsed node.
pub open spec fn simplify(a: SynAst) -> NodeV
    decreases a,
{
    match a {
        SynAst::Empty(_) => NodeV::Concat { span: PatternSpan { start: 0, end: 0 }, nodes: Seq::empty() },
        SynAst::Dot(s) => NodeV::Class(ClassNodeV { span: s, negated: false, kind: ClassKindV::Dot }),
        SynAst::Flags { span, flags } => NodeV::Flags { span, items: flag_items_from(flags.items@, false) },
        SynAst::Literal(l) => NodeV::Literal(literal_of(l)),
        SynAst::Assertion { span, kind } => NodeV::Assertion(
            AssertionNode { span, kind: assertion_kind_of(kind) },
        ),
        SynAst::Repetition { span, kind, greedy, ast } => NodeV::Repeat {
            span,
            greedy,
            min: repetition_bounds(kind).0,
            max: repetition_bounds(kind).1,
            inner: Box::new(simplify(*ast)),
        },
        SynAst::Group { span, kind, ast } => NodeV::Group {
            span,
            kind: group_kind_of(kind),
            inner: Box::new(simplify(*ast)),
        },
        SynAst::ClassBracketed(c) => NodeV::Class(bracketed_of(c)),
        SynAst::ClassUnicode(c) => NodeV::Class(unicode_class_of(c)),
        SynAst::ClassPerl(c) => NodeV::Class(simple_class_of(c)),
        SynAst::Alternation { span, asts } => NodeV::Alt { span, alts: simplify_all(asts@) },
        SynAst::Concat { span, asts } => NodeV::Concat {
            span,
            nodes: merge_verbatims(simplify_all(asts@)),
        },
    }
}

pub open spec fn simplify_all(s: Seq<SynAst>) -> Seq<NodeV>
    decreases s,
{
    Seq::new(
        s.len(),
        |i: int|
            if 0 <= i < s.len() {
                simplify(s[i])
            } else {
                NodeV::Concat { span: PatternSpan { start: 0, end: 0 }, nodes: Seq::empty() }
            },
    )
}


// ---------------------------------------------------------------------------
// Copies of class kinds (the derived `Clone` is not visible to proofs)
// ---------------------------------------------------------------------------

impl LiteralNode {
    /// A copy of this literal.
    pub fn duplicate(&self) -> (r: LiteralNode)
        ensures
            r@ == self@,
    {
        let ch = match &self.ch {
            LiteralChar::Verbatim(s) => LiteralChar::Verbatim(s.clone()),
            LiteralChar::Octal(s) => LiteralChar::Octal(s.clone()),
            LiteralChar::Hex(s) => LiteralChar::Hex(s.clone()),
            LiteralChar::Special(s) => LiteralChar::Special(*s),
        };
        LiteralNode { span: self.span, ch }
    }
}

impl UnicodeClassKind {
    /// A copy of this Unicode class kind.
    pub fn duplicate(&self) -> (r: UnicodeClassKind)
        ensures
            crate::types::unicode_kind_view(r) == crate::types::unicode_kind_view(*self),
    {
        match self {
            UnicodeClassKind::Named(s) => UnicodeClassKind::Named(s.clone()),
            UnicodeClassKind::NamedValue { negated, name, value } => UnicodeClassKind::NamedValue {
                negated: *negated,
                name: name.clone(),
                value: value.clone(),
            },
        }
    }
}

impl ClassNode {
    /// A copy of this class node.
    pub fn duplicate(&self) -> (r: ClassNode)
        ensures
            r@ == self@,
        decreases self, 0nat,
    {
        ClassNode { span: self.span, negated: self.negated, kind: self.kind.duplicate() }
    }
}

impl ClassItem {
    /// A copy of this class item.
    pub fn duplicate(&self) -> (r: ClassItem)
        ensures
            r@ == self@,
        decreases self, 0nat,
    {
        match self {
            ClassItem::Literal(l) => ClassItem::Literal(l.duplicate()),
            ClassItem::Range { span, start, end } => ClassItem::Range { span: *span, start: *start, end: *end },
            ClassItem::Class(c) => ClassItem::Class(c.duplicate()),
        }
    }
}

impl ClassKind {
    /// A copy of this class kind.
    pub fn duplicate(&self) -> (r: ClassKind)
        ensures
            r@ == self@,
        decreases self, 1nat,
    {
        match self {
            ClassKind::Dot => ClassKind::Dot,
            ClassKind::PerlDigit => ClassKind::PerlDigit,
            ClassKind::PerlSpace => ClassKind::PerlSpace,
            ClassKind::PerlWord => ClassKind::PerlWord,
            ClassKind::AsciiAlnum => ClassKind::AsciiAlnum,
            ClassKind::AsciiAlpha => ClassKind::AsciiAlpha,
            ClassKind::AsciiAscii => ClassKind::AsciiAscii,
            ClassKind::AsciiBlank => ClassKind::AsciiBlank,
            ClassKind::AsciiCntrl => ClassKind::AsciiCntrl,
            ClassKind::AsciiDigit => ClassKind::AsciiDigit,
            ClassKind::AsciiGraph => ClassKind::AsciiGraph,
            ClassKind::AsciiLower => ClassKind::AsciiLower,
            ClassKind::AsciiPrint => ClassKind::AsciiPrint,
            ClassKind::AsciiPunct => ClassKind::AsciiPunct,
            ClassKind::AsciiSpace => ClassKind::AsciiSpace,
            ClassKind::AsciiUpper => ClassKind::AsciiUpper,
            ClassKind::AsciiWord => ClassKind::AsciiWord,
            ClassKind::AsciiXdigit => ClassKind::AsciiXdigit,
            ClassKind::Unicode(u) => ClassKind::Unicode(u.duplicate()),
            ClassKind::Bracketed(items) => {
                let mut out: Vec<ClassItem> = Vec::new();
                let mut k: usize = 0;
                while k < items.len()
                    invariant
                        *self == ClassKind::Bracketed(*items),
                        k <= items.len(),
                        out.len() == k,
                        forall|j: int| 0 <= j < k ==> #[trigger] out@[j]@ == items@[j]@,
                    decreases items.len() - k,
                {
                    proof {
                        lemma_bracketed_decreases(*self, k as int);
                    }
                    out.push(items[k].duplicate());
                    k += 1;
                }
                proof {
                    assert forall|j: int| 0 <= j < k implies crate::types::class_item_view(out@[j])
                        == crate::types::class_item_view(items@[j]) by {
                        assert(out@[j]@ == items@[j]@);
                    }
                    assert(crate::types::class_items_view(out@) =~= crate::types::class_items_view(
                        items@,
                    ));
                }
                ClassKind::Bracketed(out)
            },
            ClassKind::BracketedOp { op, lhs, rhs } => ClassKind::BracketedOp {
                op: *op,
                lhs: ClassOperand { span: lhs.span, kind: Box::new(lhs.kind.duplicate()) },
                rhs: ClassOperand { span: rhs.span, kind: Box::new(rhs.kind.duplicate()) },
            },
        }
    }
}


pub(crate) proof fn lemma_bracketed_decreases(k: ClassKind, i: int)
    requires
        k is Bracketed,
        0 <= i < k->Bracketed_0@.len(),
    ensures
        decreases_to!(k => k->Bracketed_0@[i]),
{
    broadcast use vstd::std_specs::vec::group_vec_axioms;
    if let ClassKind::Bracketed(items) = k {
        assert(decreases_to!(k => items));
        assert(decreases_to!(items => items@));
        assert(decreases_to!(items@ => items@[i]));
    }
}


// ---------------------------------------------------------------------------
// The conversion
// ---------------------------------------------------------------------------

proof fn lemma_asts_decrease(a: SynAst, asts: Vec<SynAst>, i: int)
    requires
        (a matches SynAst::Alternation { asts: x, .. } && x == asts) || (a matches SynAst::Concat {
            asts: x,
            ..
        } && x == asts),
        0 <= i < asts@.len(),
    ensures
        decreases_to!(a => asts@[i]),
{
    broadcast use vstd::std_specs::vec::group_vec_axioms;
    assert(decreases_to!(a => asts));
    assert(decreases_to!(asts => asts@));
    assert(decreases_to!(asts@ => asts@[i]));
}

proof fn lemma_union_decreases(u: SynClassSetItem, items: Vec<SynClassSetItem>, i: int)
    requires
        u matches SynClassSetItem::Union { items: x, .. } && x == items,
        0 <= i < items@.len(),
    ensures
        decreases_to!(u => items@[i]),
{
    broadcast use vstd::std_specs::vec::group_vec_axioms;
    assert(decreases_to!(u => items));
    assert(decreases_to!(items => items@));
    assert(decreases_to!(items@ => items@[i]));
}

impl AssertionKind {
    /// The assertion kind for a parsed assertion.
    pub fn from_syntax(k: &SynAssertionKind) -> (r: AssertionKind)
        ensures
            r == assertion_kind_of(*k),
    {
        match k {
            SynAssertionKind::StartLine => AssertionKind::StartLine,
            SynAssertionKind::EndLine => AssertionKind::EndLine,
            SynAssertionKind::StartText => AssertionKind::StartText,
            SynAssertionKind::EndText => AssertionKind::EndText,
            SynAssertionKind::WordBoundary => AssertionKind::WordBoundary,
            SynAssertionKind::NotWordBoundary => AssertionKind::NotWordBoundary,
            SynAssertionKind::WordBoundaryStart => AssertionKind::WordBoundaryStart,
            SynAssertionKind::WordBoundaryStartAngle => AssertionKind::WordBoundaryStart,
            SynAssertionKind::WordBoundaryEnd => AssertionKind::WordBoundaryEnd,
            SynAssertionKind::WordBoundaryEndAngle => AssertionKind::WordBoundaryEnd,
            SynAssertionKind::WordBoundaryStartHalf => AssertionKind::WordBoundaryStartHalf,
            SynAssertionKind::WordBoundaryEndHalf => AssertionKind::WordBoundaryEndHalf,
        }
    }
}

impl LiteralNode {
    /// The literal node for a parsed literal: escapes that stand for the
    /// character itself (`a`, `\.`, `\-`) count as verbatim.
    pub fn from_syntax(l: &SynLiteral) -> (r: LiteralNode)
        ensures
            r@ == literal_of(*l),
    {
        let ch = match &l.kind {
            SynLiteralKind::Special(s) => LiteralChar::Special(*s),
            SynLiteralKind::Verbatim => LiteralChar::Verbatim(char_string(l.c)),
            SynLiteralKind::Meta => LiteralChar::Verbatim(char_string(l.c)),
            SynLiteralKind::Superfluous => LiteralChar::Verbatim(char_string(l.c)),
            SynLiteralKind::Octal => LiteralChar::Octal(char_string(l.c)),
            SynLiteralKind::HexFixed => LiteralChar::Hex(char_string(l.c)),
            SynLiteralKind::HexBrace => LiteralChar::Hex(char_string(l.c)),
        };
        LiteralNode { span: l.span, ch }
    }
}

/// The flags of a flag group; every flag after a `-` is negated.
pub fn flags_items(items: &Vec<SynFlagsItem>) -> (r: Vec<FlagItem>)
    ensures
        r@ == flag_items_from(items@, false),
{
    let mut negated = false;
    let mut out: Vec<FlagItem> = Vec::new();
    let mut i: usize = 0;
    assert(items@.skip(0) =~= items@);
    assert(out@ + flag_items_from(items@, false) =~= flag_items_from(items@, false));
    while i < items.len()
        invariant
            i <= items.len(),
            out@ + flag_items_from(items@.skip(i as int), negated) == flag_items_from(items@, false),
        decreases items.len() - i,
    {
        let ghost rest = items@.skip(i as int);
        assert(rest.drop_first() =~= items@.skip(i + 1));
        assert(rest[0] == items@[i as int]);
        match &items[i].kind {
            SynFlagsItemKind::Negation => {
                negated = true;
            },
            SynFlagsItemKind::Flag(f) => {
                let item = FlagItem { span: items[i].span, negated, kind: *f };
                proof {
                    assert(flag_items_from(rest, negated) == seq![item] + flag_items_from(
                        items@.skip(i + 1),
                        negated,
                    ));
                    assert(out@.push(item) + flag_items_from(items@.skip(i + 1), negated) =~= out@
                        + flag_items_from(rest, negated));
                }
                out.push(item);
            },
        }
        i += 1;
    }
    assert(items@.skip(i as int) =~= Seq::<SynFlagsItem>::empty());
    assert(out@ + Seq::<FlagItem>::empty() =~= out@);
    out
}

impl FlagNode {
    /// The node for a flag group such as `(?i-s)`.
    pub fn from_syntax(span: PatternSpan, flags: &crate::syntax::SynFlags) -> (r: FlagNode)
        ensures
            r.span == span,
            r.items@ == flag_items_from(flags.items@, false),
    {
        FlagNode { span, items: flags_items(&flags.items) }
    }
}

/// Minimum and maximum count of a repetition operator.
pub fn repetition_counts(k: &SynRepetitionKind) -> (r: (u32, Option<u32>))
    ensures
        r == repetition_bounds(*k),
{
    match k {
        SynRepetitionKind::ZeroOrOne => (0, Some(1)),
        SynRepetitionKind::ZeroOrMore => (0, None),
        SynRepetitionKind::OneOrMore => (1, None),
        SynRepetitionKind::Exactly(n) => (*n, Some(*n)),
        SynRepetitionKind::AtLeast(n) => (*n, None),
        SynRepetitionKind::Bounded(lo, hi) => (*lo, Some(*hi)),
    }
}

impl GroupKind {
    /// The kind of a parsed group.
    pub fn from_syntax(k: &SynGroupKind) -> (r: GroupKind)
        ensures
            crate::types::group_kind_view(r) == group_kind_of(*k),
    {
        match k {
            SynGroupKind::CaptureIndex(i) => GroupKind::Capture { index: *i, name: None },
            SynGroupKind::CaptureName { name, index } => GroupKind::Capture {
                index: *index,
                name: Some(name.clone()),
            },
            SynGroupKind::NonCapturing(flags) => GroupKind::NonCapturing(flags_items(&flags.items)),
        }
    }
}

impl UnicodeClassKind {
    /// The kind of a parsed Unicode class; `\pN` names the one-letter class.
    pub fn from_syntax(k: &SynUnicodeKind) -> (r: UnicodeClassKind)
        ensures
            crate::types::unicode_kind_view(r) == unicode_kind_of(*k),
    {
        match k {
            SynUnicodeKind::OneLetter(c) => UnicodeClassKind::Named(char_string(*c)),
            SynUnicodeKind::Named(s) => UnicodeClassKind::Named(s.clone()),
            SynUnicodeKind::NamedValue { op, name, value } => UnicodeClassKind::NamedValue {
                negated: match op {
                    SynUnicodeOp::NotEqual => true,
                    _ => false,
                },
                name: name.clone(),
                value: value.clone(),
            },
        }
    }
}

impl ClassNode {
    /// The node for a Unicode class such as `\p{Greek}`.
    pub fn from_unicode(c: &SynClassUnicode) -> (r: ClassNode)
        ensures
            r@ == unicode_class_of(*c),
    {
        ClassNode {
            span: c.span,
            negated: c.negated,
            kind: ClassKind::Unicode(UnicodeClassKind::from_syntax(&c.kind)),
        }
    }

    /// The node for a Perl (`\d`) or ASCII (`[:alpha:]`) class.
    pub fn from_simple(c: &SynClassSimple) -> (r: ClassNode)
        ensures
            r@ == simple_class_of(*c),
    {
        ClassNode { span: c.span, negated: c.negated, kind: c.kind.duplicate() }
    }

    /// The node for a bracketed class such as `[a-z&&[^x]]`.
    pub fn from_bracketed(c: &SynClassBracketed) -> (r: ClassNode)
        ensures
            r@ == bracketed_of(*c),
        decreases c, 0nat,
    {
        ClassNode { span: c.span, negated: c.negated, kind: ClassKind::from_class_set(&c.kind) }
    }
}

impl ClassKind {
    /// The kind of a bracketed class's contents.
    pub fn from_class_set(s: &SynClassSet) -> (r: ClassKind)
        ensures
            r@ == class_set_kind(*s),
        decreases s, 0nat,
    {
        match s {
            SynClassSet::Item(i) => ClassKind::Bracketed(collect_items(i)),
            SynClassSet::BinaryOp { span, kind, lhs, rhs } => ClassKind::BracketedOp {
                op: *kind,
                lhs: ClassOperand {
                    span: class_set_span(lhs),
                    kind: Box::new(ClassKind::from_class_set(lhs)),
                },
                rhs: ClassOperand {
                    span: class_set_span(rhs),
                    kind: Box::new(ClassKind::from_class_set(rhs)),
                },
            },
        }
    }
}

/// The span of a class-set operand: from its first item to its last (`0..0`
/// when it has none), or the span of a nested operation.
pub fn class_set_span(s: &SynClassSet) -> (r: PatternSpan)
    ensures
        r == class_set_span_of(*s),
    decreases s, 0nat,
{
    match s {
        SynClassSet::Item(i) => {
            let items = collect_items(i);
            proof {
                assert(crate::types::class_items_view(items@).len() == items@.len());
            }
            if items.len() == 0 {
                PatternSpan { start: 0, end: 0 }
            } else {
                let first = item_span(&items[0]);
                let last = item_span(&items[items.len() - 1]);
                PatternSpan { start: first.start, end: last.end }
            }
        },
        SynClassSet::BinaryOp { span, .. } => *span,
    }
}

fn item_span(i: &ClassItem) -> (r: PatternSpan)
    ensures
        r == class_item_span(i@),
{
    match i {
        ClassItem::Literal(l) => l.span,
        ClassItem::Range { span, .. } => *span,
        ClassItem::Class(c) => c.span,
    }
}

/// The items of a class-set item, with unions flattened and empty items
/// dropped.
pub fn collect_items(item: &SynClassSetItem) -> (r: Vec<ClassItem>)
    ensures
        crate::types::class_items_view(r@) == collected_items(*item),
    decreases item, 1nat,
{
    match item {
        SynClassSetItem::Empty(_) => {
            let out: Vec<ClassItem> = Vec::new();
            assert(crate::types::class_items_view(out@) =~= Seq::<ClassItemV>::empty());
            out
        },
        SynClassSetItem::Union { span, items } => {
            let mut out: Vec<ClassItem> = Vec::new();
            let mut k: usize = 0;
            assert(crate::types::class_items_view(out@) =~= collect_items_seq(items@.take(0)));
            while k < items.len()
                invariant
                    *item == (SynClassSetItem::Union { span: *span, items: *items }),
                    k <= items.len(),
                    crate::types::class_items_view(out@) == collect_items_seq(items@.take(k as int)),
                decreases items.len() - k,
            {
                proof {
                    lemma_union_decreases(*item, *items, k as int);
                }
                let mut sub = collect_items(&items[k]);
                let ghost before = out@;
                let ghost subv = sub@;
                out.append(&mut sub);
                proof {
                    assert(items@.take(k + 1).subrange(0, k as int) =~= items@.take(k as int));
                    assert(crate::types::class_items_view(out@) =~= crate::types::class_items_view(
                        before,
                    ) + crate::types::class_items_view(subv));
                }
                k += 1;
            }
            assert(items@.take(k as int) =~= items@);
            out
        },
        _ => {
            let mut out: Vec<ClassItem> = Vec::new();
            out.push(ClassItem::from_syntax(item));
            assert(crate::types::class_items_view(out@) =~= seq![class_item_of(*item)]);
            out
        },
    }
}

impl ClassItem {
    /// A single class-set item; unions and empty items are flattened by
    /// `collect_items` and never reach here.
    pub fn from_syntax(i: &SynClassSetItem) -> (r: ClassItem)
        requires
            !(i is Empty),
            !(i is Union),
        ensures
            r@ == class_item_of(*i),
        decreases i, 0nat,
    {
        match i {
            SynClassSetItem::Literal(l) => ClassItem::Literal(LiteralNode::from_syntax(l)),
            SynClassSetItem::Range { span, start, end } => ClassItem::Range {
                span: *span,
                start: start.c,
                end: end.c,
            },
            SynClassSetItem::Ascii(c) => ClassItem::Class(ClassNode::from_simple(c)),
            SynClassSetItem::Unicode(c) => ClassItem::Class(ClassNode::from_unicode(c)),
            SynClassSetItem::Perl(c) => ClassItem::Class(ClassNode::from_simple(c)),
            SynClassSetItem::Bracketed(b) => ClassItem::Class(ClassNode::from_bracketed(b)),
            SynClassSetItem::Empty(span) | SynClassSetItem::Union { span, .. } => ClassItem::Range {
                span: *span,
                start: ' ',
                end: ' ',
            },
        }
    }
}


/// The not-yet-emitted run of verbatim literals, as a model sequence.
pub open spec fn pending_run(has: bool, span: PatternSpan, text: Seq<char>) -> Seq<NodeV> {
    if has {
        seq![NodeV::Literal(LiteralV { span, ch: LiteralCharV::Verbatim(text) })]
    } else {
        Seq::empty()
    }
}

impl RegExplainSimplifiedNode {
    /// The simplified node for a parsed node.
    pub fn from_syntax(a: &SynAst) -> (r: RegExplainSimplifiedNode)
        ensures
            r@ == simplify(*a),
        decreases a,
    {
        match a {
            SynAst::Empty(_) => {
                let nodes: Vec<RegExplainSimplifiedNode> = Vec::new();
                assert(crate::types::nodes_view(nodes@) =~= Seq::<NodeV>::empty());
                RegExplainSimplifiedNode::Concat { span: PatternSpan { start: 0, end: 0 }, nodes }
            },
            SynAst::Dot(s) => RegExplainSimplifiedNode::Class(
                ClassNode { span: *s, negated: false, kind: ClassKind::Dot },
            ),
            SynAst::Flags { span, flags } => RegExplainSimplifiedNode::Flags(
                FlagNode::from_syntax(*span, flags),
            ),
            SynAst::Literal(l) => RegExplainSimplifiedNode::Literal(LiteralNode::from_syntax(l)),
            SynAst::Assertion { span, kind } => RegExplainSimplifiedNode::Assertion(
                AssertionNode { span: *span, kind: AssertionKind::from_syntax(kind) },
            ),
            SynAst::Repetition { span, kind, greedy, ast } => {
                let (min, max) = repetition_counts(kind);
                RegExplainSimplifiedNode::Repeat(
                    RepeatNode {
                        span: *span,
                        greedy: *greedy,
                        min,
                        max,
                        inner: Box::new(RegExplainSimplifiedNode::from_syntax(ast)),
                    },
                )
            },
            SynAst::Group { span, kind, ast } => RegExplainSimplifiedNode::Group(
                GroupNode {
                    span: *span,
                    kind: GroupKind::from_syntax(kind),
                    inner: Box::new(RegExplainSimplifiedNode::from_syntax(ast)),
                },
            ),
            SynAst::ClassBracketed(c) => RegExplainSimplifiedNode::Class(ClassNode::from_bracketed(c)),
            SynAst::ClassUnicode(c) => RegExplainSimplifiedNode::Class(ClassNode::from_unicode(c)),
            SynAst::ClassPerl(c) => RegExplainSimplifiedNode::Class(ClassNode::from_simple(c)),
            SynAst::Alternation { span, asts } => {
                let mut alts: Vec<RegExplainSimplifiedNode> = Vec::new();
                let mut i: usize = 0;
                while i < asts.len()
                    invariant
                        *a == (SynAst::Alternation { span: *span, asts: *asts }),
                        i <= asts.len(),
                        alts.len() == i,
                        forall|j: int| 0 <= j < i ==> #[trigger] alts@[j]@ == simplify(asts@[j]),
                    decreases asts.len() - i,
                {
                    proof {
                        lemma_asts_decrease(*a, *asts, i as int);
                    }
                    alts.push(RegExplainSimplifiedNode::from_syntax(&asts[i]));
                    i += 1;
                }
                proof {
                    assert forall|j: int| 0 <= j < i implies crate::types::node_view(alts@[j])
                        == simplify(asts@[j]) by {
                        assert(alts@[j]@ == simplify(asts@[j]));
                    }
                    assert(crate::types::nodes_view(alts@) =~= simplify_all(asts@));
                }
                RegExplainSimplifiedNode::Alt { span: *span, alts }
            },
            SynAst::Concat { span, asts } => {
                let ghost mapped = simplify_all(asts@);
                let mut out: Vec<RegExplainSimplifiedNode> = Vec::new();
                let mut has_pending = false;
                let mut pend_span = PatternSpan { start: 0, end: 0 };
                let mut pend_text = String::new();
                let mut i: usize = 0;
                proof {
                    assert(mapped.take(0) =~= Seq::<NodeV>::empty());
                    assert(crate::types::nodes_view(out@) =~= Seq::<NodeV>::empty());
                    assert(crate::types::nodes_view(out@) + pending_run(has_pending, pend_span, pend_text@)
                        =~= merge_verbatims(mapped.take(0)));
                }
                while i < asts.len()
                    invariant
                        *a == (SynAst::Concat { span: *span, asts: *asts }),
                        i <= asts.len(),
                        mapped == simplify_all(asts@),
                        crate::types::nodes_view(out@) + pending_run(has_pending, pend_span, pend_text@)
                            == merge_verbatims(mapped.take(i as int)),
                        !has_pending ==> out@.len() == 0 || !is_verbatim(
                            crate::types::node_view(out@.last()),
                        ),
                    decreases asts.len() - i,
                {
                    proof {
                        lemma_asts_decrease(*a, *asts, i as int);
                    }
                    let n = RegExplainSimplifiedNode::from_syntax(&asts[i]);
                    let ghost before = crate::types::nodes_view(out@);
                    let ghost m = merge_verbatims(mapped.take(i as int));
                    proof {
                        assert(mapped.take(i + 1).drop_last() =~= mapped.take(i as int));
                        assert(mapped.take(i + 1).last() == n@);
                    }
                    match n {
                        RegExplainSimplifiedNode::Literal(
                            LiteralNode { span: ls, ch: LiteralChar::Verbatim(t) },
                        ) => {
                            if has_pending {
                                let ghost old_text = pend_text@;
                                pend_span = PatternSpan { start: pend_span.start, end: ls.end };
                                push_text(&mut pend_text, t.as_str());
                                proof {
                                    assert(m.drop_last() =~= before);
                                    assert(crate::types::nodes_view(out@) + pending_run(
                                        has_pending,
                                        pend_span,
                                        pend_text@,
                                    ) =~= m.drop_last().push(
                                        join_verbatim(m.last(), mapped.take(i + 1).last()),
                                    ));
                                }
                            } else {
                                has_pending = true;
                                pend_span = ls;
                                pend_text = t;
                                proof {
                                    assert(m =~= before);
                                    assert(crate::types::nodes_view(out@) + pending_run(
                                        has_pending,
                                        pend_span,
                                        pend_text@,
                                    ) =~= m.push(mapped.take(i + 1).last()));
                                }
                            }
                        },
                        other => {
                            let ghost ov = other@;
                            if has_pending {
                                let lit = RegExplainSimplifiedNode::Literal(
                                    LiteralNode { span: pend_span, ch: LiteralChar::Verbatim(pend_text) },
                                );
                                out.push(lit);
                                has_pending = false;
                                pend_text = String::new();
                            }
                            let ghost mid = crate::types::nodes_view(out@);
                            out.push(other);
                            proof {
                                assert(!is_verbatim(ov));
                                assert(crate::types::nodes_view(out@) =~= mid.push(ov));
                                assert(mid =~= m);
                                assert(crate::types::nodes_view(out@) + pending_run(
                                    has_pending,
                                    pend_span,
                                    pend_text@,
                                ) =~= m.push(ov));
                            }
                        },
                    }
                    i += 1;
                }
                proof {
                    assert(mapped.take(i as int) =~= mapped);
                }
                if has_pending {
                    let lit = RegExplainSimplifiedNode::Literal(
                        LiteralNode { span: pend_span, ch: LiteralChar::Verbatim(pend_text) },
                    );
                    let ghost before = crate::types::nodes_view(out@);
                    out.push(lit);
                    assert(crate::types::nodes_view(out@) =~= before + pending_run(
                        true,
                        pend_span,
                        pend_text@,
                    ));
                } else {
                    assert(crate::types::nodes_view(out@) =~= crate::types::nodes_view(out@)
                        + pending_run(false, pend_span, pend_text@));
                }
                RegExplainSimplifiedNode::Concat { span: *span, nodes: out }
            },
        }
    }
}

/// Parses `pattern` and simplifies its syntax tree. Fails exactly when the
/// parser rejects the pattern, with the parser's error.
pub fn parse_and_convert(pattern: &str) -> (r: Result<RegExplainForm, SyntaxError>)
    ensures
        match regex_syntax_parse(pattern@) {
            Ok(a) => r is Ok && r->Ok_0.pattern@ == pattern@ && r->Ok_0.root@ == simplify(a),
            Err(e) => r == Err::<RegExplainForm, SyntaxError>(e),
        },
{
    match parse_regex(pattern) {
        Ok(a) => Ok(
            RegExplainForm {
                pattern: String::from_str(pattern),
                root: RegExplainSimplifiedNode::from_syntax(&a),
            },
        ),
        Err(e) => Err(e),
    }
}


/// After merging, no two neighbouring nodes are both verbatim literals,
/// and there are no more nodes than before.
pub proof fn lemma_merged_no_adjacent_verbatims(ns: Seq<NodeV>)
    ensures
        merge_verbatims(ns).len() <= ns.len(),
        forall|i: int|
            0 <= i < merge_verbatims(ns).len() - 1 ==> !(is_verbatim(#[trigger] merge_verbatims(ns)[i]) && is_verbatim(
                merge_verbatims(ns)[i + 1],
            )),
    decreases ns.len(),
{
    if ns.len() > 0 {
        let m = merge_verbatims(ns.drop_last());
        lemma_merged_no_adjacent_verbatims(ns.drop_last());
        let r = merge_verbatims(ns);
        let x = ns.last();
        if m.len() > 0 && is_verbatim(m.last()) && is_verbatim(x) {
            assert(is_verbatim(join_verbatim(m.last(), x)));
            assert forall|i: int| 0 <= i < r.len() - 1 implies !(is_verbatim(#[trigger] r[i]) && is_verbatim(r[i + 1])) by {
                assert(r[i] == m[i]);
                if i + 1 < r.len() - 1 {
                    assert(r[i + 1] == m[i + 1]);
                } else {
                    assert(i + 1 == m.len() - 1);
                    assert(!(is_verbatim(m[i]) && is_verbatim(m[i + 1])));
                }
            }
        } else {
            assert forall|i: int| 0 <= i < r.len() - 1 implies !(is_verbatim(#[trigger] r[i]) && is_verbatim(r[i + 1])) by {
                assert(r[i] == m[i]);
                if i + 1 < m.len() {
                    assert(r[i + 1] == m[i + 1]);
                }
            }
        }
    }
}


/// No two neighbouring nodes are both verbatim literals.
pub open spec fn no_adjacent_verbatims(ns: Seq<NodeV>) -> bool {
    forall|i: int| 0 <= i < ns.len() - 1 ==> !(is_verbatim(#[trigger] ns[i]) && is_verbatim(ns[i + 1]))
}

/// Every concatenation anywhere in the tree has its verbatim runs merged.
pub open spec fn concats_merged(n: NodeV) -> bool
    decreases n, 1nat,
{
    match n {
        NodeV::Alt { alts, .. } => all_merged(alts),
        NodeV::Concat { nodes, .. } => no_adjacent_verbatims(nodes) && all_merged(nodes),
        NodeV::Group { inner, .. } => concats_merged(*inner),
        NodeV::Repeat { inner, .. } => concats_merged(*inner),
        _ => true,
    }
}

/// `concats_merged` of every node of a sequence.
pub open spec fn all_merged(s: Seq<NodeV>) -> bool
    decreases s, 0nat,
{
    if s.len() == 0 {
        true
    } else {
        all_merged(s.subrange(0, s.len() - 1)) && concats_merged(s[s.len() - 1])
    }
}

proof fn lemma_all_merged(s: Seq<NodeV>)
    ensures
        all_merged(s) <==> forall|j: int| 0 <= j < s.len() ==> #[trigger] concats_merged(s[j]),
    decreases s.len(),
{
    if s.len() > 0 {
        let t = s.subrange(0, s.len() - 1);
        lemma_all_merged(t);
        assert(all_merged(s) == (all_merged(t) && concats_merged(s[s.len() - 1])));
        assert forall|j: int| 0 <= j < t.len() implies #[trigger] t[j] == s[j] by {}
        if forall|j: int| 0 <= j < s.len() ==> #[trigger] concats_merged(s[j]) {
            assert forall|j: int| 0 <= j < t.len() implies #[trigger] concats_merged(t[j]) by {
                assert(t[j] == s[j]);
            }
        }
        if all_merged(s) {
            assert forall|j: int| 0 <= j < s.len() implies #[trigger] concats_merged(s[j]) by {
                if j < s.len() - 1 {
                    assert(t[j] == s[j]);
                    assert(concats_merged(t[j]));
                }
            }
        }
    }
}

proof fn lemma_merge_keeps_merged(ns: Seq<NodeV>)
    requires
        forall|j: int| 0 <= j < ns.len() ==> #[trigger] concats_merged(ns[j]),
    ensures
        forall|k: int| 0 <= k < merge_verbatims(ns).len() ==> #[trigger] concats_merged(merge_verbatims(ns)[k]),
    decreases ns.len(),
{
    if ns.len() > 0 {
        let m = merge_verbatims(ns.drop_last());
        assert forall|j: int| 0 <= j < ns.drop_last().len() implies #[trigger] concats_merged(ns.drop_last()[j]) by {
            assert(ns.drop_last()[j] == ns[j]);
        }
        lemma_merge_keeps_merged(ns.drop_last());
        let x = ns.last();
        assert(concats_merged(ns[ns.len() - 1]));
        let r = merge_verbatims(ns);
        if m.len() > 0 && is_verbatim(m.last()) && is_verbatim(x) {
            assert(concats_merged(m[m.len() - 1]));
            assert(concats_merged(join_verbatim(m.last(), x)));
            assert forall|k: int| 0 <= k < r.len() implies #[trigger] concats_merged(r[k]) by {
                if k < r.len() - 1 {
                    assert(r[k] == m[k]);
                }
            }
        } else {
            assert forall|k: int| 0 <= k < r.len() implies #[trigger] concats_merged(r[k]) by {
                if k < r.len() - 1 {
                    assert(r[k] == m[k]);
                }
            }
        }
    }
}

/// In the simplified form of any parsed pattern, no concatenation, however
/// deeply nested, holds two neighbouring verbatim literals.
pub proof fn lemma_simplified_concats_merged(a: SynAst)
    ensures
        concats_merged(simplify(a)),
    decreases a,
{
    broadcast use vstd::std_specs::vec::group_vec_axioms;
    reveal_with_fuel(concats_merged, 2);
    match a {
        SynAst::Repetition { ast, .. } => {
            lemma_simplified_concats_merged(*ast);
        },
        SynAst::Group { ast, .. } => {
            lemma_simplified_concats_merged(*ast);
        },
        SynAst::Alternation { asts, .. } => {
            assert forall|i: int| 0 <= i < simplify_all(asts@).len() implies #[trigger] concats_merged(
                simplify_all(asts@)[i],
            ) by {
                assert(decreases_to!(a => asts));
                assert(decreases_to!(asts => asts@));
                assert(decreases_to!(asts@ => asts@[i]));
                lemma_simplified_concats_merged(asts@[i]);
            }
            lemma_all_merged(simplify_all(asts@));
        },
        SynAst::Concat { asts, .. } => {
            assert forall|i: int| 0 <= i < simplify_all(asts@).len() implies #[trigger] concats_merged(
                simplify_all(asts@)[i],
            ) by {
                assert(decreases_to!(a => asts));
                assert(decreases_to!(asts => asts@));
                assert(decreases_to!(asts@ => asts@[i]));
                lemma_simplified_concats_merged(asts@[i]);
            }
            lemma_merge_keeps_merged(simplify_all(asts@));
            lemma_merged_no_adjacent_verbatims(simplify_all(asts@));
            lemma_all_merged(merge_verbatims(simplify_all(asts@)));
        },
        _ => {},
    }
}

/// A bracketed class keeps its span and whether it is negated: `[^...]`
/// simplifies to a negated class, `[...]` to one that is not.
pub proof fn lemma_bracketed_keeps_negation(c: SynClassBracketed)
    ensures
        simplify(SynAst::ClassBracketed(c)) matches NodeV::Class(n) && n.negated == c.negated && n.span == c.span,
{
}

} // verus!
