//! Plain-language descriptions of a simplified regular expression, as a tree
//! of description lines.
use vstd::prelude::*;
use crate::text::{char_string, decimal, push_decimal, push_text};
use crate::types::{
    AssertionKind, AssertionNode, ClassBinaryOp, ClassItem, ClassItemV, ClassKind, ClassKindV,
    ClassNode, ClassNodeV, FlagItem, FlagKind, GroupKind, GroupKindV, LiteralChar, LiteralCharV,
    LiteralNode, LiteralV, NodeV, PatternSpan, RegExplainSimplifiedNode, SpecialChar,
    UnicodeClassKind, UnicodeClassKindV, lemma_inner_decreases, lemma_item_class_decreases,
    lemma_node_children_decrease,
};

verus! {

/// One line of the description tree: its text (empty for a transparent
/// grouping line), the part of the pattern it explains, and its sub-lines.
pub struct DescNode {
    pub desc: String,
    pub span: PatternSpan,
    pub nested_items: Vec<DescNode>,
}

/// Model of a description node.
pub struct DescV {
    pub desc: Seq<char>,
    pub span: PatternSpan,
    pub items: Seq<DescV>,
}

pub open spec fn desc_view(d: DescNode) -> DescV
    decreases d,
{
    DescV { desc: d.desc@, span: d.span, items: descs_view(d.nested_items@) }
}

pub open spec fn descs_view(s: Seq<DescNode>) -> Seq<DescV>
    decreases s,
{
    Seq::new(
        s.len(),
        |i: int|
            if 0 <= i < s.len() {
                desc_view(s[i])
            } else {
                DescV { desc: Seq::empty(), span: PatternSpan { start: 0, end: 0 }, items: Seq::empty() }
            },
    )
}

impl View for DescNode {
    type V = DescV;

    open spec fn view(&self) -> DescV {
        desc_view(*self)
    }
}

pub open spec fn leaf(desc: Seq<char>, span: PatternSpan) -> DescV {
    DescV { desc, span, items: Seq::empty() }
}

// ---------------------------------------------------------------------------
// What each node is described as
// ---------------------------------------------------------------------------

pub open spec fn literal_desc(l: LiteralV) -> DescV {
    leaf(
        match l.ch {
            LiteralCharV::Verbatim(s) => "matches \""@ + s + "\" literally"@,
            LiteralCharV::Octal(s) => "matches character "@ + s + ", (octal escaped)"@,
            LiteralCharV::Hex(s) => "matches character "@ + s + ", (hex escaped)"@,
            LiteralCharV::Special(c) => special_text(c),
        },
        l.span,
    )
}

pub open spec fn special_text(c: SpecialChar) -> Seq<char> {
    match c {
        SpecialChar::Bell => "matches bell character (\\a) literally"@,
        SpecialChar::FormFeed => "matches form feed character (\\f) literally"@,
        SpecialChar::Tab => "matches tab character (\\t) literally"@,
        SpecialChar::LineFeed => "matches line feed character (\\n) literally"@,
        SpecialChar::CarriageReturn => "matches carriage return character (\\r) literally"@,
        SpecialChar::VerticalTab => "matches vertical tab character (\\v) literally"@,
        SpecialChar::Space => "matches space character in verbose mode (\\ )"@,
    }
}

pub open spec fn assertion_text(k: AssertionKind) -> Seq<char> {
    match k {
        AssertionKind::StartLine => "asserts position at start of line"@,
        AssertionKind::EndLine => "asserts position at the end of line"@,
        AssertionKind::StartText => "asserts position at start of text"@,
        AssertionKind::EndText => "asserts position at end of text"@,
        AssertionKind::WordBoundary => "asserts position at word boundary"@,
        AssertionKind::NotWordBoundary => "asserts position where \\b does not match"@,
        _ => "..."@,
    }
}

pub open spec fn flag_text(k: FlagKind) -> Seq<char> {
    match k {
        FlagKind::CaseInsensitive => "case-insensitive matching"@,
        FlagKind::MultiLine => "multi-line (^ and $ match line boundaries)"@,
        FlagKind::DotMatchesNewLine => "dot matches newline"@,
        FlagKind::SwapGreed => "swap greediness"@,
        FlagKind::Unicode => "Unicode mode"@,
        FlagKind::Crlf => "CRLF line endings"@,
        FlagKind::IgnoreWhitespace => "ignore whitespace and comments"@,
    }
}

pub open spec fn flag_item_desc(item: FlagItem) -> DescV {
    leaf(
        (if item.negated { "disable"@ } else { "enable"@ }) + " "@ + flag_text(item.kind),
        item.span,
    )
}

pub open spec fn flag_item_descs(items: Seq<FlagItem>) -> Seq<DescV> {
    items.map_values(|i: FlagItem| flag_item_desc(i))
}

/// The text of a simple class, `neg` being "not a" or "a".
pub open spec fn simple_class_text(k: ClassKindV, neg: Seq<char>) -> Seq<char> {
    match k {
        ClassKindV::Dot => "matches any character (except newline)"@,
        ClassKindV::PerlDigit => "matches any character this is "@ + neg + " digit 0 to 9 in any unicode script"@,
        ClassKindV::PerlSpace => "matches any character that is "@ + neg + " whitespace character in any unicode script"@,
        ClassKindV::PerlWord => "matches anything that is "@ + neg + " word character in any unicode script"@,
        ClassKindV::AsciiAlnum => "matches any character that is "@ + neg + " alphanumeric ASCII, same as [0-9A-Za-z]"@,
        ClassKindV::AsciiAlpha => "matches any character that is "@ + neg + " ASCII letter, same as [A-Za-z]"@,
        ClassKindV::AsciiAscii => "matches any character that is "@ + neg + " ASCII character, same as [\\x00-\\x7F]"@,
        ClassKindV::AsciiBlank => "matches any character that is "@ + neg + " space or tab"@,
        ClassKindV::AsciiCntrl => "matches any character that is "@ + neg + " ASCII control character, same as [\\x00-\\x1F\\x7F]"@,
        ClassKindV::AsciiDigit => "matches any character that is "@ + neg + " ASCII digit, same as [0-9]"@,
        ClassKindV::AsciiGraph => "matches any character that is "@ + neg + " visible ASCII character, same as [!-~]"@,
        ClassKindV::AsciiLower => "matches any character that is "@ + neg + " ASCII lowercase letter, same as [a-z]"@,
        ClassKindV::AsciiPrint => "matches any character that is "@ + neg + " printable ASCII character, same as [ -~]"@,
        ClassKindV::AsciiPunct => "matches any character that is "@ + neg + " ASCII punctuation, same as [!-/:-@\\[-`{-~]"@,
        ClassKindV::AsciiSpace => "matches any character that is "@ + neg + " ASCII whitespace, same as [ \\t\\r\\n\\f\\v]"@,
        ClassKindV::AsciiUpper => "matches any character that is "@ + neg + " ASCII uppercase letter, same as [A-Z]"@,
        ClassKindV::AsciiWord => "matches any character that is "@ + neg + " ASCII word character, same as [0-9A-Za-z_]"@,
        ClassKindV::AsciiXdigit => "matches any character that is "@ + neg + " hex digit, same as [0-9A-Fa-f]"@,
        _ => Seq::empty(),
    }
}

pub open spec fn unicode_text(u: UnicodeClassKindV, negated: bool) -> Seq<char> {
    match u {
        UnicodeClassKindV::Named(s) => "matches any character that "@
            + (if negated { "doesn't satisfy"@ } else { "satisfies"@ }) + " Unicode property \\p{"@
            + s + "}"@,
        UnicodeClassKindV::NamedValue { negated: nv, name, value } => "matches any character with "@
            + name + " "@ + (if nv != negated { "not equals to"@ } else { "equals to"@ }) + " "@
            + value,
    }
}

pub open spec fn binary_op_text(op: ClassBinaryOp) -> Seq<char> {
    match op {
        ClassBinaryOp::Intersection => "both of the list below"@,
        ClassBinaryOp::Difference => "first list but not in second list"@,
        ClassBinaryOp::SymmetricDifference => "first list or in second list but not in both lists"@,
    }
}

/// A class: simple kinds are one line; a bracketed list lists its items; a
/// set operation lists its two operands under "1st list" and "2nd list".
pub open spec fn class_desc(c: ClassNodeV) -> DescV {
    class_kind_desc(c.kind, c.negated, c.span)
}

pub open spec fn class_kind_desc(kind: ClassKindV, negated: bool, span: PatternSpan) -> DescV
    decreases kind, 0nat,
{
    let neg: Seq<char> = if negated { "not a"@ } else { "a"@ };
    match kind {
        ClassKindV::Unicode(u) => leaf(unicode_text(u, negated), span),
        ClassKindV::Bracketed(items) => DescV {
            desc: "matches any one character that is "@ + neg + " in the list below"@,
            span,
            items: class_item_descs(items),
        },
        ClassKindV::BracketedOp { op, lhs, rhs } => DescV {
            desc: "matches any character that is "@ + (if negated { "not in"@ } else { "in"@ }) + " "@
                + binary_op_text(op),
            span,
            items: seq![
                DescV { desc: "1st list"@, span: lhs.span, items: seq![class_kind_desc(*lhs.kind, false, lhs.span)] },
                DescV { desc: "2nd list"@, span: rhs.span, items: seq![class_kind_desc(*rhs.kind, false, rhs.span)] },
            ],
        },
        _ => leaf(simple_class_text(kind, neg), span),
    }
}

pub open spec fn class_item_descs(s: Seq<ClassItemV>) -> Seq<DescV>
    decreases s, 1nat,
{
    Seq::new(
        s.len(),
        |i: int|
            if 0 <= i < s.len() {
                class_item_desc(s[i])
            } else {
                leaf(Seq::empty(), PatternSpan { start: 0, end: 0 })
            },
    )
}

pub open spec fn class_item_desc(i: ClassItemV) -> DescV
    decreases i, 1nat,
{
    match i {
        ClassItemV::Literal(l) => literal_desc(l),
        ClassItemV::Range { span, start, end } => leaf(
            "matches anything from '"@ + seq![start] + "' to '"@ + seq![end] + "'"@,
            span,
        ),
        ClassItemV::Class(c) => class_kind_desc(c.kind, c.negated, c.span),
    }
}

pub open spec fn group_header(k: GroupKindV) -> Seq<char> {
    match k {
        GroupKindV::Capture { index, name } => match name {
            None => "capture group #"@ + decimal(index as nat),
            Some(n) => "capture group #"@ + decimal(index as nat) + " named \""@ + n + "\""@,
        },
        GroupKindV::NonCapturing(_) => "non-capturing group"@,
    }
}

/// How often a repetition matches.
pub open spec fn count_text(min: u32, max: Option<u32>) -> Seq<char> {
    if min == 0 && max == Some(1u32) {
        "optionally"@
    } else if min == 0 && max is None {
        "0 or more times"@
    } else if min == 1 && max is None {
        "1 or more times"@
    } else {
        match max {
            Some(m) => if m == min {
                "exactly "@ + decimal(min as nat) + " time(s)"@
            } else {
                decimal(min as nat) + " to "@ + decimal(m as nat) + " times"@
            },
            None => decimal(min as nat) + " or more times"@,
        }
    }
}

/// The description of a node.
pub open spec fn describe(n: NodeV) -> DescV
    decreases n,
{
    match n {
        NodeV::Flags { span, items } => DescV {
            desc: "enable/disable the following flags:"@,
            span,
            items: flag_item_descs(items),
        },
        NodeV::Literal(l) => literal_desc(l),
        NodeV::Assertion(a) => leaf(assertion_text(a.kind), a.span),
        NodeV::Alt { span, alts } => DescV {
            desc: "Selects one of the matches from the following list"@,
            span,
            items: describe_all(alts),
        },
        NodeV::Concat { span, nodes } => DescV { desc: Seq::empty(), span, items: describe_all(nodes) },
        NodeV::Class(c) => class_desc(c),
        NodeV::Group { span, kind, inner } => DescV {
            desc: group_header(kind),
            span,
            items: match kind {
                GroupKindV::NonCapturing(flags) => flag_item_descs(flags),
                _ => Seq::empty(),
            }.push(describe(*inner)),
        },
        NodeV::Repeat { span, greedy, min, max, inner } => {
            let d = describe(*inner);
            DescV {
                desc: d.desc + ", "@ + count_text(min, max) + (if greedy { " (greedy)"@ } else { " (lazy)"@ }),
                span,
                items: d.items,
            }
        },
    }
}

pub open spec fn describe_all(s: Seq<NodeV>) -> Seq<DescV>
    decreases s,
{
    Seq::new(
        s.len(),
        |i: int|
            if 0 <= i < s.len() {
                describe(s[i])
            } else {
                leaf(Seq::empty(), PatternSpan { start: 0, end: 0 })
            },
    )
}


// ---------------------------------------------------------------------------
// Building descriptions
// ---------------------------------------------------------------------------

/// `a`, `b` and `c` joined.
fn join3(a: &str, b: &str, c: &str) -> (r: String)
    ensures
        r@ == a@ + b@ + c@,
{
    let mut s = String::from_str(a);
    push_text(&mut s, b);
    push_text(&mut s, c);
    s
}


impl DescNode {
    /// A line with no sub-lines.
    pub fn leaf(desc: String, span: PatternSpan) -> (r: DescNode)
        ensures
            r@ == leaf(desc@, span),
    {
        let r = DescNode { desc, span, nested_items: Vec::new() };
        assert(descs_view(r.nested_items@) =~= Seq::<DescV>::empty());
        r
    }

    /// Describes a literal.
    pub fn from_literal(l: &LiteralNode) -> (r: DescNode)
        ensures
            r@ == literal_desc(l@),
    {
        let text = match &l.ch {
            LiteralChar::Verbatim(s) => join3("matches \"", s.as_str(), "\" literally"),
            LiteralChar::Octal(s) => join3("matches character ", s.as_str(), ", (octal escaped)"),
            LiteralChar::Hex(s) => join3("matches character ", s.as_str(), ", (hex escaped)"),
            LiteralChar::Special(c) => String::from_str(
                match c {
                    SpecialChar::Bell => "matches bell character (\\a) literally",
                    SpecialChar::FormFeed => "matches form feed character (\\f) literally",
                    SpecialChar::Tab => "matches tab character (\\t) literally",
                    SpecialChar::LineFeed => "matches line feed character (\\n) literally",
                    SpecialChar::CarriageReturn => "matches carriage return character (\\r) literally",
                    SpecialChar::VerticalTab => "matches vertical tab character (\\v) literally",
                    SpecialChar::Space => "matches space character in verbose mode (\\ )",
                },
            ),
        };
        DescNode::leaf(text, l.span)
    }

    /// Describes an assertion.
    pub fn from_assertion(a: &AssertionNode) -> (r: DescNode)
        ensures
            r@ == leaf(assertion_text(a.kind), a.span),
    {
        let text = match a.kind {
            AssertionKind::StartLine => "asserts position at start of line",
            AssertionKind::EndLine => "asserts position at the end of line",
            AssertionKind::StartText => "asserts position at start of text",
            AssertionKind::EndText => "asserts position at end of text",
            AssertionKind::WordBoundary => "asserts position at word boundary",
            AssertionKind::NotWordBoundary => "asserts position where \\b does not match",
            _ => "...",
        };
        DescNode::leaf(String::from_str(text), a.span)
    }

    /// Describes one flag of a flag group.
    pub fn from_flag_item(item: &FlagItem) -> (r: DescNode)
        ensures
            r@ == flag_item_desc(*item),
    {
        let what = match item.kind {
            FlagKind::CaseInsensitive => "case-insensitive matching",
            FlagKind::MultiLine => "multi-line (^ and $ match line boundaries)",
            FlagKind::DotMatchesNewLine => "dot matches newline",
            FlagKind::SwapGreed => "swap greediness",
            FlagKind::Unicode => "Unicode mode",
            FlagKind::Crlf => "CRLF line endings",
            FlagKind::IgnoreWhitespace => "ignore whitespace and comments",
        };
        let head = if item.negated { "disable" } else { "enable" };
        DescNode::leaf(join3(head, " ", what), item.span)
    }

    fn from_flag_items(items: &Vec<FlagItem>) -> (r: Vec<DescNode>)
        ensures
            descs_view(r@) == flag_item_descs(items@),
    {
        let mut out: Vec<DescNode> = Vec::new();
        let mut i: usize = 0;
        while i < items.len()
            invariant
                i <= items.len(),
                out.len() == i,
                forall|j: int| 0 <= j < i ==> #[trigger] out@[j]@ == flag_item_desc(items@[j]),
            decreases items.len() - i,
        {
            out.push(DescNode::from_flag_item(&items[i]));
            i += 1;
        }
        proof {
            assert forall|j: int| 0 <= j < i implies desc_view(out@[j]) == flag_item_desc(items@[j]) by {
                assert(out@[j]@ == flag_item_desc(items@[j]));
            }
            assert(descs_view(out@) =~= flag_item_descs(items@));
        }
        out
    }

    /// Describes a flag group such as `(?i-s)`.
    pub fn from_flag_node(f: &crate::types::FlagNode) -> (r: DescNode)
        ensures
            r@ == describe(NodeV::Flags { span: f.span, items: f.items@ }),
    {
        DescNode {
            desc: String::from_str("enable/disable the following flags:"),
            span: f.span,
            nested_items: DescNode::from_flag_items(&f.items),
        }
    }

    /// Describes a class node.
    pub fn from_class(c: &ClassNode) -> (r: DescNode)
        ensures
            r@ == class_desc(c@),
    {
        DescNode::from_class_kind(&c.kind, c.negated, c.span)
    }

    fn from_class_kind(kind: &ClassKind, negated: bool, span: PatternSpan) -> (r: DescNode)
        ensures
            r@ == class_kind_desc(kind@, negated, span),
        decreases kind, 0nat,
    {
        let neg = if negated { "not a" } else { "a" };
        match kind {
            ClassKind::Unicode(u) => {
                let text = match u {
                    UnicodeClassKind::Named(s) => {
                        let verb = if negated { "doesn't satisfy" } else { "satisfies" };
                        let mut t = join3("matches any character that ", verb, " Unicode property \\p{");
                        push_text(&mut t, s.as_str());
                        push_text(&mut t, "}");
                        t
                    },
                    UnicodeClassKind::NamedValue { negated: nv, name, value } => {
                        let rel = if *nv != negated { "not equals to" } else { "equals to" };
                        let mut t = join3("matches any character with ", name.as_str(), " ");
                        push_text(&mut t, rel);
                        push_text(&mut t, " ");
                        push_text(&mut t, value.as_str());
                        t
                    },
                };
                DescNode::leaf(text, span)
            },
            ClassKind::Bracketed(items) => {
                let mut out: Vec<DescNode> = Vec::new();
                let mut k: usize = 0;
                while k < items.len()
                    invariant
                        *kind == ClassKind::Bracketed(*items),
                        k <= items.len(),
                        out.len() == k,
                        forall|j: int| 0 <= j < k ==> #[trigger] out@[j]@ == class_item_desc(items@[j]@),
                    decreases items.len() - k,
                {
                    proof {
                        crate::convert::lemma_bracketed_decreases(*kind, k as int);
                    }
                    out.push(DescNode::from_class_item(&items[k]));
                    k += 1;
                }
                proof {
                    assert forall|j: int| 0 <= j < k implies desc_view(out@[j]) == class_item_desc(
                        crate::types::class_items_view(items@)[j],
                    ) by {
                        assert(out@[j]@ == class_item_desc(items@[j]@));
                    }
                    assert(descs_view(out@) =~= class_item_descs(crate::types::class_items_view(items@)));
                }
                DescNode {
                    desc: join3("matches any one character that is ", neg, " in the list below"),
                    span,
                    nested_items: out,
                }
            },
            ClassKind::BracketedOp { op, lhs, rhs } => {
                let inn = if negated { "not in" } else { "in" };
                let op_str = match op {
                    ClassBinaryOp::Intersection => "both of the list below",
                    ClassBinaryOp::Difference => "first list but not in second list",
                    ClassBinaryOp::SymmetricDifference => "first list or in second list but not in both lists",
                };
                let mut desc = join3("matches any character that is ", inn, " ");
                push_text(&mut desc, op_str);
                let l = DescNode::from_class_kind(&lhs.kind, false, lhs.span);
                let r = DescNode::from_class_kind(&rhs.kind, false, rhs.span);
                let mut lv: Vec<DescNode> = Vec::new();
                lv.push(l);
                let mut rv: Vec<DescNode> = Vec::new();
                rv.push(r);
                let first = DescNode { desc: String::from_str("1st list"), span: lhs.span, nested_items: lv };
                let second = DescNode { desc: String::from_str("2nd list"), span: rhs.span, nested_items: rv };
                let mut items: Vec<DescNode> = Vec::new();
                items.push(first);
                items.push(second);
                let res = DescNode { desc, span, nested_items: items };
                proof {
                    assert(descs_view(first.nested_items@) =~= seq![
                        class_kind_desc(lhs.kind@, false, lhs.span),
                    ]);
                    assert(descs_view(second.nested_items@) =~= seq![
                        class_kind_desc(rhs.kind@, false, rhs.span),
                    ]);
                    assert(descs_view(res.nested_items@) =~= seq![first@, second@]);
                }
                res
            },
            _ => {
                let text = match kind {
                    ClassKind::Dot => String::from_str("matches any character (except newline)"),
                    ClassKind::PerlDigit => join3("matches any character this is ", neg, " digit 0 to 9 in any unicode script"),
                    ClassKind::PerlSpace => join3("matches any character that is ", neg, " whitespace character in any unicode script"),
                    ClassKind::PerlWord => join3("matches anything that is ", neg, " word character in any unicode script"),
                    ClassKind::AsciiAlnum => join3("matches any character that is ", neg, " alphanumeric ASCII, same as [0-9A-Za-z]"),
                    ClassKind::AsciiAlpha => join3("matches any character that is ", neg, " ASCII letter, same as [A-Za-z]"),
                    ClassKind::AsciiAscii => join3("matches any character that is ", neg, " ASCII character, same as [\\x00-\\x7F]"),
                    ClassKind::AsciiBlank => join3("matches any character that is ", neg, " space or tab"),
                    ClassKind::AsciiCntrl => join3("matches any character that is ", neg, " ASCII control character, same as [\\x00-\\x1F\\x7F]"),
                    ClassKind::AsciiDigit => join3("matches any character that is ", neg, " ASCII digit, same as [0-9]"),
                    ClassKind::AsciiGraph => join3("matches any character that is ", neg, " visible ASCII character, same as [!-~]"),
                    ClassKind::AsciiLower => join3("matches any character that is ", neg, " ASCII lowercase letter, same as [a-z]"),
                    ClassKind::AsciiPrint => join3("matches any character that is ", neg, " printable ASCII character, same as [ -~]"),
                    ClassKind::AsciiPunct => join3("matches any character that is ", neg, " ASCII punctuation, same as [!-/:-@\\[-`{-~]"),
                    ClassKind::AsciiSpace => join3("matches any character that is ", neg, " ASCII whitespace, same as [ \\t\\r\\n\\f\\v]"),
                    ClassKind::AsciiUpper => join3("matches any character that is ", neg, " ASCII uppercase letter, same as [A-Z]"),
                    ClassKind::AsciiWord => join3("matches any character that is ", neg, " ASCII word character, same as [0-9A-Za-z_]"),
                    ClassKind::AsciiXdigit => join3("matches any character that is ", neg, " hex digit, same as [0-9A-Fa-f]"),
                    _ => String::new(),
                };
                DescNode::leaf(text, span)
            },
        }
    }

    /// Describes one item of a bracketed class.
    pub fn from_class_item(i: &ClassItem) -> (r: DescNode)
        ensures
            r@ == class_item_desc(i@),
        decreases i, 1nat,
    {
        match i {
            ClassItem::Literal(l) => DescNode::from_literal(l),
            ClassItem::Range { span, start, end } => {
                let mut t = join3("matches anything from '", char_string(*start).as_str(), "' to '");
                push_text(&mut t, char_string(*end).as_str());
                push_text(&mut t, "'");
                DescNode::leaf(t, *span)
            },
            ClassItem::Class(c) => {
                proof {
                    lemma_item_class_decreases(*i);
                }
                DescNode::from_class_kind(&c.kind, c.negated, c.span)
            },
        }
    }
}


/// How often a repetition matches.
fn count_string(min: u32, max: Option<u32>) -> (r: String)
    ensures
        r@ == count_text(min, max),
{
    let (bounded, hi) = match max {
        Some(m) => (true, m),
        None => (false, 0u32),
    };
    if min == 0 && bounded && hi == 1 {
        String::from_str("optionally")
    } else if min == 0 && !bounded {
        String::from_str("0 or more times")
    } else if min == 1 && !bounded {
        String::from_str("1 or more times")
    } else if bounded && hi == min {
        let mut t = String::from_str("exactly ");
        push_decimal(&mut t, min as u64);
        push_text(&mut t, " time(s)");
        t
    } else if bounded {
        let mut t = String::new();
        push_decimal(&mut t, min as u64);
        push_text(&mut t, " to ");
        push_decimal(&mut t, hi as u64);
        push_text(&mut t, " times");
        proof {
            assert(Seq::<char>::empty() + decimal(min as nat) =~= decimal(min as nat));
        }
        t
    } else {
        let mut t = String::new();
        push_decimal(&mut t, min as u64);
        push_text(&mut t, " or more times");
        proof {
            assert(Seq::<char>::empty() + decimal(min as nat) =~= decimal(min as nat));
        }
        t
    }
}

impl DescNode {
    /// A group's line, given the description of its inner node: the header
    /// names the capture index and name (or says non-capturing, listing the
    /// group's flags), followed by the inner description.
    fn group_from_parts(g: &crate::types::GroupNode, inner: DescNode) -> (r: DescNode)
        ensures
            r@ == (DescV {
                desc: group_header(crate::types::group_kind_view(g.kind)),
                span: g.span,
                items: match crate::types::group_kind_view(g.kind) {
                    GroupKindV::NonCapturing(flags) => flag_item_descs(flags),
                    _ => Seq::empty(),
                }.push(inner@),
            }),
    {
        let (header, mut nested) = match &g.kind {
            GroupKind::Capture { index, name } => {
                let mut h = String::from_str("capture group #");
                push_decimal(&mut h, *index as u64);
                match name {
                    Some(n) => {
                        push_text(&mut h, " named \"");
                        push_text(&mut h, n.as_str());
                        push_text(&mut h, "\"");
                    },
                    None => {},
                }
                let v: Vec<DescNode> = Vec::new();
                assert(descs_view(v@) =~= Seq::<DescV>::empty());
                (h, v)
            },
            GroupKind::NonCapturing(flags) => (
                String::from_str("non-capturing group"),
                DescNode::from_flag_items(flags),
            ),
        };
        let ghost before = descs_view(nested@);
        let ghost iv = inner@;
        nested.push(inner);
        assert(descs_view(nested@) =~= before.push(iv));
        DescNode { desc: header, span: g.span, nested_items: nested }
    }

    /// A repetition's line: the inner description followed by how often and
    /// how greedily it repeats; it spans the whole repetition.
    fn repeat_from_parts(r: &crate::types::RepeatNode, inner: DescNode) -> (res: DescNode)
        ensures
            res@ == (DescV {
                desc: inner@.desc + ", "@ + count_text(r.min, r.max) + (if r.greedy {
                    " (greedy)"@
                } else {
                    " (lazy)"@
                }),
                span: r.span,
                items: inner@.items,
            }),
    {
        let mut inner = inner;
        push_text(&mut inner.desc, ", ");
        let count = count_string(r.min, r.max);
        push_text(&mut inner.desc, count.as_str());
        push_text(&mut inner.desc, if r.greedy { " (greedy)" } else { " (lazy)" });
        DescNode { desc: inner.desc, span: r.span, nested_items: inner.nested_items }
    }

    /// Describes a group.
    pub fn from_group(g: &crate::types::GroupNode) -> (r: DescNode)
        ensures
            r@ == describe(
                NodeV::Group {
                    span: g.span,
                    kind: crate::types::group_kind_view(g.kind),
                    inner: Box::new(g.inner@),
                },
            ),
    {
        let inner = DescNode::from_node(&g.inner);
        DescNode::group_from_parts(g, inner)
    }

    /// Describes a repetition.
    pub fn from_repeat(r: &crate::types::RepeatNode) -> (res: DescNode)
        ensures
            res@ == describe(
                NodeV::Repeat {
                    span: r.span,
                    greedy: r.greedy,
                    min: r.min,
                    max: r.max,
                    inner: Box::new(r.inner@),
                },
            ),
    {
        let inner = DescNode::from_node(&r.inner);
        DescNode::repeat_from_parts(r, inner)
    }

    /// Describes a simplified node and everything below it.
    pub fn from_node(n: &RegExplainSimplifiedNode) -> (r: DescNode)
        ensures
            r@ == describe(n@),
        decreases n,
    {
        match n {
            RegExplainSimplifiedNode::Flags(f) => DescNode::from_flag_node(f),
            RegExplainSimplifiedNode::Literal(l) => DescNode::from_literal(l),
            RegExplainSimplifiedNode::Assertion(a) => DescNode::from_assertion(a),
            RegExplainSimplifiedNode::Class(c) => DescNode::from_class(c),
            RegExplainSimplifiedNode::Group(g) => {
                proof {
                    lemma_inner_decreases(*n);
                }
                let inner = DescNode::from_node(&g.inner);
                DescNode::group_from_parts(g, inner)
            },
            RegExplainSimplifiedNode::Repeat(r) => {
                proof {
                    lemma_inner_decreases(*n);
                }
                let inner = DescNode::from_node(&r.inner);
                DescNode::repeat_from_parts(r, inner)
            },
            RegExplainSimplifiedNode::Alt { span, alts } => {
                let items = DescNode::from_children(n, alts);
                DescNode {
                    desc: String::from_str("Selects one of the matches from the following list"),
                    span: *span,
                    nested_items: items,
                }
            },
            RegExplainSimplifiedNode::Concat { span, nodes } => {
                let items = DescNode::from_children(n, nodes);
                DescNode { desc: String::new(), span: *span, nested_items: items }
            },
        }
    }

    fn from_children(n: &RegExplainSimplifiedNode, children: &Vec<RegExplainSimplifiedNode>) -> (r: Vec<DescNode>)
        requires
            (*n matches RegExplainSimplifiedNode::Alt { alts: x, .. } && x == *children) || (*n matches RegExplainSimplifiedNode::Concat {
                nodes: x,
                ..
            } && x == *children),
        ensures
            descs_view(r@) == describe_all(crate::types::nodes_view(children@)),
        decreases n, 0nat,
    {
        let mut out: Vec<DescNode> = Vec::new();
        let mut i: usize = 0;
        while i < children.len()
            invariant
                (*n matches RegExplainSimplifiedNode::Alt { alts: x, .. } && x == *children) || (*n matches RegExplainSimplifiedNode::Concat {
                    nodes: x,
                    ..
                } && x == *children),
                i <= children.len(),
                out.len() == i,
                forall|j: int| 0 <= j < i ==> #[trigger] out@[j]@ == describe(children@[j]@),
            decreases children.len() - i,
        {
            proof {
                lemma_node_children_decrease(*n, *children, i as int);
            }
            out.push(DescNode::from_node(&children[i]));
            i += 1;
        }
        proof {
            assert forall|j: int| 0 <= j < i implies desc_view(out@[j]) == describe(
                crate::types::nodes_view(children@)[j],
            ) by {
                assert(out@[j]@ == describe(children@[j]@));
            }
            assert(descs_view(out@) =~= describe_all(crate::types::nodes_view(children@)));
        }
        out
    }
}


// ---------------------------------------------------------------------------
// The printed outline
// ---------------------------------------------------------------------------

/// One printed line of a description: its indentation level, the part of
/// the pattern it explains, and its text.
pub struct OutlineEntry {
    pub indent: usize,
    pub span: PatternSpan,
    pub desc: String,
}

pub struct OutlineEntryV {
    pub indent: nat,
    pub span: PatternSpan,
    pub desc: Seq<char>,
}

impl View for OutlineEntry {
    type V = OutlineEntryV;

    open spec fn view(&self) -> OutlineEntryV {
        OutlineEntryV { indent: self.indent as nat, span: self.span, desc: self.desc@ }
    }
}

pub open spec fn entries_view(s: Seq<OutlineEntry>) -> Seq<OutlineEntryV> {
    s.map_values(|e: OutlineEntry| e@)
}

/// The lines a description prints: its own line (unless its text is empty)
/// at `indent`, then its sub-lines one level deeper (at the same level when
/// its own text is empty, so such a node is transparent).
pub open spec fn outline(d: DescV, indent: nat) -> Seq<OutlineEntryV>
    decreases d, 1nat,
{
    if d.desc.len() > 0 {
        seq![OutlineEntryV { indent, span: d.span, desc: d.desc }] + outline_all(d.items, indent + 1)
    } else {
        outline_all(d.items, indent)
    }
}

pub open spec fn outline_all(s: Seq<DescV>, indent: nat) -> Seq<OutlineEntryV>
    decreases s, 0nat,
{
    if s.len() == 0 {
        Seq::empty()
    } else {
        outline_all(s.subrange(0, s.len() - 1), indent) + outline(s[s.len() - 1], indent)
    }
}

/// Number of levels of a description tree.
pub open spec fn height(d: DescV) -> nat
    decreases d, 1nat,
{
    1 + height_all(d.items)
}

pub open spec fn height_all(s: Seq<DescV>) -> nat
    decreases s, 0nat,
{
    if s.len() == 0 {
        0
    } else {
        let a = height_all(s.subrange(0, s.len() - 1));
        let b = height(s[s.len() - 1]);
        if a < b { b } else { a }
    }
}

proof fn lemma_height_all(s: Seq<DescV>, j: int)
    requires
        0 <= j < s.len(),
    ensures
        height(s[j]) <= height_all(s),
    decreases s.len(),
{
    if j < s.len() - 1 {
        lemma_height_all(s.subrange(0, s.len() - 1), j);
    }
}

impl DescNode {
    /// The lines this description prints, starting at `indent`.
    pub fn outline(&self, indent: usize) -> (r: Vec<OutlineEntry>)
        requires
            indent + height(self@) <= usize::MAX,
        ensures
            entries_view(r@) == outline(self@, indent as nat),
    {
        let mut out: Vec<OutlineEntry> = Vec::new();
        self.outline_into(indent, &mut out);
        assert(entries_view(out@) =~= Seq::<OutlineEntryV>::empty() + outline(self@, indent as nat));
        out
    }

    fn outline_into(&self, indent: usize, out: &mut Vec<OutlineEntry>)
        requires
            indent + height(self@) <= usize::MAX,
        ensures
            entries_view(final(out)@) == entries_view(old(out)@) + outline(self@, indent as nat),
        decreases self,
    {
        let child_indent = if !self.desc.as_str().is_empty() {
            let ghost before = entries_view(out@);
            let e = OutlineEntry { indent, span: self.span, desc: self.desc.clone() };
            out.push(e);
            assert(entries_view(out@) =~= before.push(e@));
            indent + 1
        } else {
            indent
        };
        let ghost base = entries_view(out@);
        let ghost items = descs_view(self.nested_items@);
        let mut i: usize = 0;
        assert(items.subrange(0, 0) =~= Seq::<DescV>::empty());
        assert(base + outline_all(items.subrange(0, 0), child_indent as nat) =~= base);
        while i < self.nested_items.len()
            invariant
                i <= self.nested_items.len(),
                items == descs_view(self.nested_items@),
                child_indent + height_all(items) <= usize::MAX,
                entries_view(out@) == base + outline_all(items.subrange(0, i as int), child_indent as nat),
            decreases self.nested_items.len() - i,
        {
            proof {
                lemma_height_all(items, i as int);
                lemma_desc_child_decreases(*self, i as int);
                assert(items.subrange(0, i + 1).subrange(0, i as int) =~= items.subrange(0, i as int));
            }
            let ghost before = entries_view(out@);
            self.nested_items[i].outline_into(child_indent, out);
            proof {
                assert(before + outline(items[i as int], child_indent as nat) =~= base + outline_all(
                    items.subrange(0, i + 1),
                    child_indent as nat,
                ));
            }
            i += 1;
        }
        proof {
            assert(items.subrange(0, i as int) =~= items);
            if self.desc@.len() > 0 {
                assert(entries_view(out@) =~= entries_view(old(out)@) + outline(self@, indent as nat));
            } else {
                assert(entries_view(out@) =~= entries_view(old(out)@) + outline(self@, indent as nat));
            }
        }
    }
}

pub(crate) proof fn lemma_desc_child_decreases(d: DescNode, i: int)
    requires
        0 <= i < d.nested_items@.len(),
    ensures
        decreases_to!(d => d.nested_items@[i]),
{
    broadcast use vstd::std_specs::vec::group_vec_axioms;
    assert(decreases_to!(d => d.nested_items));
    assert(decreases_to!(d.nested_items => d.nested_items@));
    assert(decreases_to!(d.nested_items@ => d.nested_items@[i]));
}

/// The count of a repetition in words: `optionally` for at most once,
/// `exactly N time(s)` for a fixed count, and `N to M times` for any other
/// bounded range.
pub proof fn lemma_count_text_bounded(min: u32, hi: u32)
    ensures
        (min == 0 && hi == 1) ==> count_text(min, Some(hi)) == "optionally"@,
        hi == min ==> count_text(min, Some(hi)) == "exactly "@ + decimal(min as nat) + " time(s)"@,
        (hi != min && !(min == 0 && hi == 1)) ==> count_text(min, Some(hi)) == decimal(min as nat) + " to "@
            + decimal(hi as nat) + " times"@,
{
}

/// A bounded repetition whose range is neither fixed nor `0..=1` is
/// described as its contents' description followed by `, N to M times` and
/// its greediness.
pub proof fn lemma_repeat_range_described(span: PatternSpan, greedy: bool, min: u32, hi: u32, inner: NodeV)
    requires
        hi != min,
        !(min == 0 && hi == 1),
    ensures
        describe(NodeV::Repeat { span, greedy, min, max: Some(hi), inner: Box::new(inner) }).desc == describe(
            inner,
        ).desc + ", "@ + decimal(min as nat) + " to "@ + decimal(hi as nat) + " times"@ + (if greedy {
            " (greedy)"@
        } else {
            " (lazy)"@
        }),
        describe(NodeV::Repeat { span, greedy, min, max: Some(hi), inner: Box::new(inner) }).span == span,
{
    lemma_count_text_bounded(min, hi);
}

} // verus!
