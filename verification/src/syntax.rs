//! The syntax tree that `regex-syntax` builds for a pattern, held as plain
//! values of this library, and the one call that builds it.
use vstd::prelude::*;
use regex_syntax::ast;
use regex_syntax::ast::AssertionKind as AK;
use regex_syntax::ast::ClassAsciiKind as AC;
use regex_syntax::ast::Ast as RA;
use crate::types::{ClassBinaryOp, ClassKind, FlagKind, PatternSpan, SpecialChar};

verus! {

/// A literal character as the parser saw it.
pub struct SynLiteral {
    pub span: PatternSpan,
    pub kind: SynLiteralKind,
    pub c: char,
}

/// How a literal character was written.
pub enum SynLiteralKind {
    Verbatim,
    Meta,
    Superfluous,
    Octal,
    HexFixed,
    HexBrace,
    Special(SpecialChar),
}

pub enum SynAssertionKind {
    StartLine,
    EndLine,
    StartText,
    EndText,
    WordBoundary,
    NotWordBoundary,
    WordBoundaryStart,
    WordBoundaryEnd,
    WordBoundaryStartAngle,
    WordBoundaryEndAngle,
    WordBoundaryStartHalf,
    WordBoundaryEndHalf,
}

pub enum SynFlagsItemKind {
    Negation,
    Flag(FlagKind),
}

pub struct SynFlagsItem {
    pub span: PatternSpan,
    pub kind: SynFlagsItemKind,
}

pub struct SynFlags {
    pub span: PatternSpan,
    pub items: Vec<SynFlagsItem>,
}

pub enum SynRepetitionKind {
    ZeroOrOne,
    ZeroOrMore,
    OneOrMore,
    Exactly(u32),
    AtLeast(u32),
    Bounded(u32, u32),
}

pub enum SynGroupKind {
    CaptureIndex(u32),
    CaptureName { name: String, index: u32 },
    NonCapturing(SynFlags),
}

pub enum SynUnicodeOp {
    Equal,
    Colon,
    NotEqual,
}

pub enum SynUnicodeKind {
    OneLetter(char),
    Named(String),
    NamedValue { op: SynUnicodeOp, name: String, value: String },
}

pub struct SynClassUnicode {
    pub span: PatternSpan,
    pub negated: bool,
    pub kind: SynUnicodeKind,
}

/// A Perl (`\d`, `\s`, `\w`) or ASCII (`[:alpha:]`) class; `kind` is one of
/// the corresponding `ClassKind` variants.
pub struct SynClassSimple {
    pub span: PatternSpan,
    pub negated: bool,
    pub kind: ClassKind,
}

pub struct SynClassBracketed {
    pub span: PatternSpan,
    pub negated: bool,
    pub kind: SynClassSet,
}

pub enum SynClassSet {
    Item(SynClassSetItem),
    BinaryOp { span: PatternSpan, kind: ClassBinaryOp, lhs: Box<SynClassSet>, rhs: Box<SynClassSet> },
}

pub enum SynClassSetItem {
    Empty(PatternSpan),
    Literal(SynLiteral),
    Range { span: PatternSpan, start: SynLiteral, end: SynLiteral },
    Ascii(SynClassSimple),
    Unicode(SynClassUnicode),
    Perl(SynClassSimple),
    Bracketed(Box<SynClassBracketed>),
    Union { span: PatternSpan, items: Vec<SynClassSetItem> },
}

pub enum SynAst {
    Empty(PatternSpan),
    Flags { span: PatternSpan, flags: SynFlags },
    Literal(SynLiteral),
    Dot(PatternSpan),
    Assertion { span: PatternSpan, kind: SynAssertionKind },
    ClassUnicode(SynClassUnicode),
    ClassPerl(SynClassSimple),
    ClassBracketed(SynClassBracketed),
    Repetition { span: PatternSpan, kind: SynRepetitionKind, greedy: bool, ast: Box<SynAst> },
    Group { span: PatternSpan, kind: SynGroupKind, ast: Box<SynAst> },
    Alternation { span: PatternSpan, asts: Vec<SynAst> },
    Concat { span: PatternSpan, asts: Vec<SynAst> },
}

/// Why a pattern could not be parsed: the parser's message and the span it
/// points at.
#[derive(Debug)]
pub struct SyntaxError {
    pub message: String,
    pub span: PatternSpan,
}

// The parser's own node types, carried opaquely through the conversion below.
#[verifier::external_type_specification]
#[verifier::external_body]
pub struct ExAstSpan(ast::Span);

#[verifier::external_type_specification]
#[verifier::external_body]
pub struct ExAstNode(ast::Ast);

#[verifier::external_type_specification]
#[verifier::external_body]
pub struct ExAstLiteral(ast::Literal);

#[verifier::external_type_specification]
#[verifier::external_body]
pub struct ExAstSpecialLiteralKind(ast::SpecialLiteralKind);

#[verifier::external_type_specification]
#[verifier::external_body]
pub struct ExAstAssertion(ast::Assertion);

#[verifier::external_type_specification]
#[verifier::external_body]
pub struct ExAstFlags(ast::Flags);

#[verifier::external_type_specification]
#[verifier::external_body]
pub struct ExAstFlagsItem(ast::FlagsItem);

#[verifier::external_type_specification]
#[verifier::external_body]
pub struct ExAstFlag(ast::Flag);

#[verifier::external_type_specification]
#[verifier::external_body]
pub struct ExAstRepetition(ast::Repetition);

#[verifier::external_type_specification]
#[verifier::external_body]
pub struct ExAstGroup(ast::Group);

#[verifier::external_type_specification]
#[verifier::external_body]
pub struct ExAstClassUnicode(ast::ClassUnicode);

#[verifier::external_type_specification]
#[verifier::external_body]
pub struct ExAstClassPerl(ast::ClassPerl);

#[verifier::external_type_specification]
#[verifier::external_body]
pub struct ExAstClassAscii(ast::ClassAscii);

#[verifier::external_type_specification]
#[verifier::external_body]
pub struct ExAstClassBracketed(ast::ClassBracketed);

#[verifier::external_type_specification]
#[verifier::external_body]
pub struct ExAstClassSet(ast::ClassSet);

#[verifier::external_type_specification]
#[verifier::external_body]
pub struct ExAstClassSetBinaryOpKind(ast::ClassSetBinaryOpKind);

#[verifier::external_type_specification]
#[verifier::external_body]
pub struct ExAstClassSetItem(ast::ClassSetItem);

#[verifier::external_type_specification]
#[verifier::external_body]
pub struct ExAstAlternation(ast::Alternation);

#[verifier::external_type_specification]
#[verifier::external_body]
pub struct ExAstSetFlags(ast::SetFlags);

#[verifier::external_type_specification]
#[verifier::external_body]
pub struct ExAstConcat(ast::Concat);

#[verifier::external_type_specification]
#[verifier::external_body]
pub struct ExAstClassSetRange(ast::ClassSetRange);

#[verifier::external_type_specification]
#[verifier::external_body]
pub struct ExAstClassSetUnion(ast::ClassSetUnion);

/// The result of `regex_syntax::ast::parse::Parser::new().parse(pattern)`,
/// converted node for node into this library's types.
pub uninterp spec fn regex_syntax_parse(pattern: Seq<char>) -> Result<SynAst, SyntaxError>;

/// Parses `pattern` with `regex_syntax::ast::parse::Parser` (default
/// settings). Trusted: the result is exactly what that parser returns for
/// the pattern, converted one for one; the error keeps the parser's
/// `Display` text and primary span. Nothing more is claimed of its content.
#[verifier::external_body]
pub(crate) fn parse_regex(pattern: &str) -> (r: Result<SynAst, SyntaxError>)
    ensures
        r == regex_syntax_parse(pattern@),
{
    match ast::parse::Parser::new().parse(pattern) {
        Ok(a) => Ok(syn_ast(&a)),
        Err(e) => Err(SyntaxError { message: e.to_string(), span: syn_span(e.span()) }),
    }
}

#[verifier::external_body]
fn syn_span(s: &ast::Span) -> PatternSpan {
    PatternSpan { start: s.start.offset, end: s.end.offset }
}

#[verifier::external_body]
fn syn_ast(a: &ast::Ast) -> SynAst {
    match a {
        RA::Empty(s) => SynAst::Empty(syn_span(s)),
        RA::Flags(f) => syn_set_flags(f),
        RA::Literal(l) => SynAst::Literal(syn_literal(l)),
        RA::Dot(s) => SynAst::Dot(syn_span(s)),
        RA::Assertion(x) => syn_assertion(x),
        RA::ClassUnicode(c) => SynAst::ClassUnicode(syn_class_unicode(c)),
        RA::ClassPerl(c) => SynAst::ClassPerl(syn_class_perl(c)),
        RA::ClassBracketed(c) => SynAst::ClassBracketed(syn_class_bracketed(c)),
        RA::Repetition(r) => syn_repetition(r),
        RA::Group(g) => syn_group(g),
        RA::Alternation(x) => syn_alternation(x),
        RA::Concat(x) => syn_concat(x),
    }
}

#[verifier::external_body]
fn syn_set_flags(f: &ast::SetFlags) -> SynAst {
    SynAst::Flags { span: syn_span(&f.span), flags: syn_flags(&f.flags) }
}

#[verifier::external_body]
fn syn_alternation(x: &ast::Alternation) -> SynAst {
    SynAst::Alternation { span: syn_span(&x.span), asts: x.asts.iter().map(syn_ast).collect() }
}

#[verifier::external_body]
fn syn_concat(x: &ast::Concat) -> SynAst {
    SynAst::Concat { span: syn_span(&x.span), asts: x.asts.iter().map(syn_ast).collect() }
}

#[verifier::external_body]
fn syn_literal(l: &ast::Literal) -> SynLiteral {
    let kind = match &l.kind {
        ast::LiteralKind::Verbatim => SynLiteralKind::Verbatim,
        ast::LiteralKind::Meta => SynLiteralKind::Meta,
        ast::LiteralKind::Superfluous => SynLiteralKind::Superfluous,
        ast::LiteralKind::Octal => SynLiteralKind::Octal,
        ast::LiteralKind::HexFixed(_) => SynLiteralKind::HexFixed,
        ast::LiteralKind::HexBrace(_) => SynLiteralKind::HexBrace,
        ast::LiteralKind::Special(s) => SynLiteralKind::Special(syn_special(s)),
    };
    SynLiteral { span: syn_span(&l.span), kind, c: l.c }
}

#[verifier::external_body]
fn syn_special(s: &ast::SpecialLiteralKind) -> SpecialChar {
    match s {
        ast::SpecialLiteralKind::Bell => SpecialChar::Bell,
        ast::SpecialLiteralKind::FormFeed => SpecialChar::FormFeed,
        ast::SpecialLiteralKind::Tab => SpecialChar::Tab,
        ast::SpecialLiteralKind::LineFeed => SpecialChar::LineFeed,
        ast::SpecialLiteralKind::CarriageReturn => SpecialChar::CarriageReturn,
        ast::SpecialLiteralKind::VerticalTab => SpecialChar::VerticalTab,
        ast::SpecialLiteralKind::Space => SpecialChar::Space,
    }
}

#[verifier::external_body]
fn syn_assertion(x: &ast::Assertion) -> SynAst {
    let kind = match x.kind {
        AK::StartLine => SynAssertionKind::StartLine, AK::EndLine => SynAssertionKind::EndLine,
        AK::StartText => SynAssertionKind::StartText, AK::EndText => SynAssertionKind::EndText,
        AK::WordBoundary => SynAssertionKind::WordBoundary,
        AK::NotWordBoundary => SynAssertionKind::NotWordBoundary,
        AK::WordBoundaryStart => SynAssertionKind::WordBoundaryStart,
        AK::WordBoundaryEnd => SynAssertionKind::WordBoundaryEnd,
        AK::WordBoundaryStartAngle => SynAssertionKind::WordBoundaryStartAngle,
        AK::WordBoundaryEndAngle => SynAssertionKind::WordBoundaryEndAngle,
        AK::WordBoundaryStartHalf => SynAssertionKind::WordBoundaryStartHalf,
        AK::WordBoundaryEndHalf => SynAssertionKind::WordBoundaryEndHalf,
    };
    SynAst::Assertion { span: syn_span(&x.span), kind }
}

#[verifier::external_body]
fn syn_flags(f: &ast::Flags) -> SynFlags {
    SynFlags { span: syn_span(&f.span), items: f.items.iter().map(syn_flags_item).collect() }
}

#[verifier::external_body]
fn syn_flags_item(i: &ast::FlagsItem) -> SynFlagsItem {
    let kind = match &i.kind {
        ast::FlagsItemKind::Negation => SynFlagsItemKind::Negation,
        ast::FlagsItemKind::Flag(f) => SynFlagsItemKind::Flag(syn_flag(f)),
    };
    SynFlagsItem { span: syn_span(&i.span), kind }
}

#[verifier::external_body]
fn syn_flag(f: &ast::Flag) -> FlagKind {
    match f {
        ast::Flag::CaseInsensitive => FlagKind::CaseInsensitive,
        ast::Flag::MultiLine => FlagKind::MultiLine,
        ast::Flag::DotMatchesNewLine => FlagKind::DotMatchesNewLine,
        ast::Flag::SwapGreed => FlagKind::SwapGreed,
        ast::Flag::Unicode => FlagKind::Unicode,
        ast::Flag::CRLF => FlagKind::Crlf,
        ast::Flag::IgnoreWhitespace => FlagKind::IgnoreWhitespace,
    }
}

#[verifier::external_body]
fn syn_repetition(r: &ast::Repetition) -> SynAst {
    let kind = match &r.op.kind {
        ast::RepetitionKind::ZeroOrOne => SynRepetitionKind::ZeroOrOne,
        ast::RepetitionKind::ZeroOrMore => SynRepetitionKind::ZeroOrMore,
        ast::RepetitionKind::OneOrMore => SynRepetitionKind::OneOrMore,
        ast::RepetitionKind::Range(ast::RepetitionRange::Exactly(n)) => SynRepetitionKind::Exactly(*n),
        ast::RepetitionKind::Range(ast::RepetitionRange::AtLeast(n)) => SynRepetitionKind::AtLeast(*n),
        ast::RepetitionKind::Range(ast::RepetitionRange::Bounded(a, b)) => SynRepetitionKind::Bounded(*a, *b),
    };
    SynAst::Repetition { span: syn_span(&r.span), kind, greedy: r.greedy, ast: Box::new(syn_ast(&r.ast)) }
}

#[verifier::external_body]
fn syn_group(g: &ast::Group) -> SynAst {
    let kind = match &g.kind {
        ast::GroupKind::CaptureIndex(i) => SynGroupKind::CaptureIndex(*i),
        ast::GroupKind::CaptureName { name, .. } => SynGroupKind::CaptureName { name: name.name.clone(), index: name.index },
        ast::GroupKind::NonCapturing(f) => SynGroupKind::NonCapturing(syn_flags(f)),
    };
    SynAst::Group { span: syn_span(&g.span), kind, ast: Box::new(syn_ast(&g.ast)) }
}

#[verifier::external_body]
fn syn_class_unicode(c: &ast::ClassUnicode) -> SynClassUnicode {
    let kind = match &c.kind {
        ast::ClassUnicodeKind::OneLetter(l) => SynUnicodeKind::OneLetter(*l),
        ast::ClassUnicodeKind::Named(n) => SynUnicodeKind::Named(n.clone()),
        ast::ClassUnicodeKind::NamedValue { op, name, value } => {
            let op = match op {
                ast::ClassUnicodeOpKind::Equal => SynUnicodeOp::Equal,
                ast::ClassUnicodeOpKind::Colon => SynUnicodeOp::Colon,
                ast::ClassUnicodeOpKind::NotEqual => SynUnicodeOp::NotEqual,
            };
            SynUnicodeKind::NamedValue { op, name: name.clone(), value: value.clone() }
        },
    };
    SynClassUnicode { span: syn_span(&c.span), negated: c.negated, kind }
}

#[verifier::external_body]
fn syn_class_perl(c: &ast::ClassPerl) -> SynClassSimple {
    let kind = match c.kind {
        ast::ClassPerlKind::Digit => ClassKind::PerlDigit,
        ast::ClassPerlKind::Space => ClassKind::PerlSpace,
        ast::ClassPerlKind::Word => ClassKind::PerlWord,
    };
    SynClassSimple { span: syn_span(&c.span), negated: c.negated, kind }
}

#[verifier::external_body]
fn syn_class_ascii(c: &ast::ClassAscii) -> SynClassSimple {
    let kind = match c.kind {
        AC::Alnum => ClassKind::AsciiAlnum, AC::Alpha => ClassKind::AsciiAlpha,
        AC::Ascii => ClassKind::AsciiAscii, AC::Blank => ClassKind::AsciiBlank,
        AC::Cntrl => ClassKind::AsciiCntrl, AC::Digit => ClassKind::AsciiDigit,
        AC::Graph => ClassKind::AsciiGraph, AC::Lower => ClassKind::AsciiLower,
        AC::Print => ClassKind::AsciiPrint, AC::Punct => ClassKind::AsciiPunct,
        AC::Space => ClassKind::AsciiSpace, AC::Upper => ClassKind::AsciiUpper,
        AC::Word => ClassKind::AsciiWord, AC::Xdigit => ClassKind::AsciiXdigit,
    };
    SynClassSimple { span: syn_span(&c.span), negated: c.negated, kind }
}

#[verifier::external_body]
fn syn_class_bracketed(c: &ast::ClassBracketed) -> SynClassBracketed {
    SynClassBracketed { span: syn_span(&c.span), negated: c.negated, kind: syn_class_set(&c.kind) }
}

#[verifier::external_body]
fn syn_class_set(s: &ast::ClassSet) -> SynClassSet {
    match s {
        ast::ClassSet::Item(i) => SynClassSet::Item(syn_class_set_item(i)),
        ast::ClassSet::BinaryOp(op) => SynClassSet::BinaryOp {
            span: syn_span(&op.span),
            kind: syn_binary_op(op.kind),
            lhs: Box::new(syn_class_set(&op.lhs)),
            rhs: Box::new(syn_class_set(&op.rhs)),
        },
    }
}

#[verifier::external_body]
fn syn_binary_op(k: ast::ClassSetBinaryOpKind) -> ClassBinaryOp {
    match k {
        ast::ClassSetBinaryOpKind::Intersection => ClassBinaryOp::Intersection,
        ast::ClassSetBinaryOpKind::Difference => ClassBinaryOp::Difference,
        ast::ClassSetBinaryOpKind::SymmetricDifference => ClassBinaryOp::SymmetricDifference,
    }
}

#[verifier::external_body]
fn syn_class_set_item(i: &ast::ClassSetItem) -> SynClassSetItem {
    match i {
        ast::ClassSetItem::Empty(s) => SynClassSetItem::Empty(syn_span(s)),
        ast::ClassSetItem::Literal(l) => SynClassSetItem::Literal(syn_literal(l)),
        ast::ClassSetItem::Range(r) => syn_class_range(r),
        ast::ClassSetItem::Ascii(c) => SynClassSetItem::Ascii(syn_class_ascii(c)),
        ast::ClassSetItem::Unicode(c) => SynClassSetItem::Unicode(syn_class_unicode(c)),
        ast::ClassSetItem::Perl(c) => SynClassSetItem::Perl(syn_class_perl(c)),
        ast::ClassSetItem::Bracketed(b) => SynClassSetItem::Bracketed(Box::new(syn_class_bracketed(b))),
        ast::ClassSetItem::Union(u) => syn_class_union(u),
    }
}

#[verifier::external_body]
fn syn_class_range(r: &ast::ClassSetRange) -> SynClassSetItem {
    SynClassSetItem::Range { span: syn_span(&r.span), start: syn_literal(&r.start), end: syn_literal(&r.end) }
}

#[verifier::external_body]
fn syn_class_union(u: &ast::ClassSetUnion) -> SynClassSetItem {
    SynClassSetItem::Union { span: syn_span(&u.span), items: u.items.iter().map(syn_class_set_item).collect() }
}

} // verus!
