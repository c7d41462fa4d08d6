use regexplain::colorize::{ColorGenerator, ColorRole, Colorizer};
use regexplain::convert::parse_and_convert;
use regexplain::desc::DescNode;
use regexplain::types::{
    ClassItem, ClassKind, GroupKind, LiteralChar, PatternSpan, RegExplainSimplifiedNode,
};

fn sp(start: usize, end: usize) -> PatternSpan {
    PatternSpan { start, end }
}

fn describe(pattern: &str) -> DescNode {
    let form = parse_and_convert(pattern).unwrap();
    DescNode::from_node(&form.root)
}

#[test]
fn adjacent_literals_merge_into_one() {
    let form = parse_and_convert("abc").unwrap();
    assert_eq!(form.pattern, "abc");
    match &form.root {
        RegExplainSimplifiedNode::Concat { span, nodes } => {
            assert_eq!(*span, sp(0, 3));
            assert_eq!(nodes.len(), 1);
            match &nodes[0] {
                RegExplainSimplifiedNode::Literal(l) => {
                    assert_eq!(l.span, sp(0, 3));
                    assert_eq!(l.ch, LiteralChar::Verbatim("abc".to_string()));
                }
                other => panic!("unexpected node {:?}", other),
            }
        }
        other => panic!("unexpected root {:?}", other),
    }
}

#[test]
fn escaped_metacharacter_merges_with_neighbours() {
    let form = parse_and_convert("a\\.b").unwrap();
    match &form.root {
        RegExplainSimplifiedNode::Concat { nodes, .. } => {
            assert_eq!(nodes.len(), 1);
            match &nodes[0] {
                RegExplainSimplifiedNode::Literal(l) => {
                    assert_eq!(l.ch, LiteralChar::Verbatim("a.b".to_string()));
                    assert_eq!(l.span, sp(0, 4));
                }
                other => panic!("unexpected node {:?}", other),
            }
        }
        other => panic!("unexpected root {:?}", other),
    }
}

#[test]
fn literals_merge_inside_nested_groups() {
    let form = parse_and_convert("x(yz|(ab)c)").unwrap();
    let RegExplainSimplifiedNode::Concat { nodes, .. } = &form.root else { panic!("root is not a concatenation") };
    assert_eq!(nodes.len(), 2);
    let RegExplainSimplifiedNode::Group(g) = &nodes[1] else { panic!("second node is not a group") };
    let RegExplainSimplifiedNode::Alt { alts, .. } = g.inner.as_ref() else { panic!("group holds no alternation") };
    assert_eq!(alts.len(), 2);
    match &alts[0] {
        RegExplainSimplifiedNode::Concat { nodes, .. } => {
            assert_eq!(nodes.len(), 1);
            assert!(matches!(&nodes[0], RegExplainSimplifiedNode::Literal(l) if l.ch == LiteralChar::Verbatim("yz".to_string()) && l.span == sp(2, 4)));
        }
        other => panic!("unexpected alternative {:?}", other),
    }
    let RegExplainSimplifiedNode::Concat { nodes: inner, .. } = &alts[1] else { panic!("second alternative") };
    assert_eq!(inner.len(), 2);
    let RegExplainSimplifiedNode::Group(g2) = &inner[0] else { panic!("nested group") };
    match g2.inner.as_ref() {
        RegExplainSimplifiedNode::Concat { nodes, .. } => {
            assert_eq!(nodes.len(), 1);
            assert!(matches!(&nodes[0], RegExplainSimplifiedNode::Literal(l) if l.ch == LiteralChar::Verbatim("ab".to_string())));
        }
        other => panic!("unexpected group contents {:?}", other),
    }
}

#[test]
fn merging_stops_at_other_nodes() {
    let form = parse_and_convert("ab\\dcd").unwrap();
    match &form.root {
        RegExplainSimplifiedNode::Concat { nodes, .. } => {
            assert_eq!(nodes.len(), 3);
            assert!(matches!(&nodes[0], RegExplainSimplifiedNode::Literal(l) if l.ch == LiteralChar::Verbatim("ab".to_string())));
            assert!(matches!(&nodes[1], RegExplainSimplifiedNode::Class(c) if c.kind == ClassKind::PerlDigit && !c.negated));
            assert!(matches!(&nodes[2], RegExplainSimplifiedNode::Literal(l) if l.ch == LiteralChar::Verbatim("cd".to_string()) && l.span == sp(4, 6)));
        }
        other => panic!("unexpected root {:?}", other),
    }
}

#[test]
fn alternation_and_span() {
    let form = parse_and_convert("a|b").unwrap();
    match &form.root {
        RegExplainSimplifiedNode::Alt { span, alts } => {
            assert_eq!(*span, sp(0, 3));
            assert_eq!(alts.len(), 2);
            assert_eq!(alts[0].span(), sp(0, 1));
            assert_eq!(alts[1].span(), sp(2, 3));
        }
        other => panic!("unexpected root {:?}", other),
    }
}

#[test]
fn repeated_capture_group() {
    let form = parse_and_convert("(a)+").unwrap();
    match &form.root {
        RegExplainSimplifiedNode::Repeat(r) => {
            assert_eq!(r.span, sp(0, 4));
            assert_eq!(r.min, 1);
            assert_eq!(r.max, None);
            assert!(r.greedy);
            match &*r.inner {
                RegExplainSimplifiedNode::Group(g) => {
                    assert_eq!(g.span, sp(0, 3));
                    assert_eq!(g.kind, GroupKind::Capture { index: 1, name: None });
                }
                other => panic!("unexpected inner {:?}", other),
            }
        }
        other => panic!("unexpected root {:?}", other),
    }
}

#[test]
fn bounded_lazy_repetition() {
    let form = parse_and_convert("x{2,5}?").unwrap();
    match &form.root {
        RegExplainSimplifiedNode::Repeat(r) => {
            assert_eq!(r.min, 2);
            assert_eq!(r.max, Some(5));
            assert!(!r.greedy);
        }
        other => panic!("unexpected root {:?}", other),
    }
}

#[test]
fn bracketed_class_with_range() {
    let form = parse_and_convert("[a-z_]").unwrap();
    match &form.root {
        RegExplainSimplifiedNode::Class(c) => {
            assert!(!c.negated);
            match &c.kind {
                ClassKind::Bracketed(items) => {
                    assert_eq!(items.len(), 2);
                    assert!(matches!(&items[0], ClassItem::Range { start: 'a', end: 'z', .. }));
                    assert!(matches!(&items[1], ClassItem::Literal(l) if l.ch == LiteralChar::Verbatim("_".to_string())));
                }
                other => panic!("unexpected kind {:?}", other),
            }
        }
        other => panic!("unexpected root {:?}", other),
    }
}

#[test]
fn parse_error_is_reported() {
    let e = parse_and_convert("(a").unwrap_err();
    assert!(!e.message.is_empty());
    assert!(parse_and_convert("[a").is_err());
    assert!(parse_and_convert("a{2,1}").is_err());
}

#[test]
fn describes_literal() {
    let d = describe("abc");
    assert_eq!(d.desc, "");
    assert_eq!(d.nested_items.len(), 1);
    assert_eq!(d.nested_items[0].desc, "matches \"abc\" literally");
    assert_eq!(d.nested_items[0].span, sp(0, 3));
}

#[test]
fn describes_alternation() {
    let d = describe("a|b");
    assert_eq!(d.desc, "Selects one of the matches from the following list");
    assert_eq!(d.nested_items.len(), 2);
    assert_eq!(d.nested_items[1].desc, "matches \"b\" literally");
}

#[test]
fn describes_repeated_group() {
    let d = describe("(a)+");
    assert_eq!(d.desc, "capture group #1, 1 or more times (greedy)");
    assert_eq!(d.span, sp(0, 4));
    assert_eq!(d.nested_items.len(), 1);
    assert_eq!(d.nested_items[0].desc, "matches \"a\" literally");
}

#[test]
fn describes_counts() {
    assert_eq!(describe("a?").desc, "matches \"a\" literally, optionally (greedy)");
    assert_eq!(describe("a*?").desc, "matches \"a\" literally, 0 or more times (lazy)");
    assert_eq!(describe("a{3}").desc, "matches \"a\" literally, exactly 3 time(s) (greedy)");
    assert_eq!(describe("a{2,}").desc, "matches \"a\" literally, 2 or more times (greedy)");
    assert_eq!(describe("a{2,10}").desc, "matches \"a\" literally, 2 to 10 times (greedy)");
}

#[test]
fn describes_classes_and_assertions() {
    assert_eq!(describe("\\d").desc, "matches any character this is a digit 0 to 9 in any unicode script");
    assert_eq!(describe("\\W").desc, "matches anything that is not a word character in any unicode script");
    assert_eq!(describe(".").desc, "matches any character (except newline)");
    assert_eq!(describe("^").desc, "asserts position at start of line");
    assert_eq!(describe("\\b").desc, "asserts position at word boundary");
    let d = describe("[a-c]");
    assert_eq!(d.desc, "matches any one character that is a in the list below");
    assert_eq!(d.nested_items[0].desc, "matches anything from 'a' to 'c'");
}

#[test]
fn describes_named_group_and_flags() {
    let d = describe("(?P<year>\\d)");
    assert_eq!(d.desc, "capture group #1 named \"year\"");
    let f = describe("(?i-s)");
    assert_eq!(f.desc, "enable/disable the following flags:");
    assert_eq!(f.nested_items.len(), 2);
    assert_eq!(f.nested_items[0].desc, "enable case-insensitive matching");
    assert_eq!(f.nested_items[1].desc, "disable dot matches newline");
}

#[test]
fn outline_indents_described_lines() {
    let d = describe("a|b");
    let lines = d.outline(0);
    assert_eq!(lines.len(), 3);
    assert_eq!(lines[0].indent, 0);
    assert_eq!(lines[1].indent, 1);
    assert_eq!(lines[1].desc, "matches \"a\" literally");
    assert_eq!(lines[2].span, sp(2, 3));
}

#[test]
fn outline_skips_lines_without_text() {
    let d = describe("ab\\d");
    let lines = d.outline(0);
    assert_eq!(lines.len(), 2);
    assert_eq!(lines[0].indent, 0);
    assert_eq!(lines[1].indent, 0);
}

#[test]
fn colours_of_a_repetition() {
    let form = parse_and_convert("a+").unwrap();
    let mut cgen = ColorGenerator::new();
    cgen.colorize(&form);
    assert_eq!(cgen.char_color(0), (Some(ColorRole::Literal), vec![]));
    assert_eq!(cgen.char_color(1), (Some(ColorRole::Quantifier), vec![]));
    assert_eq!(cgen.char_color(2), (None, vec![]));
}

#[test]
fn group_background_and_narrowest_foreground() {
    let form = parse_and_convert("(a)").unwrap();
    let mut cgen = ColorGenerator::new();
    cgen.colorize(&form);
    assert_eq!(cgen.char_color(0), (Some(ColorRole::Group), vec![ColorRole::Group]));
    assert_eq!(cgen.char_color(1), (Some(ColorRole::Literal), vec![ColorRole::Group]));
    assert_eq!(cgen.char_color(2), (Some(ColorRole::Group), vec![ColorRole::Group]));
}

#[test]
fn nested_groups_layer_backgrounds() {
    let form = parse_and_convert("((a))").unwrap();
    let mut cgen = ColorGenerator::new();
    cgen.colorize(&form);
    assert_eq!(cgen.char_color(2), (Some(ColorRole::Literal), vec![ColorRole::Group, ColorRole::Group]));
    assert_eq!(cgen.char_color(0), (Some(ColorRole::Group), vec![ColorRole::Group]));
}

#[test]
fn class_colours() {
    let form = parse_and_convert("[a-c]\\d").unwrap();
    let mut cgen = ColorGenerator::new();
    cgen.colorize(&form);
    assert_eq!(cgen.char_color(0), (None, vec![ColorRole::Class]));
    assert_eq!(cgen.char_color(1), (Some(ColorRole::Range), vec![ColorRole::Class]));
    assert_eq!(cgen.char_color(5), (Some(ColorRole::Perl), vec![]));
}

#[test]
fn alternation_pipe_colour() {
    let form = parse_and_convert("ab|c").unwrap();
    let mut cgen = ColorGenerator::new();
    cgen.colorize(&form.root);
    assert_eq!(cgen.char_color(2).0, Some(ColorRole::Alt));
    assert_eq!(cgen.char_color(3).0, Some(ColorRole::Literal));
}

#[test]
fn unsorted_spans_pick_the_last_added() {
    // Without sorting, the foreground of the span added last wins.
    let form = parse_and_convert("(a)").unwrap();
    let mut cgen = ColorGenerator::new();
    cgen.colorize(&form.root);
    assert_eq!(cgen.char_color(1).0, Some(ColorRole::Literal));
    cgen.sort_spans();
    assert_eq!(cgen.char_color(1).0, Some(ColorRole::Literal));
}
