use regexplain::convert::parse_and_convert;
use regexplain::desc::DescNode;
use regexplain::desctree::{can_show, DescTreeWidget, DrawItem, TreeNode, Viewport, Visibility};
use regexplain::editor::{
    breadcrumb, highlight_plan, input_slices, match_text_lines, pattern_line, split_lines, status_line,
    Brightness, InputSlice,
};
use regexplain::matcher::{eval_regex, CompiledRegex, RegexMatchGrp};
use regexplain::state::{decode_state, encode_state, StateError};
use regexplain::textarea_ext::{TextAreaExt, TextBuffer};
use regexplain::tree::{wrap_line, Node, Segment, TreeWidget, VisLine};
use regexplain::colorize::{ColorGenerator, Colorizer};
use regexplain::tui::{pattern_key, wrapped_lines, Action, App, Focus, KeyKind, KeyPress, PatternKey, Reparse};
use regexplain::types::PatternSpan;

fn sp(start: usize, end: usize) -> PatternSpan {
    PatternSpan { start, end }
}

fn grp(start: usize, end: usize, label: &str) -> RegexMatchGrp {
    RegexMatchGrp { start_offset: start, end_offset: end, label: label.to_string(), groups: Vec::new() }
}

fn buffer(lines: &[&str], cursor: (usize, usize)) -> TextBuffer {
    TextBuffer::new(lines.iter().map(|l| l.to_string()).collect(), cursor)
}

fn key(ctrl: bool, kind: KeyKind) -> KeyPress {
    KeyPress { ctrl, kind }
}

// ---------------------------------------------------------------- matches

#[test]
fn matches_with_named_and_missing_groups() {
    let re = CompiledRegex::new("(a)(?P<x>b)?").unwrap();
    let ms = eval_regex(&re, "ab a");
    assert_eq!(ms.len(), 2);
    assert_eq!((ms[0].start_offset, ms[0].end_offset), (0, 2));
    assert_eq!(ms[0].label, "");
    assert_eq!(ms[0].groups.len(), 2);
    assert_eq!(ms[0].groups[0].label, "group 1");
    assert_eq!((ms[0].groups[1].start_offset, ms[0].groups[1].end_offset), (1, 2));
    assert_eq!(ms[0].groups[1].label, "x");
    assert_eq!((ms[1].start_offset, ms[1].end_offset), (3, 4));
    assert_eq!(ms[1].groups.len(), 1);
}

#[test]
fn nested_groups_nest_in_the_tree() {
    let re = CompiledRegex::new("((a)b)").unwrap();
    let ms = eval_regex(&re, "xab");
    assert_eq!(ms.len(), 1);
    assert_eq!(ms[0].groups.len(), 1);
    assert_eq!(ms[0].groups[0].label, "group 1");
    assert_eq!(ms[0].groups[0].groups.len(), 1);
    assert_eq!(ms[0].groups[0].groups[0].label, "group 2");
    assert_eq!(ms[0].groups[0].groups[0].start_offset, 1);
}

#[test]
fn rejected_pattern_does_not_compile() {
    assert!(CompiledRegex::new("(").is_none());
    assert!(CompiledRegex::new("a+").is_some());
}

#[test]
fn insert_places_group_inside_covering_group() {
    let mut root = grp(0, 10, "");
    root.insert(grp(0, 5, "outer"));
    root.insert(grp(1, 3, "inner"));
    root.insert(grp(6, 8, "other"));
    assert_eq!(root.groups.len(), 2);
    assert_eq!(root.groups[0].groups.len(), 1);
    assert_eq!(root.groups[0].groups[0].label, "inner");
    assert_eq!(root.groups[1].label, "other");
    assert_eq!((root.start_offset, root.end_offset), (0, 10));
}

#[test]
fn group_path_follows_covering_groups() {
    let mut root = grp(0, 10, "");
    root.insert(grp(0, 5, "outer"));
    root.insert(grp(1, 3, "inner"));
    let path = root.find_group_path(2);
    let labels: Vec<&str> = path.iter().map(|g| g.label.as_str()).collect();
    assert_eq!(labels, vec!["", "outer", "inner"]);
    assert_eq!(root.find_group_path(7).len(), 1);
    assert!(root.find_group_path(10).is_empty());
    assert!(root.contains_offset(9));
    assert!(!root.contains_offset(10));
}

#[test]
fn breadcrumb_of_first_covering_match() {
    let re = CompiledRegex::new("(a)(?P<x>b)?").unwrap();
    let ms = eval_regex(&re, "ab a");
    assert_eq!(breadcrumb(&ms, 1), vec!["x".to_string()]);
    assert_eq!(breadcrumb(&ms, 3), vec!["group 1".to_string()]);
    assert!(breadcrumb(&ms, 2).is_empty());
}

// ---------------------------------------------------------------- session state

#[test]
fn saved_session_reads_back() {
    let saved = encode_state("a+b", "hello\nworld");
    assert_eq!(saved, "a+b\u{3}hello\nworld");
    let back = decode_state(saved.as_bytes()).unwrap();
    assert_eq!(back, ("a+b".to_string(), "hello\nworld".to_string()));
}

#[test]
fn saved_session_with_empty_parts() {
    let saved = encode_state("", "");
    assert_eq!(decode_state(saved.as_bytes()).unwrap(), (String::new(), String::new()));
}

#[test]
fn second_part_ends_at_next_separator() {
    let data = "p\u{3}t\u{3}x".as_bytes();
    assert_eq!(decode_state(data).unwrap(), ("p".to_string(), "t".to_string()));
}

#[test]
fn invalid_utf8_is_rejected() {
    assert_eq!(decode_state(&[0xff, 3, b'a']), Err(StateError::InvalidUtf8));
    assert_eq!(decode_state(&[b'a', 3, 0xc3]), Err(StateError::InvalidUtf8));
}

#[test]
fn non_ascii_session_reads_back() {
    let saved = encode_state("é+", "naïve");
    assert_eq!(decode_state(saved.as_bytes()).unwrap(), ("é+".to_string(), "naïve".to_string()));
}

// ---------------------------------------------------------------- cursor arithmetic

#[test]
fn cursor_positions_of_offsets() {
    let b = buffer(&["ab", "cde"], (0, 0));
    assert_eq!(b.get_cursor_pos(0), (0, 0));
    assert_eq!(b.get_cursor_pos(2), (0, 2));
    assert_eq!(b.get_cursor_pos(3), (1, 0));
    assert_eq!(b.get_cursor_pos(6), (1, 3));
    assert_eq!(b.get_cursor_pos(7), (2, 0));
    assert_eq!(b.get_cursor_range_from_offsets(1, 4), ((0, 1), (1, 1)));
}

#[test]
fn flat_offsets_of_cursors() {
    assert_eq!(buffer(&["ab", "cde"], (1, 2)).get_flat_offset_from_cursor(), 5);
    assert_eq!(buffer(&["ab", "cde"], (0, 9)).get_flat_offset_from_cursor(), 2);
    assert_eq!(buffer(&["ab", "cde"], (5, 0)).get_flat_offset_from_cursor(), 7);
}

#[test]
fn offset_and_cursor_round_trip() {
    let lines = ["hello", "", "wörld"];
    for offset in 0..13 {
        let (row, col) = buffer(&lines, (0, 0)).get_cursor_pos(offset);
        assert_eq!(buffer(&lines, (row, col)).get_flat_offset_from_cursor(), offset);
    }
    for (row, len) in [(0usize, 5usize), (1, 0), (2, 6)] {
        for col in 0..=len {
            let off = buffer(&lines, (row, col)).get_flat_offset_from_cursor();
            assert_eq!(buffer(&lines, (0, 0)).get_cursor_pos(off), (row, col));
        }
    }
}

#[test]
fn joined_text_of_buffer() {
    let b = buffer(&["ab", "c"], (0, 0));
    assert_eq!(b.text(), "ab\nc");
    assert_eq!(b.concat(), "abc");
    assert_eq!(buffer(&[], (0, 0)).text(), "");
}

// ---------------------------------------------------------------- description tree

fn alt_tree() -> (DescTreeWidget, DescNode) {
    let form = parse_and_convert("a|b").unwrap();
    let d = DescNode::from_node(&form.root);
    assert!(can_show(&d, &form.pattern));
    (DescTreeWidget::from_descnodes(&d, &form.pattern), d)
}

#[test]
fn tree_entries_carry_pattern_slices() {
    let form = parse_and_convert("ab\\d").unwrap();
    let d = DescNode::from_node(&form.root);
    let mut t = DescTreeWidget::from_descnodes(&d, &form.pattern);
    assert_eq!(t.selected_index_total(), (None, 2));
    t.select_down();
    let plan = t.render_plan(0, 80, 10);
    match &plan[0] {
        DrawItem::Entry { text, span, selected, .. } => {
            assert_eq!(text, "`ab` matches \"ab\" literally");
            assert_eq!(*span, sp(0, 2));
            assert!(*selected);
        }
        _ => panic!("expected an entry"),
    }
}

#[test]
fn non_ascii_pattern_cannot_be_shown() {
    let form = parse_and_convert("é").unwrap();
    let d = DescNode::from_node(&form.root);
    assert!(!can_show(&d, &form.pattern));
}

#[test]
fn navigation_down_up_right_left() {
    let (mut t, d) = alt_tree();
    assert_eq!(t.selected_index_total(), (None, 1));
    t.select_down();
    assert_eq!(t.selected_path(), &[0]);
    assert_eq!(t.selected_index_total(), (Some(1), 1));
    t.select_right();
    assert_eq!(t.selected_index_total(), (Some(1), 3));
    t.select_down();
    assert_eq!(t.selected_path(), &[0, 0]);
    t.select_down();
    assert_eq!(t.selected_path(), &[0, 1]);
    t.select_down();
    assert_eq!(t.selected_path(), &[0, 1]);
    t.select_up();
    t.select_up();
    assert_eq!(t.selected_path(), &[0]);
    assert_eq!(t.get_selected_span(&d), sp(0, 1));
    t.select_left();
    assert_eq!(t.selected_index_total(), (Some(1), 1));
    assert_eq!(t.selected_path(), &[0]);
    t.select_left();
    assert_eq!(t.selected_path(), &[0]);
}

#[test]
fn moving_left_from_a_child_goes_to_its_parent() {
    let (mut t, _) = alt_tree();
    t.select_down();
    t.select_right();
    t.select_down();
    t.select_down();
    assert_eq!(t.selected_path(), &[0, 1]);
    t.select_left();
    assert_eq!(t.selected_path(), &[0]);
}

#[test]
fn up_from_nothing_selects_last_row() {
    let (mut t, _) = alt_tree();
    t.select_up();
    assert_eq!(t.selected_path(), &[0]);
    let mut empty = DescTreeWidget::new();
    empty.select_down();
    assert!(empty.selected_path().is_empty());
    assert_eq!(empty.selected_index_total(), (None, 0));
}

#[test]
fn selected_span_through_hidden_lines() {
    let form = parse_and_convert("x(a|b)").unwrap();
    let d = DescNode::from_node(&form.root);
    let mut t = DescTreeWidget::from_descnodes(&d, &form.pattern);
    assert_eq!(t.selected_index_total(), (None, 2));
    t.select_down();
    assert_eq!(t.get_selected_span(&d), sp(0, 1));
    t.select_down();
    t.select_right();
    t.select_down();
    assert_eq!(t.selected_path(), &[1, 0]);
    assert_eq!(t.get_selected_span(&d), sp(2, 5));
}

#[test]
fn plan_of_opened_tree() {
    let (mut t, _) = alt_tree();
    t.select_down();
    t.select_right();
    let plan = t.render_plan(0, 40, 10);
    assert_eq!(plan.len(), 5);
    match &plan[0] {
        DrawItem::Entry { row, offset, visible, depth, has_children, opened, indent_width, para_width, .. } => {
            assert_eq!((*row, *offset, *visible, *depth), (0, 0, 2, 0));
            assert!(*has_children && *opened);
            assert_eq!((*indent_width, *para_width), (2, 38));
        }
        _ => panic!("expected an entry"),
    }
    assert!(matches!(plan[1], DrawItem::Separator { depth: 1, row: 2 }));
    assert!(matches!(&plan[2], DrawItem::Entry { row: 3, visible: 1, .. }));
    assert!(matches!(plan[3], DrawItem::Separator { depth: 1, row: 4 }));
    assert!(matches!(&plan[4], DrawItem::Entry { row: 5, selected: false, .. }));
}

#[test]
fn plan_scrolls_to_the_selection() {
    let (mut t, _) = alt_tree();
    t.select_down();
    t.select_right();
    t.select_down();
    t.select_down();
    let plan = t.render_plan(10, 40, 2);
    assert_eq!(t.vscroll(), 4);
    assert_eq!(plan.len(), 2);
    assert!(matches!(plan[0], DrawItem::Separator { depth: 1, row: 10 }));
    assert!(matches!(&plan[1], DrawItem::Entry { row: 11, selected: true, .. }));
}

#[test]
fn plan_shows_part_of_a_tall_entry() {
    let (mut t, _) = alt_tree();
    t.scroll_down();
    let plan = t.render_plan(0, 40, 1);
    assert_eq!(t.vscroll(), 1);
    match &plan[0] {
        DrawItem::Entry { offset, visible, row, .. } => assert_eq!((*offset, *visible, *row), (1, 1, 0)),
        _ => panic!("expected an entry"),
    }
}

#[test]
fn plan_in_a_tiny_area_is_empty() {
    let (mut t, _) = alt_tree();
    assert!(t.render_plan(0, 1, 10).is_empty());
    assert!(t.render_plan(0, 10, 0).is_empty());
}

#[test]
fn scroll_up_stops_at_top() {
    let (mut t, _) = alt_tree();
    t.scroll_up();
    assert_eq!(t.vscroll(), 0);
    t.scroll_down();
    t.scroll_down();
    t.scroll_up();
    assert_eq!(t.vscroll(), 1);
    t.set_nodes(vec![TreeNode::new("x".to_string(), sp(0, 1), vec![])]);
    assert_eq!(t.vscroll(), 0);
    assert!(t.selected_path().is_empty());
}

#[test]
fn viewport_skips_and_clips() {
    let mut vp = Viewport::new(2, 0, 5);
    assert_eq!(vp.clip(1), Visibility::Hidden);
    assert_eq!(vp.clip(3), Visibility::Visible { offset: 1 });
    assert_eq!(vp.visible_rows(3, 1), 2);
    vp.advance_offset(1);
    assert_eq!(vp.clip(1), Visibility::Visible { offset: 0 });
    vp.advance(4);
    assert_eq!(vp.curr_row(), 4);
    assert_eq!(vp.visible_rows(3, 0), 1);
    assert!(!vp.is_full());
    vp.advance(1);
    assert!(vp.is_full());
    vp.advance_offset(7);
    assert_eq!(vp.clip(0), Visibility::Hidden);
}

#[test]
fn full_viewport_stays_full() {
    let mut vp = Viewport::new(3, 4, 6);
    vp.advance(2);
    assert!(vp.is_full());
    vp.advance(1);
    assert!(vp.is_full());
    assert_eq!(vp.clip(2), Visibility::Hidden);
    assert!(vp.is_full());
    assert_eq!(vp.clip(5), Visibility::Visible { offset: 1 });
    vp.advance_offset(4);
    assert!(vp.is_full());
    assert_eq!(vp.visible_rows(3, 0), 0);
}

#[test]
fn inserted_group_lands_after_its_new_siblings() {
    let mut root = grp(0, 20, "");
    root.insert(grp(0, 10, "a"));
    root.insert(grp(1, 2, "b"));
    root.insert(grp(3, 9, "c"));
    root.insert(grp(4, 5, "d"));
    root.insert(grp(6, 7, "e"));
    let a = &root.groups[0];
    assert_eq!(a.groups.len(), 2);
    assert_eq!(a.groups[0].label, "b");
    assert_eq!(a.groups[1].label, "c");
    let labels: Vec<&str> = a.groups[1].groups.iter().map(|g| g.label.as_str()).collect();
    assert_eq!(labels, vec!["d", "e"]);
}

// ---------------------------------------------------------------- interface decisions

#[test]
fn focus_cycles_through_three_panels() {
    let f = Focus::PatternInput;
    assert_eq!(f.next(), Focus::TextToMatch);
    assert_eq!(f.next().next(), Focus::DescTree);
    assert_eq!(f.next().next().next(), f);
}

#[test]
fn rows_of_the_pattern_input() {
    assert_eq!(wrapped_lines("abcd", 2), 3);
    assert_eq!(wrapped_lines("abc", 2), 2);
    assert_eq!(wrapped_lines("a\nb", 10), 2);
    assert_eq!(wrapped_lines("", 5), 1);
    assert_eq!(wrapped_lines("abc", 0), 1);
    assert_eq!(wrapped_lines("abcdefg", 3), 7 / 3 + 1);
}

#[test]
fn reparse_outcomes() {
    let mut app = App::new();
    assert_eq!(app.reparse("a|b"), Reparse::Parsed);
    assert!(app.error.is_none());
    assert!(app.regex.is_some());
    assert_eq!(app.desctree.selected_index_total(), (None, 1));
    assert_eq!(app.reparse("(a"), Reparse::Failed);
    assert!(app.error.is_some());
    assert!(app.last_desc.is_none());
    assert_eq!(app.desctree.selected_index_total(), (None, 0));
    assert_eq!(app.reparse(""), Reparse::Cleared);
    assert!(app.error.is_none());
    assert_eq!(app.reparse("é"), Reparse::Unshowable);
}

#[test]
fn pattern_keys_copy_refuse_enter_or_edit() {
    assert_eq!(pattern_key(key(true, KeyKind::Char('y'))), PatternKey::Copy);
    assert_eq!(pattern_key(key(false, KeyKind::Char('y'))), PatternKey::Edit);
    assert_eq!(pattern_key(key(false, KeyKind::Enter)), PatternKey::Ignore);
    assert_eq!(pattern_key(key(true, KeyKind::Enter)), PatternKey::Ignore);
    assert_eq!(pattern_key(key(false, KeyKind::Char('a'))), PatternKey::Edit);
    assert_eq!(pattern_key(key(false, KeyKind::Left)), PatternKey::Edit);
}

#[test]
fn reparse_orders_colours_widest_first() {
    let mut app = App::new();
    assert_eq!(app.reparse("(a)+"), Reparse::Parsed);
    let form = parse_and_convert("(a)+").unwrap();
    let mut sorted = ColorGenerator::new();
    sorted.colorize(&form);
    let cgen = app.last_cgen.as_ref().unwrap();
    for i in 0..5 {
        assert_eq!(cgen.char_color(i), sorted.char_color(i));
    }
    assert_eq!(cgen.char_color(3).0, Some(regexplain::colorize::ColorRole::Quantifier));
    assert_eq!(cgen.char_color(1).0, Some(regexplain::colorize::ColorRole::Literal));
}

#[test]
fn keys_drive_the_session() {
    let mut app = App::new();
    app.reparse("a|b");
    assert_eq!(app.handle_key(key(false, KeyKind::Char('x'))), Action::EditPattern);
    assert_eq!(app.handle_key(key(false, KeyKind::BackTab)), Action::UpdateInput);
    assert_eq!(app.focus, Focus::TextToMatch);
    assert_eq!(app.handle_key(key(false, KeyKind::Char('j'))), Action::EditText);
    app.handle_key(key(false, KeyKind::BackTab));
    assert_eq!(app.focus, Focus::DescTree);
    assert_eq!(app.input_highlight(), Some(Some(sp(0, 3))));
    assert_eq!(app.handle_key(key(false, KeyKind::Down)), Action::UpdateInput);
    assert_eq!(app.desctree.selected_path(), &[0]);
    assert_eq!(app.input_highlight(), Some(Some(sp(0, 1))));
    assert_eq!(app.handle_key(key(false, KeyKind::Char('l'))), Action::UpdateInput);
    assert_eq!(app.desctree.selected_index_total(), (Some(1), 3));
    assert_eq!(app.handle_key(key(true, KeyKind::Char('n'))), Action::Nothing);
    assert_eq!(app.desctree.vscroll(), 1);
    assert_eq!(app.handle_key(key(true, KeyKind::Char('j'))), Action::Nothing);
    assert_eq!(app.desctree.vscroll(), 0);
    assert_eq!(app.desctree.selected_path(), &[0]);
    assert_eq!(app.handle_key(key(false, KeyKind::Other)), Action::Nothing);
    assert_eq!(app.handle_key(key(true, KeyKind::Char('c'))), Action::Quit);
    assert_eq!(app.handle_key(key(false, KeyKind::Esc)), Action::Quit);
}

#[test]
fn matches_follow_the_pattern() {
    let mut app = App::new();
    app.eval_regex("aaa");
    assert!(app.matches.is_empty());
    app.reparse("a");
    app.eval_regex("aba");
    assert_eq!(app.matches.len(), 2);
    app.reparse("(");
    app.eval_regex("aaa");
    assert_eq!(app.matches.len(), 3);
}

// ---------------------------------------------------------------- editors

#[test]
fn lines_of_a_text() {
    assert_eq!(split_lines("a\r\nb\n"), vec!["a".to_string(), "b".to_string()]);
    assert_eq!(split_lines(""), Vec::<String>::new());
    assert_eq!(split_lines("\n"), vec![String::new()]);
    assert_eq!(split_lines("x\r"), vec!["x\r".to_string()]);
    assert_eq!(split_lines("a\n\nb"), vec!["a".to_string(), String::new(), "b".to_string()]);
    assert_eq!(split_lines("a\r\r\n"), vec!["a\r".to_string()]);
}

#[test]
fn text_lines_and_cursor() {
    let (lines, cursor) = match_text_lines("ab\ncdé").unwrap();
    assert_eq!(lines, vec!["ab".to_string(), "cdé".to_string()]);
    assert_eq!(cursor, (1, 4));
    assert!(match_text_lines("").is_none());
}

#[test]
fn pattern_line_drops_newlines() {
    assert_eq!(pattern_line("a\nb"), Some(("ab".to_string(), 2)));
    assert_eq!(pattern_line("é"), Some(("é".to_string(), 2)));
    assert_eq!(pattern_line("\n\n"), None);
    assert_eq!(pattern_line(""), None);
}

#[test]
fn input_slices_highlight_the_selection() {
    let s = |start, end, brightness, bold| InputSlice { start, end, brightness, bold };
    assert_eq!(input_slices(5, None), vec![s(0, 5, Brightness::Normal, false)]);
    assert_eq!(
        input_slices(5, Some(sp(1, 3))),
        vec![s(0, 1, Brightness::Dim, false), s(1, 3, Brightness::Bright, true), s(3, 5, Brightness::Dim, false)]
    );
    assert_eq!(
        input_slices(5, Some(sp(0, 5))),
        vec![s(0, 5, Brightness::Bright, true)]
    );
    assert_eq!(
        input_slices(3, Some(sp(2, 2))),
        vec![s(0, 3, Brightness::Normal, false)]
    );
    assert_eq!(
        input_slices(3, Some(sp(1, 7))),
        vec![s(0, 3, Brightness::Normal, false)]
    );
    assert!(input_slices(0, Some(sp(0, 1))).is_empty());
}

#[test]
fn highlights_by_layer() {
    let mut root = grp(0, 4, "");
    root.insert(grp(0, 2, "group 1"));
    root.insert(grp(2, 4, "group 2"));
    let plan = highlight_plan(&root, 1).unwrap();
    let layers: Vec<(usize, usize, u8, usize)> = plan.iter().map(|h| (h.start, h.end, h.layer, h.color)).collect();
    assert_eq!(layers, vec![(0, 4, 1, 0), (0, 2, 2, 1), (2, 4, 3, 2)]);
    assert!(highlight_plan(&root, 0).is_none());
    assert!(highlight_plan(&root, 254).is_none());
    let single = highlight_plan(&grp(1, 2, ""), 255).unwrap();
    assert_eq!(single[0].color, 4);
}

#[test]
fn status_line_describes_cursor() {
    let re = CompiledRegex::new("(a)(?P<x>b)?").unwrap();
    let ms = eval_regex(&re, "ab a");
    let s = status_line(&ms, &buffer(&["ab a"], (0, 1)));
    assert_eq!(s.matched, "Match 0 > x");
    assert_eq!(s.position, "Top ");
    assert_eq!(s.cursor, "(1:2)");
    let s = status_line(&ms, &buffer(&["ab a"], (0, 3)));
    assert_eq!(s.matched, "Match 1 > group 1");
    let s = status_line(&ms, &buffer(&["ab a"], (0, 2)));
    assert_eq!(s.matched, "");
}

#[test]
fn status_line_position() {
    let ms: Vec<RegexMatchGrp> = Vec::new();
    let lines = ["a", "b", "c", "d"];
    assert_eq!(status_line(&ms, &buffer(&lines, (3, 0))).position, "Bot ");
    assert_eq!(status_line(&ms, &buffer(&lines, (1, 0))).position, "50% ");
    assert_eq!(status_line(&ms, &buffer(&lines, (2, 0))).position, "75% ");
    assert_eq!(status_line(&ms, &buffer(&lines, (2, 9))).cursor, "(3:10)");
}

// ---------------------------------------------------------------- styled tree

fn seg(text: &str, style: u8) -> Segment<u8> {
    Segment { text: text.to_string(), style }
}

fn texts(lines: &[Vec<Segment<u8>>]) -> Vec<Vec<(String, u8)>> {
    lines.iter().map(|l| l.iter().map(|s| (s.text.clone(), s.style)).collect()).collect()
}

#[test]
fn wrapping_keeps_styles() {
    let wrapped = wrap_line(vec![seg("abc", 1), seg("de", 2)], 2);
    assert_eq!(
        texts(&wrapped),
        vec![
            vec![("ab".to_string(), 1)],
            vec![("c".to_string(), 1), ("d".to_string(), 2)],
            vec![("e".to_string(), 2)],
        ]
    );
}

#[test]
fn wrapping_edge_cases() {
    assert_eq!(texts(&wrap_line(Vec::new(), 3)), vec![Vec::<(String, u8)>::new()]);
    assert_eq!(texts(&wrap_line(vec![seg("abcd", 7)], 2)).len(), 2);
    assert_eq!(texts(&wrap_line(vec![seg("", 1), seg("xy", 2)], 0)), vec![vec![(String::new(), 1), ("xy".to_string(), 2)]]);
    assert_eq!(texts(&wrap_line(vec![seg("", 1), seg("ü", 2)], 4)), vec![vec![("ü".to_string(), 2)]]);
}

fn sample_tree() -> TreeWidget<u8> {
    let mut t = TreeWidget::new();
    t.set_nodes(vec![
        Node::new(vec![seg("root", 0)], vec![Node::new(vec![seg("child", 1)], vec![])]),
        Node::new(vec![seg("second", 0)], vec![]),
    ]);
    t
}

#[test]
fn styled_tree_navigation() {
    let mut t = sample_tree();
    t.select_down();
    t.select_right();
    t.select_down();
    let lines = t.render_lines(20, 10).unwrap();
    assert_eq!(lines.total, 5);
    assert!(matches!(&lines.lines[0], VisLine::Text { first: true, selected: false, opened: true, has_children: true, .. }));
    assert!(matches!(&lines.lines[1], VisLine::Separator { depth: 1, rule_w: 17 }));
    assert!(matches!(&lines.lines[2], VisLine::Text { depth: 1, selected: true, .. }));
    assert!(matches!(&lines.lines[3], VisLine::Separator { depth: 0, rule_w: 19 }));
    t.select_left();
    t.select_left();
    let lines = t.render_lines(20, 10).unwrap();
    assert_eq!(lines.total, 3);
    t.select_down();
    t.select_up();
    let lines = t.render_lines(20, 10).unwrap();
    assert!(matches!(&lines.lines[0], VisLine::Text { selected: true, .. }));
}

#[test]
fn styled_tree_scrolls_and_wraps() {
    let mut t = TreeWidget::new();
    t.set_nodes(vec![
        Node::new(vec![seg("abcdefgh", 3)], vec![]),
        Node::new(vec![seg("z", 4)], vec![]),
    ]);
    t.select_up();
    let lines = t.render_lines(5, 2).unwrap();
    assert_eq!(lines.total, 6);
    assert_eq!(lines.vscroll, 4);
    assert_eq!(lines.lines.len(), 2);
    assert!(matches!(&lines.lines[0], VisLine::Separator { depth: 0, rule_w: 4 }));
    assert!(matches!(&lines.lines[1], VisLine::Text { selected: true, .. }));
    assert!(t.render_lines(1, 2).is_none());
    t.scroll_up();
    t.scroll_up();
    let lines = t.render_lines(5, 2).unwrap();
    assert_eq!(lines.vscroll, 4);
    t.select_up();
    let lines = t.render_lines(5, 2).unwrap();
    assert_eq!(lines.vscroll, 0);
    assert!(matches!(&lines.lines[0], VisLine::Text { first: true, selected: true, .. }));
}
