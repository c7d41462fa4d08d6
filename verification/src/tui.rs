//! The decisions of the terminal interface: which panel has the focus,
//! what a key press does, how a new pattern is taken in, and how many rows
//! the pattern input needs.
use vstd::prelude::*;
use crate::colorize::{ColorGenerator, Colorizer, node_spans, sort_by_width};
use crate::convert::{parse_and_convert, simplify};
use crate::desc::{DescNode, DescV, describe};
use crate::desctree::{
    DescTreeV, DescTreeWidget, can_show, down_selection, flat_tree, left_state, path_span, right_state,
    shows_ascii, to_trees, up_selection,
};
use crate::matcher::{CompiledRegex, RegexMatchGrp, eval_regex, match_trees, matches_view, regex_captures, regex_compiles, regex_group_names};
use crate::syntax::regex_syntax_parse;
use crate::types::PatternSpan;
use vstd::string::StringSliceAdditionalSpecFns;

verus! {

/// The panel that receives key presses.
#[derive(Debug, Clone, Copy, PartialEq, Eq, Structural)]
pub enum Focus {
    PatternInput,
    TextToMatch,
    DescTree,
}

/// The panel after `f` in the cycle pattern input, text to match,
/// description tree.
pub open spec fn next_focus(f: Focus) -> Focus {
    match f {
        Focus::PatternInput => Focus::TextToMatch,
        Focus::TextToMatch => Focus::DescTree,
        Focus::DescTree => Focus::PatternInput,
    }
}

impl Focus {
    /// The next panel in the cycle.
    pub fn next(self) -> (r: Focus)
        ensures
            r == next_focus(self),
    {
        match self {
            Focus::PatternInput => Focus::TextToMatch,
            Focus::TextToMatch => Focus::DescTree,
            Focus::DescTree => Focus::PatternInput,
        }
    }
}

/// Cycling the focus visits every panel and comes back after three steps.
pub proof fn lemma_focus_cycle(f: Focus)
    ensures
        next_focus(f) != f,
        next_focus(next_focus(f)) != f,
        next_focus(next_focus(next_focus(f))) == f,
{
}

// ---------------------------------------------------------------------------
// Rows of the pattern input
// ---------------------------------------------------------------------------

/// The (row count, column) reached after laying out `s` at `width` columns:
/// a newline starts a new row, and so does filling a row.
pub open spec fn wrap_state(s: Seq<char>, width: int) -> (int, int)
    decreases s.len(),
{
    if s.len() == 0 {
        (1, 0)
    } else {
        let p = wrap_state(s.drop_last(), width);
        if s.last() == '\n' {
            (p.0 + 1, 0)
        } else if p.1 + 1 >= width {
            (p.0 + 1, 0)
        } else {
            (p.0, p.1 + 1)
        }
    }
}

/// The rows `s` takes at `width` columns; one when the width is zero or
/// the text empty.
pub open spec fn wrapped_rows(s: Seq<char>, width: int) -> int {
    if width == 0 || s.len() == 0 {
        1
    } else {
        wrap_state(s, width).0
    }
}

proof fn lemma_wrap_state_mono(s: Seq<char>, width: int, k: int)
    requires
        0 <= k <= s.len(),
    ensures
        1 <= wrap_state(s.subrange(0, k), width).0 <= wrap_state(s, width).0,
    decreases s.len(),
{
    if k < s.len() {
        assert(s.drop_last() =~= s.subrange(0, s.len() - 1));
        assert(s.subrange(0, s.len() - 1).subrange(0, k) =~= s.subrange(0, k));
        lemma_wrap_state_mono(s.drop_last(), width, k);
    } else {
        assert(s.subrange(0, k) =~= s);
        lemma_wrap_state_pos(s, width);
    }
}

proof fn lemma_wrap_state_pos(s: Seq<char>, width: int)
    ensures
        wrap_state(s, width).0 >= 1,
    decreases s.len(),
{
    if s.len() > 0 {
        lemma_wrap_state_pos(s.drop_last(), width);
    }
}

/// How many rows the pattern input needs for `s` at `width` columns.
pub fn wrapped_lines(s: &str, width: u16) -> (r: u16)
    requires
        wrapped_rows(s@, width as int) <= u16::MAX,
    ensures
        r == wrapped_rows(s@, width as int),
{
    let n = s.unicode_len();
    if width == 0 || n == 0 {
        return 1;
    }
    let mut rows: u16 = 1;
    let mut col: u16 = 0;
    let mut i: usize = 0;
    while i < n
        invariant
            n == s@.len(),
            width > 0,
            i <= n,
            wrapped_rows(s@, width as int) <= u16::MAX,
            (rows as int, col as int) == wrap_state(s@.subrange(0, i as int), width as int),
            col < width,
        decreases n - i,
    {
        let ch = s.get_char(i);
        proof {
            assert(s@.subrange(0, i + 1).drop_last() =~= s@.subrange(0, i as int));
            lemma_wrap_state_mono(s@, width as int, i + 1);
        }
        if ch == '\n' {
            rows = rows + 1;
            col = 0;
        } else {
            col = col + 1;
            if col >= width {
                rows = rows + 1;
                col = 0;
            }
        }
        i += 1;
    }
    proof {
        assert(s@.subrange(0, n as int) =~= s@);
    }
    rows
}

/// Without newlines, a text of `n` characters takes `n / width + 1` rows:
/// a row for every full `width` characters, and one for the rest (the
/// cursor's row when the rest is empty).
pub proof fn lemma_wrapped_rows_plain(s: Seq<char>, width: int)
    requires
        width > 0,
        !s.contains('\n'),
    ensures
        wrap_state(s, width) == ((s.len() as int) / width + 1, (s.len() as int) % width),
    decreases s.len(),
{
    if s.len() > 0 {
        let t = s.drop_last();
        assert(!t.contains('\n')) by {
            if t.contains('\n') {
                let k = choose|k: int| 0 <= k < t.len() && t[k] == '\n';
                assert(s[k] == '\n');
            }
        }
        assert(s.last() != '\n') by {
            if s.last() == '\n' {
                assert(s[s.len() - 1] == '\n');
            }
        }
        lemma_wrapped_rows_plain(t, width);
        let n = t.len() as int;
        assert(n / width + (if n % width + 1 >= width { 1int } else { 0int }) == (n + 1) / width
            && (if n % width + 1 >= width { 0int } else { n % width + 1 }) == (n + 1) % width) by (nonlinear_arith)
            requires
                width > 0,
                n >= 0,
        {
            vstd::arithmetic::div_mod::lemma_fundamental_div_mod(n, width);
            vstd::arithmetic::div_mod::lemma_fundamental_div_mod(n + 1, width);
            vstd::arithmetic::div_mod::lemma_mod_bound(n, width);
            vstd::arithmetic::div_mod::lemma_mod_bound(n + 1, width);
        }
        assert(s.len() == n + 1);
        assert(wrap_state(t, width) == (n / width + 1, n % width));
    } else {
        assert(0int / width == 0 && 0int % width == 0) by (nonlinear_arith)
            requires
                width > 0,
        ;
    }
}


// ---------------------------------------------------------------------------
// Key presses
// ---------------------------------------------------------------------------

/// The key of a key press.
#[derive(Debug, Clone, Copy, PartialEq, Eq, Structural)]
pub enum KeyKind {
    Esc,
    BackTab,
    Enter,
    Char(char),
    Up,
    Down,
    Left,
    Right,
    Other,
}

/// A key press: the key, and whether Control (and no other modifier) was
/// held.
#[derive(Debug, Clone, Copy, PartialEq, Eq, Structural)]
pub struct KeyPress {
    pub ctrl: bool,
    pub kind: KeyKind,
}

/// What the front end does after a key press.
#[derive(Debug, Clone, Copy, PartialEq, Eq, Structural)]
pub enum Action {
    /// Save the session and leave.
    Quit,
    /// Redraw the pattern input's highlighting.
    UpdateInput,
    /// Hand the key to the pattern input.
    EditPattern,
    /// Hand the key to the text to match.
    EditText,
    /// Nothing more to do.
    Nothing,
}

/// What a key handed to the pattern input does.
#[derive(Debug, Clone, Copy, PartialEq, Eq, Structural)]
pub enum PatternKey {
    /// Copy the pattern to the clipboard.
    Copy,
    /// Nothing: the pattern is a single line, so Enter is refused.
    Ignore,
    /// Edit the pattern with the key.
    Edit,
}

/// Ctrl+Y copies the pattern, Enter is refused, any other key edits it.
pub fn pattern_key(key: KeyPress) -> (r: PatternKey)
    ensures
        r == (if key.ctrl && key.kind == KeyKind::Char('y') {
            PatternKey::Copy
        } else if key.kind == KeyKind::Enter {
            PatternKey::Ignore
        } else {
            PatternKey::Edit
        }),
{
    if key.ctrl && key.kind == KeyKind::Char('y') {
        PatternKey::Copy
    } else if key.kind == KeyKind::Enter {
        PatternKey::Ignore
    } else {
        PatternKey::Edit
    }
}

pub open spec fn is_quit(k: KeyPress) -> bool {
    k.kind == KeyKind::Esc || (k.ctrl && k.kind == KeyKind::Char('c'))
}

/// What a key press does in the description tree.
pub open spec fn tree_key(k: KeyPress, t: DescTreeV) -> (DescTreeV, Action) {
    if k.ctrl && k.kind == KeyKind::Char('n') {
        (if t.vscroll < usize::MAX { DescTreeV { vscroll: (t.vscroll + 1) as usize, ..t } } else { t }, Action::Nothing)
    } else if k.ctrl && k.kind == KeyKind::Char('j') {
        (DescTreeV { vscroll: t.vscroll.saturating_sub(1), ..t }, Action::Nothing)
    } else if k.kind == KeyKind::Char('j') || k.kind == KeyKind::Down {
        (DescTreeV { selected: down_selection(flat_tree(t.nodes), t.selected), ..t }, Action::UpdateInput)
    } else if k.kind == KeyKind::Char('k') || k.kind == KeyKind::Up {
        (DescTreeV { selected: up_selection(flat_tree(t.nodes), t.selected), ..t }, Action::UpdateInput)
    } else if k.kind == KeyKind::Char('h') || k.kind == KeyKind::Left {
        (left_state(t), Action::UpdateInput)
    } else if k.kind == KeyKind::Char('l') || k.kind == KeyKind::Right {
        (right_state(t), Action::UpdateInput)
    } else {
        (t, Action::Nothing)
    }
}

// ---------------------------------------------------------------------------
// The session
// ---------------------------------------------------------------------------

/// The state behind the interface: the focus, the description tree, the
/// last parse error, and the colouring and description of the last pattern
/// that parsed.
pub struct App {
    pub focus: Focus,
    pub desctree: DescTreeWidget,
    pub error: Option<String>,
    pub last_cgen: Option<ColorGenerator>,
    pub last_desc: Option<DescNode>,
    /// The compiled pattern the text is matched against.
    pub regex: Option<CompiledRegex>,
    /// The matches of that pattern in the text, as trees of groups.
    pub matches: Vec<RegexMatchGrp>,
}

/// How taking in a new pattern went.
#[derive(Debug, Clone, Copy, PartialEq, Eq, Structural)]
pub enum Reparse {
    /// The pattern is empty; the tree was emptied.
    Cleared,
    /// The pattern parsed; the tree, colours and description are its own.
    Parsed,
    /// The pattern did not parse; the error is kept and the tree emptied.
    Failed,
    /// The pattern parsed but a described part of it cannot be shown (it
    /// holds a character of more than one byte); nothing was changed.
    Unshowable,
}

pub open spec fn empty_tree() -> DescTreeV {
    DescTreeV { nodes: Seq::empty(), selected: Seq::empty(), vscroll: 0 }
}

impl App {
    /// The initial state: focus on the pattern input, nothing parsed.
    pub fn new() -> (r: Self)
        ensures
            r.focus == Focus::PatternInput,
            r.desctree@ == empty_tree(),
            r.error is None,
            r.last_cgen is None,
            r.last_desc is None,
            r.regex is None,
            r.matches@.len() == 0,
    {
        App {
            focus: Focus::PatternInput,
            desctree: DescTreeWidget::new(),
            error: None,
            last_cgen: None,
            last_desc: None,
            regex: None,
            matches: Vec::new(),
        }
    }

    /// Matches the text against the current pattern, if one compiled; the
    /// matches are kept otherwise.
    pub fn eval_regex(&mut self, text: &str)
        ensures
            final(self).focus == old(self).focus,
            final(self).desctree@ == old(self).desctree@,
            final(self).regex == old(self).regex,
            match old(self).regex {
                Some(re) => matches_view(final(self).matches@) == match_trees(
                    regex_captures(re@, text@),
                    regex_group_names(re@),
                ),
                None => final(self).matches == old(self).matches,
            },
    {
        if let Some(re) = &self.regex {
            self.matches = eval_regex(re, text);
        }
    }

    /// Takes in the pattern `input`: an empty one empties the tree (the
    /// last description is kept); one that parses gets its description tree,
    /// its colours (widest span first, as the colour lookup needs), its description and its
    /// compiled form; one that does not parse leaves its error message and
    /// an empty tree.
    pub fn reparse(&mut self, input: &str) -> (r: Reparse)
        ensures
            final(self).focus == old(self).focus,
            final(self).matches == old(self).matches,
            r != Reparse::Parsed ==> final(self).regex == old(self).regex,
            r == Reparse::Unshowable ==> *final(self) == *old(self),
            r == Reparse::Parsed ==> (final(self).regex is Some <==> regex_compiles(input@)),
            r == Reparse::Parsed ==> (final(self).regex matches Some(re) ==> re@ == input@),
            input@.len() == 0 ==> r == Reparse::Cleared && final(self).error is None && final(self).desctree@
                == empty_tree() && final(self).last_cgen is None && final(self).last_desc == old(self).last_desc,
            input@.len() > 0 ==> match regex_syntax_parse(input@) {
                Err(e) => r == Reparse::Failed && final(self).error == Some(e.message) && final(self).desctree@
                    == empty_tree() && final(self).last_cgen is None && final(self).last_desc is None,
                Ok(a) => {
                    let d = describe(simplify(a));
                    if shows_ascii(d, input.spec_bytes()) {
                        &&& r == Reparse::Parsed
                        &&& final(self).error is None
                        &&& final(self).desctree@ == (DescTreeV {
                            nodes: to_trees(d, input.spec_bytes()),
                            selected: Seq::empty(),
                            vscroll: 0,
                        })
                        &&& final(self).last_cgen matches Some(c) && c@ == sort_by_width(node_spans(simplify(a)))
                        &&& final(self).last_desc matches Some(dd) && dd@ == d
                    } else {
                        r == Reparse::Unshowable
                    }
                },
            },
    {
        if input.is_empty() {
            self.error = None;
            let none: Vec<crate::desctree::TreeNode> = Vec::new();
            proof {
                assert(crate::desctree::trees_view(none@) =~= Seq::empty());
            }
            self.desctree.set_nodes(none);
            self.last_cgen = None;
            return Reparse::Cleared;
        }
        match parse_and_convert(input) {
            Ok(form) => {
                let mut cgen = ColorGenerator::new();
                cgen.colorize(&form);
                proof {
                    assert(Seq::<crate::colorize::ColorSpan>::empty() + node_spans(form.root@) =~= node_spans(
                        form.root@,
                    ));
                }
                let root = DescNode::from_node(&form.root);
                if !can_show(&root, form.pattern.as_str()) {
                    return Reparse::Unshowable;
                }
                self.error = None;
                self.desctree = DescTreeWidget::from_descnodes(&root, form.pattern.as_str());
                self.last_cgen = Some(cgen);
                self.last_desc = Some(root);
                self.regex = CompiledRegex::new(input);
                Reparse::Parsed
            },
            Err(e) => {
                self.error = Some(e.message);
                let none: Vec<crate::desctree::TreeNode> = Vec::new();
                proof {
                    assert(crate::desctree::trees_view(none@) =~= Seq::empty());
                }
                self.desctree.set_nodes(none);
                self.last_cgen = None;
                self.last_desc = None;
                Reparse::Failed
            },
        }
    }

    /// What the pattern input shows, once a pattern has parsed: its
    /// colours, with the part explained by the selected entry picked out
    /// when the tree has the focus.
    pub fn input_highlight(&self) -> (r: Option<Option<PatternSpan>>)
        ensures
            match (self.last_cgen, self.last_desc) {
                (Some(_), Some(d)) => r == Some(
                    if self.focus == Focus::DescTree {
                        Some(path_span(d@, self.desctree@.selected))
                    } else {
                        None::<PatternSpan>
                    },
                ),
                _ => r is None,
            },
    {
        match (&self.last_cgen, &self.last_desc) {
            (Some(_), Some(d)) => {
                if self.focus == Focus::DescTree {
                    Some(Some(self.desctree.get_selected_span(d)))
                } else {
                    Some(None)
                }
            },
            _ => None,
        }
    }

    /// Acts on a key press: leaving, cycling the focus, or, in the tree,
    /// scrolling and moving the selection; keys for the two editors are
    /// handed back.
    pub fn handle_key(&mut self, key: KeyPress) -> (r: Action)
        ensures
            final(self).error == old(self).error,
            final(self).last_cgen == old(self).last_cgen,
            final(self).last_desc == old(self).last_desc,
            final(self).regex == old(self).regex,
            final(self).matches == old(self).matches,
            is_quit(key) ==> r == Action::Quit && final(self).focus == old(self).focus && final(self).desctree@
                == old(self).desctree@,
            !is_quit(key) && key.kind == KeyKind::BackTab ==> r == Action::UpdateInput && final(self).focus
                == next_focus(old(self).focus) && final(self).desctree@ == old(self).desctree@,
            !is_quit(key) && key.kind != KeyKind::BackTab ==> final(self).focus == old(self).focus && match old(
                self,
            ).focus {
                Focus::PatternInput => r == Action::EditPattern && final(self).desctree@ == old(self).desctree@,
                Focus::TextToMatch => r == Action::EditText && final(self).desctree@ == old(self).desctree@,
                Focus::DescTree => (final(self).desctree@, r) == tree_key(key, old(self).desctree@),
            },
    {
        if key.kind == KeyKind::Esc || (key.ctrl && key.kind == KeyKind::Char('c')) {
            return Action::Quit;
        }
        if key.kind == KeyKind::BackTab {
            self.focus = self.focus.next();
            return Action::UpdateInput;
        }
        match self.focus {
            Focus::PatternInput => Action::EditPattern,
            Focus::TextToMatch => Action::EditText,
            Focus::DescTree => {
                if key.ctrl && key.kind == KeyKind::Char('n') {
                    if self.desctree.vscroll() < usize::MAX {
                        self.desctree.scroll_down();
                    }
                    Action::Nothing
                } else if key.ctrl && key.kind == KeyKind::Char('j') {
                    self.desctree.scroll_up();
                    Action::Nothing
                } else if key.kind == KeyKind::Char('j') || key.kind == KeyKind::Down {
                    self.desctree.select_down();
                    Action::UpdateInput
                } else if key.kind == KeyKind::Char('k') || key.kind == KeyKind::Up {
                    self.desctree.select_up();
                    Action::UpdateInput
                } else if key.kind == KeyKind::Char('h') || key.kind == KeyKind::Left {
                    self.desctree.select_left();
                    Action::UpdateInput
                } else if key.kind == KeyKind::Char('l') || key.kind == KeyKind::Right {
                    self.desctree.select_right();
                    Action::UpdateInput
                } else {
                    Action::Nothing
                }
            },
        }
    }
}


// ---------------------------------------------------------------------------
// Clicks
// ---------------------------------------------------------------------------

/// A rectangle of cells on the screen.
#[derive(Debug, Clone, Copy, PartialEq, Eq, Structural)]
pub struct Area {
    pub x: u16,
    pub y: u16,
    pub width: u16,
    pub height: u16,
}

pub open spec fn area_contains(a: Area, col: u16, row: u16) -> bool {
    a.x <= col < a.x + a.width && a.y <= row < a.y + a.height
}

fn contains(a: Area, col: u16, row: u16) -> (r: bool)
    ensures
        r == area_contains(a, col, row),
{
    (a.x as u32) <= (col as u32) && (col as u32) < (a.x as u32) + (a.width as u32) && (a.y as u32) <= (row as u32)
        && (row as u32) < (a.y as u32) + (a.height as u32)
}

/// The panel under a click at (`col`, `row`): the pattern input, the text to
/// match or the description tree, looked up in that order.
pub fn focus_at(pattern: Area, text: Area, tree: Area, col: u16, row: u16) -> (r: Option<Focus>)
    ensures
        r == (if area_contains(pattern, col, row) {
            Some(Focus::PatternInput)
        } else if area_contains(text, col, row) {
            Some(Focus::TextToMatch)
        } else if area_contains(tree, col, row) {
            Some(Focus::DescTree)
        } else {
            None
        }),
{
    if contains(pattern, col, row) {
        Some(Focus::PatternInput)
    } else if contains(text, col, row) {
        Some(Focus::TextToMatch)
    } else if contains(tree, col, row) {
        Some(Focus::DescTree)
    } else {
        None
    }
}

} // verus!
