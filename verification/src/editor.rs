//! The two editors of the interface: the one-line pattern input, whose
//! characters are coloured, and the text to match, whose matches are
//! highlighted and described in a status line.
use vstd::prelude::*;
use crate::matcher::{MatchV, RegexMatchGrp, covers_offset, group_path, match_view, matches_view};
use crate::text::{decimal, push_char, push_decimal, push_text};
use crate::textarea_ext::{TextAreaExt, TextBuffer, flat_offset, line_lens, lines_span};
use crate::types::PatternSpan;
use vstd::string::StringSliceAdditionalSpecFns;

verus! {

// ---------------------------------------------------------------------------
// Splitting a text into lines
// ---------------------------------------------------------------------------

/// The pieces of `s` between newlines (one more piece than there are
/// newlines).
pub open spec fn split_nl(s: Seq<char>) -> Seq<Seq<char>>
    decreases s.len(),
{
    if s.len() == 0 {
        seq![Seq::empty()]
    } else if s.last() == '\n' {
        split_nl(s.drop_last()).push(Seq::empty())
    } else {
        let p = split_nl(s.drop_last());
        p.update(p.len() - 1, p.last().push(s.last()))
    }
}

/// A piece without the carriage return it may end with.
pub open spec fn strip_cr(p: Seq<char>) -> Seq<char> {
    if p.len() > 0 && p.last() == '\r' {
        p.drop_last()
    } else {
        p
    }
}

pub open spec fn strip_all(ps: Seq<Seq<char>>) -> Seq<Seq<char>> {
    Seq::new(ps.len(), |i: int| strip_cr(ps[i]))
}

/// The lines of `s` as `str::lines` gives them: split at newlines, a
/// carriage return right before a newline dropped, and no line after a
/// final newline.
pub open spec fn lines_of(s: Seq<char>) -> Seq<Seq<char>> {
    if s.len() == 0 {
        Seq::empty()
    } else if s.last() == '\n' {
        strip_all(split_nl(s.drop_last()))
    } else {
        strip_all(split_nl(s).drop_last()).push(split_nl(s).last())
    }
}

pub open spec fn strings_view(s: Seq<String>) -> Seq<Seq<char>> {
    Seq::new(s.len(), |i: int| s[i]@)
}

proof fn lemma_split_nl_nonempty(s: Seq<char>)
    ensures
        split_nl(s).len() >= 1,
    decreases s.len(),
{
    if s.len() > 0 {
        lemma_split_nl_nonempty(s.drop_last());
    }
}

/// The lines of a text (see `lines_of`).
pub fn split_lines(t: &str) -> (r: Vec<String>)
    ensures
        strings_view(r@) == lines_of(t@),
{
    broadcast use vstd::string::axiom_spec_iter;

    let mut done: Vec<String> = Vec::new();
    let mut body = String::new();
    let mut cr = false;
    let mut last_nl = false;
    let mut any = false;
    let ghost s = t@;
    for ch in it: t.chars()
        invariant
            s == t@,
            it.seq() == s,
            it.index() <= s.len(),
            any == (it.index() > 0),
            ({
                let q = s.subrange(0, it.index() as int);
                let ps = split_nl(q);
                &&& ps.len() >= 1
                &&& strings_view(done@) == strip_all(ps.drop_last())
                &&& ps.last() == body@ + (if cr { seq!['\r'] } else { Seq::<char>::empty() })
                &&& !cr ==> (body@.len() == 0 || body@.last() != '\r')
                &&& last_nl == (it.index() > 0 && q.last() == '\n')
            }),
    {
        let ghost k = it.index() as int;
        let ghost q = s.subrange(0, k);
        let ghost q1 = s.subrange(0, k + 1);
        proof {
            assert(q1.drop_last() =~= q);
            assert(q1.last() == ch);
            lemma_split_nl_nonempty(q);
        }
        if ch == '\n' {
            let ghost ps = split_nl(q);
            proof {
                assert(strip_cr(ps.last()) == body@) by {
                    if cr {
                        assert((body@ + seq!['\r']).drop_last() =~= body@);
                    } else {
                        assert(body@ + Seq::<char>::empty() =~= body@);
                    }
                }
            }
            let ghost old_done = done@;
            let line = body;
            done.push(line);
            body = String::new();
            cr = false;
            last_nl = true;
            proof {
                assert(split_nl(q1).drop_last() =~= ps);
                assert(strings_view(done@) =~= strings_view(old_done).push(strip_cr(ps.last())));
                assert(strip_all(ps) =~= strip_all(ps.drop_last()).push(strip_cr(ps.last())));
                assert(strings_view(done@) =~= strip_all(split_nl(q1).drop_last()));
            }
        } else {
            let ghost ps = split_nl(q);
            if cr {
                push_char(&mut body, '\r');
            }
            if ch == '\r' {
                cr = true;
            } else {
                push_char(&mut body, ch);
                cr = false;
            }
            last_nl = false;
            proof {
                assert(split_nl(q1).drop_last() =~= ps.drop_last());
                assert(split_nl(q1).last() =~= body@ + (if cr { seq!['\r'] } else { Seq::<char>::empty() }));
            }
        }
        any = true;
    }
    proof {
        assert(s.subrange(0, s.len() as int) =~= s);
    }
    if any && !last_nl {
        let ghost raw = body@ + (if cr { seq!['\r'] } else { Seq::<char>::empty() });
        if cr {
            push_char(&mut body, '\r');
        }
        proof {
            assert(body@ =~= raw);
            assert(s.len() > 0 && s.last() != '\n');
        }
        let ghost old_done = done@;
        done.push(body);
        proof {
            assert(strings_view(done@) =~= strings_view(old_done).push(raw));
            assert(strings_view(done@) =~= lines_of(s));
        }
    } else {
        proof {
            if any {
                assert(split_nl(s) == split_nl(s.drop_last()).push(Seq::empty()));
                assert(split_nl(s).drop_last() =~= split_nl(s.drop_last()));
            }
            assert(strings_view(done@) =~= lines_of(s));
        }
    }
    done
}


// ---------------------------------------------------------------------------
// The pattern input
// ---------------------------------------------------------------------------

/// `s` without its newlines.
pub open spec fn drop_newlines(s: Seq<char>) -> Seq<char>
    decreases s.len(),
{
    if s.len() == 0 {
        s
    } else if s.last() == '\n' {
        drop_newlines(s.drop_last())
    } else {
        drop_newlines(s.drop_last()).push(s.last())
    }
}

/// The line a pattern is put into the input as (its newlines removed) and
/// the cursor column after it (its length in bytes); `None` for a pattern
/// that is empty without its newlines.
pub fn pattern_line(p: &str) -> (r: Option<(String, usize)>)
    ensures
        r is None <==> drop_newlines(p@).len() == 0,
        r matches Some((s, col)) ==> s@ == drop_newlines(p@) && col == vstd::utf8::encode_utf8(s@).len() as usize,
{
    broadcast use vstd::string::axiom_spec_iter;

    let mut s = String::new();
    let ghost t = p@;
    for ch in it: p.chars()
        invariant
            t == p@,
            it.seq() == t,
            it.index() <= t.len(),
            s@ == drop_newlines(t.subrange(0, it.index() as int)),
    {
        proof {
            let k = it.index() as int;
            assert(t.subrange(0, k + 1).drop_last() =~= t.subrange(0, k));
        }
        if ch != '\n' {
            push_char(&mut s, ch);
        }
    }
    proof {
        assert(t.subrange(0, t.len() as int) =~= t);
    }
    if s.as_str().is_empty() {
        return None;
    }
    let col = s.as_str().len();
    Some((s, col))
}

/// How bright the colours of a part of the pattern input are drawn.
#[derive(Debug, Clone, Copy, PartialEq, Eq, Structural)]
pub enum Brightness {
    Normal,
    Dim,
    Bright,
}

/// A part of the pattern input drawn with its own colours at one
/// brightness, perhaps in bold.
#[derive(Debug, Clone, Copy, PartialEq, Eq, Structural)]
pub struct InputSlice {
    pub start: usize,
    pub end: usize,
    pub brightness: Brightness,
    pub bold: bool,
}

pub open spec fn slice_if(start: usize, end: usize, brightness: Brightness, bold: bool) -> Seq<InputSlice> {
    if start < end {
        seq![InputSlice { start, end, brightness, bold }]
    } else {
        Seq::empty()
    }
}

/// The parts of a pattern of `len` bytes drawn in the input: all of it at
/// normal brightness, or, with a selected part, the rest dimmed and the
/// selected part bright and bold. A selected part that is empty or reaches
/// past the end is drawn as if nothing were selected.
pub open spec fn input_slices_spec(len: usize, selected: Option<PatternSpan>) -> Seq<InputSlice> {
    if len == 0 {
        Seq::empty()
    } else {
        match selected {
            None => slice_if(0, len, Brightness::Normal, false),
            Some(sp) => if sp.start >= sp.end || sp.end > len {
                slice_if(0, len, Brightness::Normal, false)
            } else {
                slice_if(0, sp.start, Brightness::Dim, false) + slice_if(sp.start, sp.end, Brightness::Bright, true)
                    + slice_if(sp.end, len, Brightness::Dim, false)
            },
        }
    }
}

fn push_slice(out: &mut Vec<InputSlice>, start: usize, end: usize, brightness: Brightness, bold: bool)
    ensures
        final(out)@ == old(out)@ + slice_if(start, end, brightness, bold),
{
    if start < end {
        out.push(InputSlice { start, end, brightness, bold });
    } else {
        assert(old(out)@ + slice_if(start, end, brightness, bold) =~= old(out)@);
    }
}

/// The parts of the pattern input to draw (see `input_slices_spec`).
pub fn input_slices(len: usize, selected: Option<PatternSpan>) -> (r: Vec<InputSlice>)
    ensures
        r@ == input_slices_spec(len, selected),
{
    let mut out: Vec<InputSlice> = Vec::new();
    if len == 0 {
        return out;
    }
    match selected {
        None => push_slice(&mut out, 0, len, Brightness::Normal, false),
        Some(sp) => {
            if sp.start >= sp.end || sp.end > len {
                push_slice(&mut out, 0, len, Brightness::Normal, false);
            } else {
                push_slice(&mut out, 0, sp.start, Brightness::Dim, false);
                push_slice(&mut out, sp.start, sp.end, Brightness::Bright, true);
                push_slice(&mut out, sp.end, len, Brightness::Dim, false);
            }
        },
    }
    proof {
        assert(out@ =~= input_slices_spec(len, selected));
    }
    out
}

// ---------------------------------------------------------------------------
// The text to match
// ---------------------------------------------------------------------------

/// The lines joined, each after the first preceded by `sep`.
pub open spec fn join(lines: Seq<Seq<char>>, sep: Seq<char>) -> Seq<char>
    decreases lines.len(),
{
    if lines.len() == 0 {
        Seq::empty()
    } else if lines.len() == 1 {
        lines[0]
    } else {
        join(lines.drop_last(), sep) + sep + lines.last()
    }
}

fn join_strings(lines: &Vec<String>, sep: &str) -> (r: String)
    ensures
        r@ == join(strings_view(lines@), sep@),
{
    let ghost v = strings_view(lines@);
    let mut s = String::new();
    let mut k: usize = 0;
    while k < lines.len()
        invariant
            v == strings_view(lines@),
            k <= lines.len(),
            s@ == join(v.subrange(0, k as int), sep@),
        decreases lines.len() - k,
    {
        proof {
            assert(v.subrange(0, k + 1).drop_last() =~= v.subrange(0, k as int));
        }
        if k > 0 {
            push_text(&mut s, sep);
        }
        push_text(&mut s, lines[k].as_str());
        proof {
            if k == 0 {
                assert(s@ =~= v.subrange(0, 1)[0]);
            }
        }
        k += 1;
    }
    proof {
        assert(v.subrange(0, k as int) =~= v);
    }
    s
}

impl TextBuffer {
    /// The whole text: the lines joined by newlines.
    pub fn text(&self) -> (r: String)
        ensures
            r@ == join(strings_view(self.lines@), seq!['\n']),
    {
        proof {
            reveal_strlit("\n");
            assert("\n"@ =~= seq!['\n']);
        }
        join_strings(&self.lines, "\n")
    }

    /// The lines run together (the pattern input's one logical line).
    pub fn concat(&self) -> (r: String)
        ensures
            r@ == join(strings_view(self.lines@), Seq::empty()),
    {
        proof {
            reveal_strlit("");
            assert(""@ =~= Seq::<char>::empty());
        }
        join_strings(&self.lines, "")
    }
}

/// The lines a text is put into the editor as, and the cursor after it
/// (on the last line, after its last byte); `None` for a text without
/// lines.
pub fn match_text_lines(t: &str) -> (r: Option<(Vec<String>, (usize, usize))>)
    ensures
        r is None <==> lines_of(t@).len() == 0,
        r matches Some((lines, cursor)) ==> strings_view(lines@) == lines_of(t@) && cursor.0 == lines@.len() - 1
            && cursor.1 == vstd::utf8::encode_utf8(lines@[lines@.len() - 1]@).len() as usize,
{
    let lines = split_lines(t);
    if lines.len() == 0 {
        return None;
    }
    let row = lines.len() - 1;
    let col = lines[row].as_str().len();
    Some((lines, (row, col)))
}

// ---------------------------------------------------------------------------
// Highlighting matches
// ---------------------------------------------------------------------------

/// A highlighted range of the text: its layer (the depth at which it was
/// reached, counting from 1) and its colour (one of five, by layer).
#[derive(Debug, Clone, Copy, PartialEq, Eq, Structural)]
pub struct Highlight {
    pub start: usize,
    pub end: usize,
    pub layer: u8,
    pub color: usize,
}

/// The highlights of a match at layer `n`: its own, then those of each of
/// its groups, the `i`-th at layer `n + 1 + i` (with `i` taken modulo 256
/// as a byte). `None` when a layer would not fit in a byte (or `n` is 0).
pub open spec fn highlights(m: MatchV, n: int) -> Option<Seq<Highlight>>
    decreases m, 0nat,
{
    if n < 1 || n > 255 {
        None
    } else {
        match group_highlights(m.groups, n, m.groups.len()) {
            Some(rest) => Some(
                seq![Highlight { start: m.start, end: m.end, layer: n as u8, color: ((n - 1) % 5) as usize }] + rest,
            ),
            None => None,
        }
    }
}

/// The highlights of the first `k` groups of a match at layer `n`.
pub open spec fn group_highlights(gs: Seq<MatchV>, n: int, k: nat) -> Option<Seq<Highlight>>
    decreases gs, k,
{
    if k == 0 || k > gs.len() {
        Some(Seq::empty())
    } else {
        let i = k - 1;
        let layer = n + 1 + i % 256;
        match group_highlights(gs, n, i as nat) {
            Some(before) => if n + 1 > 255 || layer > 255 {
                None
            } else {
                match highlights(gs[i], layer) {
                    Some(h) => Some(before + h),
                    None => None,
                }
            },
            None => None,
        }
    }
}

proof fn lemma_group_highlights_none(gs: Seq<MatchV>, n: int, k: nat, k2: nat)
    requires
        k <= k2 <= gs.len(),
        group_highlights(gs, n, k) is None,
    ensures
        group_highlights(gs, n, k2) is None,
    decreases k2,
{
    if k < k2 {
        lemma_group_highlights_none(gs, n, k, (k2 - 1) as nat);
    }
}

fn highlight_into(m: &RegexMatchGrp, n: u8, out: &mut Vec<Highlight>) -> (ok: bool)
    ensures
        ok == highlights(m@, n as int) is Some,
        ok ==> final(out)@ == old(out)@ + highlights(m@, n as int)->Some_0,
    decreases m, 0nat,
{
    if n < 1 {
        return false;
    }
    let ghost start = out@;
    out.push(Highlight { start: m.start_offset, end: m.end_offset, layer: n, color: ((n - 1) % 5) as usize });
    let ghost head = out@;
    let ghost gs = matches_view(m.groups@);
    let mut i: usize = 0;
    while i < m.groups.len()
        invariant
            gs == matches_view(m.groups@),
            1 <= n,
            i <= m.groups.len(),
            group_highlights(gs, n as int, i as nat) matches Some(h) && out@ == head + h,
        decreases m.groups.len() - i,
    {
        proof {
            crate::matcher::lemma_group_decreases(*m, i as int);
            assert(gs[i as int] == m.groups@[i as int]@);
        }
        let j = #[verifier::truncate] (i as u8);
        proof {
            assert(j == i % 256) by (bit_vector)
                requires
                    j == #[verifier::truncate] (i as u8),
            ;
        }
        if n == 255 || (n + 1) as u16 + j as u16 > 255 {
            proof {
                assert(group_highlights(gs, n as int, (i + 1) as nat) is None);
                lemma_group_highlights_none(gs, n as int, (i + 1) as nat, gs.len());
            }
            return false;
        }
        let layer = n + 1 + j;
        if !highlight_into(&m.groups[i], layer, out) {
            proof {
                assert(group_highlights(gs, n as int, (i + 1) as nat) is None);
                lemma_group_highlights_none(gs, n as int, (i + 1) as nat, gs.len());
            }
            return false;
        }
        i += 1;
    }
    proof {
        assert(group_highlights(gs, n as int, gs.len()) matches Some(h) && out@ == head + h);
        assert(out@ =~= start + highlights(m@, n as int)->Some_0);
    }
    true
}

/// The highlights of a match drawn at layer `n` (see `highlights`); `None`
/// when the layers would not fit in a byte.
pub fn highlight_plan(m: &RegexMatchGrp, n: u8) -> (r: Option<Vec<Highlight>>)
    ensures
        match highlights(m@, n as int) {
            Some(h) => r matches Some(v) && v@ == h,
            None => r is None,
        },
{
    let mut out: Vec<Highlight> = Vec::new();
    if highlight_into(m, n, &mut out) {
        proof {
            assert(out@ =~= highlights(m@, n as int)->Some_0);
        }
        Some(out)
    } else {
        None
    }
}

// ---------------------------------------------------------------------------
// The status line
// ---------------------------------------------------------------------------

/// The labels of the groups around `offset` in the first match that
/// covers it, outermost first (the match itself left out).
pub open spec fn breadcrumb_spec(ms: Seq<MatchV>, offset: usize) -> Seq<Seq<char>> {
    let k = crate::matcher::first_covering_offset(ms, offset);
    if k < ms.len() {
        let p = group_path(ms[k as int], offset);
        Seq::new((p.len() - 1) as nat, |i: int| p[i + 1].label)
    } else {
        Seq::empty()
    }
}

/// The labels of the groups around `offset` (see `breadcrumb_spec`).
pub fn breadcrumb(matches: &Vec<RegexMatchGrp>, offset: usize) -> (r: Vec<String>)
    ensures
        strings_view(r@) == breadcrumb_spec(matches_view(matches@), offset),
{
    let ghost ms = matches_view(matches@);
    let mut k: usize = 0;
    while k < matches.len()
        invariant
            ms == matches_view(matches@),
            k <= matches.len(),
            forall|j: int| 0 <= j < k ==> !covers_offset(#[trigger] ms[j], offset),
        decreases matches.len() - k,
    {
        proof {
            assert(ms[k as int] == matches@[k as int]@);
        }
        if matches[k].contains_offset(offset) {
            proof {
                crate::matcher::lemma_first_covering_offset(ms, offset);
                let f = crate::matcher::first_covering_offset(ms, offset);
                if f < k {
                    assert(!covers_offset(ms[f as int], offset));
                } else if f > k {
                    assert(!covers_offset(ms[k as int], offset));
                }
                assert(f == k);
            }
            let path = matches[k].find_group_path(offset);
            let ghost pv = path@.map_values(|g: &RegexMatchGrp| g@);
            let mut out: Vec<String> = Vec::new();
            let mut i: usize = 1;
            proof {
                assert(pv.len() >= 1);
            }
            while i < path.len()
                invariant
                    pv == path@.map_values(|g: &RegexMatchGrp| g@),
                    1 <= i <= path.len(),
                    strings_view(out@) == Seq::new((i - 1) as nat, |j: int| pv[j + 1].label),
                decreases path.len() - i,
            {
                let ghost before = out@;
                let label = path[i].label.clone();
                proof {
                    assert(pv[i as int] == path@[i as int]@);
                    assert(label@ == pv[i as int].label);
                }
                out.push(label);
                proof {
                    assert(strings_view(out@) =~= strings_view(before).push(label@));
                    assert(strings_view(out@) =~= Seq::new(i as nat, |j: int| pv[j + 1].label));
                }
                i += 1;
            }
            return out;
        }
        k += 1;
    }
    proof {
        crate::matcher::lemma_first_covering_offset(ms, offset);
        let f = crate::matcher::first_covering_offset(ms, offset);
        if f < ms.len() {
            assert(!covers_offset(ms[f as int], offset));
        }
        assert(strings_view(Seq::<String>::empty()) =~= Seq::empty());
    }
    Vec::new()
}


/// The parts of the status line under the text: which match (and which
/// groups in it) the cursor is in, how far down the text it is, and its
/// (row:column), counted from 1.
pub struct StatusLine {
    pub matched: String,
    pub position: String,
    pub cursor: String,
}

pub open spec fn match_word() -> Seq<char> {
    seq!['M', 'a', 't', 'c', 'h', ' ']
}

pub open spec fn crumb_sep() -> Seq<char> {
    seq![' ', '>', ' ']
}

/// `Match k`, with ` > ` and the group labels around the offset, for the
/// first match `k` that covers the offset; empty when none does.
pub open spec fn matched_text(ms: Seq<MatchV>, offset: usize) -> Seq<char> {
    let k = crate::matcher::first_covering_offset(ms, offset);
    if k < ms.len() {
        let crumbs = breadcrumb_spec(ms, offset);
        match_word() + decimal(k) + if crumbs.len() > 0 {
            crumb_sep() + join(crumbs, crumb_sep())
        } else {
            Seq::empty()
        }
    } else {
        Seq::empty()
    }
}

/// `Top ` on the first row, `Bot ` on the last, else the percentage of
/// the rows down to the cursor's.
pub open spec fn position_text(row: int, total: int) -> Seq<char> {
    if row == 0 {
        seq!['T', 'o', 'p', ' ']
    } else if row + 1 == total {
        seq!['B', 'o', 't', ' ']
    } else {
        decimal((((row + 1) * 100) / total) as nat) + seq!['%', ' ']
    }
}

pub open spec fn cursor_text(row: int, col: int) -> Seq<char> {
    seq!['('] + decimal((row + 1) as nat) + seq![':'] + decimal((col + 1) as nat) + seq![')']
}

/// The status line for the cursor of `buf` among `matches`.
pub fn status_line(matches: &Vec<RegexMatchGrp>, buf: &TextBuffer) -> (r: StatusLine)
    requires
        buf.offsets_fit(),
        buf.cursor.0 < usize::MAX,
        buf.cursor.1 < usize::MAX,
        buf.cursor.0 != 0 && buf.cursor.0 + 1 != buf.lines@.len() ==> buf.lines@.len() > 0 && (buf.cursor.0 + 1) * 100
            <= usize::MAX,
    ensures
        r.matched@ == matched_text(
            matches_view(matches@),
            flat_offset(line_lens(buf.lines@), buf.cursor.0 as int, buf.cursor.1 as int) as usize,
        ),
        r.position@ == position_text(buf.cursor.0 as int, buf.lines@.len() as int),
        r.cursor@ == cursor_text(buf.cursor.0 as int, buf.cursor.1 as int),
{
    let offset = buf.get_flat_offset_from_cursor();
    let ghost ms = matches_view(matches@);
    let mut matched = String::new();
    let mut k: usize = 0;
    while k < matches.len()
        invariant
            ms == matches_view(matches@),
            k <= matches.len(),
            forall|j: int| 0 <= j < k ==> !covers_offset(#[trigger] ms[j], offset),
        ensures
            ms == matches_view(matches@),
            k <= matches.len(),
            forall|j: int| 0 <= j < k ==> !covers_offset(#[trigger] ms[j], offset),
            k < matches.len() ==> covers_offset(ms[k as int], offset),
        decreases matches.len() - k,
    {
        proof {
            assert(ms[k as int] == matches@[k as int]@);
        }
        if matches[k].contains_offset(offset) {
            break;
        }
        k += 1;
    }
    proof {
        crate::matcher::lemma_first_covering_offset(ms, offset);
        let f = crate::matcher::first_covering_offset(ms, offset);
        if f < k {
            assert(!covers_offset(ms[f as int], offset));
        }
    }
    if k < matches.len() {
        proof {
            let f = crate::matcher::first_covering_offset(ms, offset);
            assert(covers_offset(ms[k as int], offset));
            if f > k {
                assert(!covers_offset(ms[k as int], offset));
            }
            reveal_strlit("Match ");
            reveal_strlit(" > ");
        }
        push_text(&mut matched, "Match ");
        push_decimal(&mut matched, k as u64);
        let crumbs = breadcrumb(matches, offset);
        if crumbs.len() > 0 {
            push_text(&mut matched, " > ");
            let joined = join_strings(&crumbs, " > ");
            push_text(&mut matched, joined.as_str());
        }
        proof {
            assert(" > "@ =~= crumb_sep());
            assert("Match "@ =~= match_word());
            assert(matched@ =~= matched_text(ms, offset));
        }
    } else {
        proof {
            assert(matched@ =~= matched_text(ms, offset));
        }
    }
    let (row, col) = buf.cursor;
    let total = buf.lines.len();
    let mut position = String::new();
    proof {
        reveal_strlit("Top ");
        reveal_strlit("Bot ");
        reveal_strlit("% ");
    }
    if row == 0 {
        push_text(&mut position, "Top ");
    } else if row + 1 == total {
        push_text(&mut position, "Bot ");
    } else {
        push_decimal(&mut position, (((row + 1) * 100) / total) as u64);
        push_text(&mut position, "% ");
    }
    proof {
        assert(position@ =~= position_text(row as int, total as int));
    }
    let mut cursor = String::new();
    proof {
        reveal_strlit("(");
        reveal_strlit(":");
        reveal_strlit(")");
    }
    push_text(&mut cursor, "(");
    push_decimal(&mut cursor, (row + 1) as u64);
    push_text(&mut cursor, ":");
    push_decimal(&mut cursor, (col + 1) as u64);
    push_text(&mut cursor, ")");
    proof {
        assert(cursor@ =~= cursor_text(row as int, col as int));
    }
    StatusLine { matched, position, cursor }
}

} // verus!
