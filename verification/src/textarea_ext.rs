//! Converting between byte offsets into a multi-line text (its lines joined
//! by newlines) and (row, column) cursor positions.
use vstd::prelude::*;
use vstd::string::StringSliceAdditionalSpecFns;

verus! {

/// The lines of an edited text and the cursor's (row, column).
pub struct TextBuffer {
    pub lines: Vec<String>,
    pub cursor: (usize, usize),
}

/// The length in bytes of a line.
pub open spec fn byte_len(s: Seq<char>) -> int {
    (vstd::utf8::encode_utf8(s).len() as usize) as int
}

/// The byte lengths of the lines.
pub open spec fn line_lens(lines: Seq<String>) -> Seq<int> {
    Seq::new(lines.len(), |i: int| byte_len(lines[i]@))
}

/// The (row, column) of byte offset `x`: the first line whose end is not
/// before `x` (each line followed by one newline byte); past the last line,
/// the row after it and column 0.
pub open spec fn cursor_pos(lens: Seq<int>, x: int) -> (int, int)
    decreases lens.len(),
{
    if lens.len() == 0 {
        (0, 0)
    } else if x <= lens[0] {
        (0, x)
    } else {
        let p = cursor_pos(lens.drop_first(), x - lens[0] - 1);
        (p.0 + 1, p.1)
    }
}

/// The byte offset of (row, column), the column cut to the line's length;
/// past the last line, the length of all lines with their newlines.
pub open spec fn flat_offset(lens: Seq<int>, row: int, col: int) -> int
    decreases lens.len(),
{
    if lens.len() == 0 {
        0
    } else if row == 0 {
        if col < lens[0] {
            col
        } else {
            lens[0]
        }
    } else {
        lens[0] + 1 + flat_offset(lens.drop_first(), row - 1, col)
    }
}

/// The length of all lines, each followed by a newline.
pub open spec fn lines_span(lens: Seq<int>) -> int
    decreases lens.len(),
{
    if lens.len() == 0 {
        0
    } else {
        lens[0] + 1 + lines_span(lens.drop_first())
    }
}

proof fn lemma_lines_span_nonneg(s: Seq<int>)
    requires
        forall|i: int| 0 <= i < s.len() ==> s[i] >= 0,
    ensures
        lines_span(s) >= 0,
    decreases s.len(),
{
    if s.len() > 0 {
        lemma_lines_span_nonneg(s.drop_first());
    }
}

/// Cursor arithmetic on an edited text.
pub trait TextAreaExt {
    /// Whether the offsets of the whole text fit in a `usize`.
    spec fn offsets_fit(&self) -> bool;

    /// The (row, column) of a byte offset.
    fn get_cursor_pos(&self, offset: usize) -> (usize, usize);

    /// The (row, column) of two byte offsets.
    fn get_cursor_range_from_offsets(&self, start: usize, end: usize) -> ((usize, usize), (usize, usize));

    /// The byte offset of the cursor.
    fn get_flat_offset_from_cursor(&self) -> usize
        requires
            self.offsets_fit(),
    ;
}

impl TextBuffer {
    pub fn new(lines: Vec<String>, cursor: (usize, usize)) -> (r: Self)
        ensures
            r.lines == lines,
            r.cursor == cursor,
    {
        TextBuffer { lines, cursor }
    }
}

proof fn lemma_lens_drop(lines: Seq<String>, k: int)
    requires
        0 <= k < lines.len(),
    ensures
        line_lens(lines).subrange(k, lines.len() as int).drop_first() == line_lens(lines).subrange(
            k + 1,
            lines.len() as int,
        ),
        line_lens(lines).subrange(k, lines.len() as int)[0] == byte_len(lines[k]@),
{
    assert(line_lens(lines).subrange(k, lines.len() as int).drop_first() =~= line_lens(lines).subrange(
        k + 1,
        lines.len() as int,
    ));
}

impl TextAreaExt for TextBuffer {
    open spec fn offsets_fit(&self) -> bool {
        lines_span(line_lens(self.lines@)) <= usize::MAX
    }

    fn get_cursor_pos(&self, offset: usize) -> (r: (usize, usize))
        ensures
            r.0 == cursor_pos(line_lens(self.lines@), offset as int).0,
            r.1 == cursor_pos(line_lens(self.lines@), offset as int).1,
    {
        let ghost lens = line_lens(self.lines@);
        let ghost n = self.lines@.len() as int;
        proof {
            assert(lens.subrange(0, n) =~= lens);
        }
        let mut x = offset;
        let mut row: usize = 0;
        let mut col: usize = 0;
        let mut k: usize = 0;
        while k < self.lines.len()
            invariant_except_break
                row == k,
                col == 0,
                cursor_pos(lens, offset as int) == ({
                    let p = cursor_pos(lens.subrange(k as int, n), x as int);
                    (p.0 + k, p.1)
                }),
            invariant
                lens == line_lens(self.lines@),
                n == self.lines@.len(),
                k <= n,
            ensures
                cursor_pos(lens, offset as int) == (row as int, col as int),
            decreases n - k,
        {
            let len = self.lines[k].as_str().len();
            proof {
                lemma_lens_drop(self.lines@, k as int);
                assert(len == byte_len(self.lines@[k as int]@));
            }
            if x <= len {
                col = x;
                break;
            } else {
                row += 1;
                x = x - len - 1;
            }
            k += 1;
        }
        proof {
            if k == n {
                assert(lens.subrange(k as int, n) =~= Seq::<int>::empty());
            }
        }
        (row, col)
    }

    fn get_cursor_range_from_offsets(&self, start: usize, end: usize) -> (r: ((usize, usize), (usize, usize)))
        ensures
            r.0.0 == cursor_pos(line_lens(self.lines@), start as int).0,
            r.0.1 == cursor_pos(line_lens(self.lines@), start as int).1,
            r.1.0 == cursor_pos(line_lens(self.lines@), end as int).0,
            r.1.1 == cursor_pos(line_lens(self.lines@), end as int).1,
    {
        (self.get_cursor_pos(start), self.get_cursor_pos(end))
    }

    fn get_flat_offset_from_cursor(&self) -> (r: usize)
        ensures
            r == flat_offset(line_lens(self.lines@), self.cursor.0 as int, self.cursor.1 as int),
    {
        let ghost lens = line_lens(self.lines@);
        let ghost n = self.lines@.len() as int;
        proof {
            assert(lens.subrange(0, n) =~= lens);
        }
        let (row, col) = self.cursor;
        let mut offset: usize = 0;
        let mut k: usize = 0;
        while k < self.lines.len()
            invariant
                lens == line_lens(self.lines@),
                n == self.lines@.len(),
                k <= n,
                k <= row,
                row == self.cursor.0,
                col == self.cursor.1,
                offset + lines_span(lens.subrange(k as int, n)) <= usize::MAX,
                flat_offset(lens, row as int, col as int) == offset + flat_offset(
                    lens.subrange(k as int, n),
                    row - k,
                    col as int,
                ),
                lines_span(lens) <= usize::MAX,
            decreases n - k,
        {
            let len = self.lines[k].as_str().len();
            proof {
                lemma_lens_drop(self.lines@, k as int);
                assert(len == byte_len(self.lines@[k as int]@));
                assert(lines_span(lens.subrange(k as int, n)) == len + 1 + lines_span(lens.subrange(k + 1, n)));
                lemma_lines_span_nonneg(lens.subrange(k + 1, n));
            }
            if k == row {
                let c = if col < len { col } else { len };
                assert(flat_offset(lens.subrange(k as int, n), 0, col as int) == c);
                return offset + c;
            }
            offset = offset + len + 1;
            k += 1;
        }
        proof {
            assert(lens.subrange(k as int, n) =~= Seq::<int>::empty());
        }
        offset
    }
}

/// An offset inside the text, turned into a cursor position and back,
/// gives the same offset.
pub proof fn lemma_offset_roundtrip(lens: Seq<int>, x: int)
    requires
        forall|i: int| 0 <= i < lens.len() ==> lens[i] >= 0,
        0 <= x < lines_span(lens),
    ensures
        flat_offset(lens, cursor_pos(lens, x).0, cursor_pos(lens, x).1) == x,
    decreases lens.len(),
{
    if lens.len() > 0 && x > lens[0] {
        let rest = lens.drop_first();
        lemma_offset_roundtrip(rest, x - lens[0] - 1);
        lemma_cursor_row_nonneg(rest, x - lens[0] - 1);
    }
}

/// A cursor position on a line (at most at its end), turned into an
/// offset and back, gives the same position.
pub proof fn lemma_cursor_roundtrip(lens: Seq<int>, row: int, col: int)
    requires
        forall|i: int| 0 <= i < lens.len() ==> lens[i] >= 0,
        0 <= row < lens.len(),
        0 <= col <= lens[row],
    ensures
        cursor_pos(lens, flat_offset(lens, row, col)) == (row, col),
    decreases lens.len(),
{
    if row > 0 {
        let rest = lens.drop_first();
        lemma_cursor_roundtrip(rest, row - 1, col);
        lemma_flat_offset_nonneg(rest, row - 1, col);
    }
}

proof fn lemma_cursor_row_nonneg(lens: Seq<int>, x: int)
    ensures
        cursor_pos(lens, x).0 >= 0,
    decreases lens.len(),
{
    if lens.len() > 0 && x > lens[0] {
        lemma_cursor_row_nonneg(lens.drop_first(), x - lens[0] - 1);
    }
}

proof fn lemma_flat_offset_nonneg(lens: Seq<int>, row: int, col: int)
    requires
        forall|i: int| 0 <= i < lens.len() ==> lens[i] >= 0,
        col >= 0,
    ensures
        flat_offset(lens, row, col) >= 0,
    decreases lens.len(),
{
    if lens.len() > 0 && row != 0 {
        lemma_flat_offset_nonneg(lens.drop_first(), row - 1, col);
    }
}

/// Line lengths are never negative.
pub proof fn lemma_line_lens_nonneg(lines: Seq<String>)
    ensures
        forall|i: int| 0 <= i < line_lens(lines).len() ==> line_lens(lines)[i] >= 0,
{
}

} // verus!
