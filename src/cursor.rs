//! A cursor: a line, a column within it, and the column that vertical moves
//! try to return to.
use vstd::prelude::*;
use crate::buffer::Buffer;
use crate::text::{
    CharClass, lemma_line_of, lemma_line_of_in_line, lemma_line_shape, lemma_line_start, line_chars,
    line_count, line_of, line_start, line_text, line_text_at, no_nl, skip_forward, skip_fwd,
};

verus! {

#[derive(Debug, Clone, Copy, PartialEq, Eq, Structural)]
pub struct Cursor {
    pub line: usize,
    pub column: usize,
    pub preferred_column: Option<usize>,
}

/// Length of line `l` with its line break; 0 past the last line.
pub open spec fn line_len_of(t: Seq<char>, l: int) -> nat {
    if 0 <= l < line_count(t) {
        line_chars(t, l as nat).len()
    } else {
        0
    }
}

/// The largest column of line `l` that a cursor may stand on outside Insert
/// mode: the last character of the line's text (0 for an empty line).
pub open spec fn max_col(t: Seq<char>, l: int) -> nat {
    if line_text_at(t, l).len() > 0 {
        (line_text_at(t, l).len() - 1) as nat
    } else {
        0
    }
}

/// Column of the first character of `s` that is not white space; 0 if there is none.
pub open spec fn first_non_blank(s: Seq<char>) -> nat {
    if skip_fwd(s, 0, CharClass::Blank) < s.len() {
        skip_fwd(s, 0, CharClass::Blank) as nat
    } else {
        0
    }
}

pub open spec fn min(a: int, b: int) -> int {
    if a <= b {
        a
    } else {
        b
    }
}

/// The column that a vertical move lands on in line `l`.
pub open spec fn adjusted_column(c: Cursor, t: Seq<char>, l: int) -> usize {
    match c.preferred_column {
        Some(p) => min(p as int, max_col(t, l) as int) as usize,
        None => min(c.column as int, max_col(t, l) as int) as usize,
    }
}

/// The cursor that stands on character offset `k` of `t`.
pub open spec fn cursor_at(t: Seq<char>, k: int) -> Cursor {
    Cursor {
        line: line_of(t, k) as usize,
        column: (k - line_start(t, line_of(t, k))) as usize,
        preferred_column: None,
    }
}

/// The character offset of `c` in `t`.
pub open spec fn offset_of(c: Cursor, t: Seq<char>) -> int {
    line_start(t, c.line as nat) + c.column
}

/// `c` stands on a line of `t`, at most at that line's line break.
pub open spec fn on_text(c: Cursor, t: Seq<char>) -> bool {
    &&& c.line < line_count(t)
    &&& c.column <= line_text(t, c.line as nat).len()
}

impl Cursor {
    pub fn new(line: usize, column: usize) -> (r: Cursor)
        ensures
            r == (Cursor { line, column, preferred_column: None }),
    {
        Cursor { line, column, preferred_column: None }
    }

    pub fn at_origin() -> (r: Cursor)
        ensures
            r == (Cursor { line: 0, column: 0, preferred_column: None }),
    {
        Cursor::new(0, 0)
    }

    /// The character offset of the cursor: where its line starts, plus its column.
    pub fn to_char_idx(&self, buffer: &Buffer) -> (r: usize)
        requires
            self.line <= line_count(buffer@.text),
            offset_of(*self, buffer@.text) <= usize::MAX,
        ensures
            r == offset_of(*self, buffer@.text),
    {
        let line_start = buffer.line_to_char(self.line);
        line_start + self.column
    }

    /// The cursor that stands on character offset `char_idx`.
    pub fn from_char_idx(buffer: &Buffer, char_idx: usize) -> (r: Cursor)
        requires
            char_idx <= buffer@.text.len(),
        ensures
            r == cursor_at(buffer@.text, char_idx as int),
            on_text(r, buffer@.text),
    {
        proof {
            lemma_line_of(buffer@.text, char_idx as int);
        }
        let line = buffer.char_to_line(char_idx);
        let line_start = buffer.line_to_char(line);
        proof {
            let t = buffer@.text;
            lemma_line_shape(t, line as nat);
            lemma_line_start(t, line as nat);
            let a = line_start as int;
            let col = char_idx - a;
            let lt = line_text(t, line as nat);
            if line + 1 < line_count(t) {
                // the line break closing the line lies at or after the offset
                lemma_line_start(t, line as nat + 1);
                let b = crate::text::line_end(t, line as nat) as int;
                if char_idx >= b {
                    assert(t.subrange(a, char_idx as int)[b - 1 - a] == t[b - 1]);
                }
            }
            assert(col <= lt.len());
        }
        Cursor::new(line, char_idx - line_start)
    }

    /// Moves `count` columns left, stopping at the start of the line.
    pub fn move_left(&mut self, buffer: &Buffer, count: usize)
        ensures
            final(self).line == old(self).line,
            final(self).column == if old(self).column >= count {
                old(self).column - count
            } else {
                0
            },
            final(self).preferred_column == Some(final(self).column),
    {
        if self.column >= count {
            self.column = self.column - count;
        } else {
            self.column = 0;
        }
        self.update_preferred_column();
    }

    /// Moves `count` columns right, stopping at the last column of the line.
    pub fn move_right(&mut self, buffer: &Buffer, count: usize)
        ensures
            final(self).line == old(self).line,
            final(self).column == min(
                old(self).column + count,
                max_col(buffer@.text, old(self).line as int) as int,
            ),
            final(self).preferred_column == Some(final(self).column),
    {
        let max = self.max_column(buffer);
        if self.column <= max && count <= max - self.column {
            self.column = self.column + count;
        } else {
            self.column = max;
        }
        self.update_preferred_column();
    }

    /// Moves `count` lines up, stopping at the first line.
    pub fn move_up(&mut self, buffer: &Buffer, count: usize)
        ensures
            final(self).line == if old(self).line >= count {
                old(self).line - count
            } else {
                0
            },
            final(self).column == adjusted_column(*old(self), buffer@.text, final(self).line as int),
            final(self).preferred_column == old(self).preferred_column,
    {
        if self.line >= count {
            self.line = self.line - count;
        } else {
            self.line = 0;
        }
        self.adjust_column(buffer);
    }

    /// Moves `count` lines down, stopping at the last line.
    pub fn move_down(&mut self, buffer: &Buffer, count: usize)
        ensures
            final(self).line == min(old(self).line + count, line_count(buffer@.text) - 1),
            final(self).column == adjusted_column(*old(self), buffer@.text, final(self).line as int),
            final(self).preferred_column == old(self).preferred_column,
    {
        let max_line = buffer.len_lines() - 1;
        if self.line <= max_line && count <= max_line - self.line {
            self.line = self.line + count;
        } else {
            self.line = max_line;
        }
        self.adjust_column(buffer);
    }

    pub fn move_to_line_start(&mut self)
        ensures
            *final(self) == (Cursor {
                column: 0,
                preferred_column: Some(0),
                ..*old(self)
            }),
    {
        self.column = 0;
        self.update_preferred_column();
    }

    pub fn move_to_line_end(&mut self, buffer: &Buffer)
        ensures
            *final(self) == (Cursor {
                column: max_col(buffer@.text, old(self).line as int) as usize,
                preferred_column: Some(max_col(buffer@.text, old(self).line as int) as usize),
                ..*old(self)
            }),
    {
        self.column = self.max_column(buffer);
        self.update_preferred_column();
    }

    /// Moves to the first character of the line that is not white space (column
    /// 0 if there is none). Past the last line nothing changes.
    pub fn move_to_first_non_blank(&mut self, buffer: &Buffer)
        ensures
            old(self).line < line_count(buffer@.text) ==> *final(self) == (Cursor {
                column: first_non_blank(line_text(buffer@.text, old(self).line as nat)) as usize,
                preferred_column: Some(
                    first_non_blank(line_text(buffer@.text, old(self).line as nat)) as usize,
                ),
                ..*old(self)
            }),
            old(self).line >= line_count(buffer@.text) ==> *final(self) == *old(self),
    {
        if self.line < buffer.len_lines() {
            let text = buffer.line_text_chars(self.line);
            self.column = first_non_blank_col(&text);
            self.update_preferred_column();
        }
    }

    /// Moves to line `line`, or to the last line if there is no such line.
    pub fn move_to_line(&mut self, line: usize, buffer: &Buffer)
        ensures
            final(self).line == min(line as int, line_count(buffer@.text) - 1),
            final(self).column == adjusted_column(*old(self), buffer@.text, final(self).line as int),
            final(self).preferred_column == old(self).preferred_column,
    {
        let max_line = buffer.len_lines() - 1;
        self.line = if line < max_line {
            line
        } else {
            max_line
        };
        self.adjust_column(buffer);
    }

    pub fn move_to_top(&mut self, buffer: &Buffer)
        ensures
            final(self).line == 0,
            final(self).column == adjusted_column(*old(self), buffer@.text, 0),
            final(self).preferred_column == old(self).preferred_column,
    {
        self.line = 0;
        self.adjust_column(buffer);
    }

    pub fn move_to_bottom(&mut self, buffer: &Buffer)
        ensures
            final(self).line == line_count(buffer@.text) - 1,
            final(self).column == adjusted_column(*old(self), buffer@.text, final(self).line as int),
            final(self).preferred_column == old(self).preferred_column,
    {
        self.line = buffer.len_lines() - 1;
        self.adjust_column(buffer);
    }

    fn max_column(&self, buffer: &Buffer) -> (r: usize)
        ensures
            r == max_col(buffer@.text, self.line as int),
    {
        let len = buffer.line_text_chars(self.line).len();
        if len > 0 {
            len - 1
        } else {
            0
        }
    }

    fn adjust_column(&mut self, buffer: &Buffer)
        ensures
            final(self).line == old(self).line,
            final(self).column == adjusted_column(*old(self), buffer@.text, old(self).line as int),
            final(self).preferred_column == old(self).preferred_column,
    {
        let max = self.max_column(buffer);
        let target = match self.preferred_column {
            Some(p) => p,
            None => self.column,
        };
        self.column = if target < max {
            target
        } else {
            max
        };
    }

    pub fn update_preferred_column(&mut self)
        ensures
            *final(self) == (Cursor { preferred_column: Some(old(self).column), ..*old(self) }),
    {
        self.preferred_column = Some(self.column);
    }

    /// Brings line and column back within the buffer.
    pub fn ensure_valid(&mut self, buffer: &Buffer)
        ensures
            final(self).line == min(old(self).line as int, line_count(buffer@.text) - 1),
            final(self).column == min(
                old(self).column as int,
                max_col(buffer@.text, final(self).line as int) as int,
            ),
            final(self).preferred_column == old(self).preferred_column,
    {
        let max_line = buffer.len_lines() - 1;
        if self.line > max_line {
            self.line = max_line;
        }
        let max = self.max_column(buffer);
        if self.column > max {
            self.column = max;
        }
    }
}

fn first_non_blank_col(v: &Vec<char>) -> (r: usize)
    ensures
        r == first_non_blank(v@),
{
    let k = skip_forward(v, 0, CharClass::Blank);
    if k < v.len() {
        k
    } else {
        0
    }
}

/// A cursor with no remembered column, standing on its text, comes back
/// unchanged from its character offset.
pub proof fn lemma_offset_round_trip(c: Cursor, t: Seq<char>)
    requires
        on_text(c, t),
        c.preferred_column is None,
    ensures
        0 <= offset_of(c, t) <= t.len(),
        cursor_at(t, offset_of(c, t)) == c,
{
    let l = c.line as nat;
    lemma_line_shape(t, l);
    lemma_line_start(t, l);
    let a = line_start(t, l) as int;
    let sub = t.subrange(a, a + c.column);
    assert forall|i: int| 0 <= i < sub.len() implies sub[i] != '\n' by {
        if c.line + 1 < line_count(t) {
            let e = crate::text::line_end(t, l) as int;
            assert(no_nl(t.subrange(a, e - 1)));
            assert(t.subrange(a, e - 1)[i] == t[a + i]);
        } else {
            assert(no_nl(t.subrange(a, t.len() as int)));
            assert(t.subrange(a, t.len() as int)[i] == t[a + i]);
        }
    }
    lemma_line_of_in_line(t, l, c.column as int);
}

} // verus!
