//! Motions: pure moves of a cursor over a buffer.
use vstd::prelude::*;
use crate::buffer::Buffer;
use crate::cursor::{Cursor, first_non_blank, min};
use crate::text::{
    CharClass, is_word_char, lemma_skip_fwd, line_count, line_text_at, skip_backward, skip_bwd, skip_forward, skip_fwd, word_char, blank,
};

verus! {

/// Number of lines that a half-page motion moves.
pub const HALF_PAGE: usize = 10;

#[allow(non_camel_case_types)]
#[derive(Debug, Clone, Copy, PartialEq, Eq, Structural)]
pub enum Motion {
    Left,
    Right,
    Up,
    Down,
    LineStart,
    LineEnd,
    FirstNonBlank,
    WordForward,
    WordBackward,
    WordEnd,
    WORDForward,
    WORDBackward,
    WORDEnd,
    DocumentStart,
    DocumentEnd,
    PageDown,
    PageUp,
}

/// `n - 1`, or 0 for an empty line: the last column of a line of `n` characters.
pub open spec fn last_col(n: nat) -> usize {
    if n > 0 {
        (n - 1) as usize
    } else {
        0
    }
}

/// Where the same-line part of a word-forward scan from `c` stops: past the
/// rest of a word (if it starts on one), then punctuation, then white space.
pub open spec fn word_scan_end(s: Seq<char>, c: int) -> int {
    if word_char(s[c]) {
        skip_fwd(
            s,
            skip_fwd(s, skip_fwd(s, c, CharClass::Word), CharClass::Punct),
            CharClass::Blank,
        )
    } else {
        skip_fwd(s, skip_fwd(s, c, CharClass::Punct), CharClass::Blank)
    }
}

/// Word-forward. `cross` is set once the scan has moved to a following line,
/// where it stops on the first character that is not white space.
pub open spec fn word_fwd(t: Seq<char>, c: Cursor, cross: bool) -> Cursor
    decreases line_count(t) - c.line,
{
    let s = line_text_at(t, c.line as int);
    let n = s.len();
    let next = Cursor { line: (c.line + 1) as usize, column: 0, ..c };
    if c.column >= n {
        if c.line + 1 < line_count(t) && c.line < usize::MAX {
            word_fwd(t, next, true)
        } else {
            c
        }
    } else if cross && skip_fwd(s, c.column as int, CharClass::Blank) < n {
        let j = skip_fwd(s, c.column as int, CharClass::Blank) as usize;
        Cursor { column: j, preferred_column: Some(j), ..c }
    } else {
        let j = if cross {
            n as int
        } else {
            word_scan_end(s, c.column as int)
        };
        if j >= n {
            if c.line + 1 < line_count(t) && c.line < usize::MAX {
                let r = word_fwd(t, next, true);
                Cursor { preferred_column: Some(r.column), ..r }
            } else {
                Cursor { column: last_col(n), preferred_column: Some(last_col(n)), ..c }
            }
        } else {
            Cursor { column: j as usize, preferred_column: Some(j as usize), ..c }
        }
    }
}

/// Word-backward: from column 0 it continues at the end of the line above;
/// otherwise it moves back over white space, then punctuation, then a word.
pub open spec fn word_bwd(t: Seq<char>, c: Cursor) -> Cursor
    decreases c.line,
{
    if c.column == 0 {
        if c.line > 0 {
            word_bwd(
                t,
                Cursor {
                    line: (c.line - 1) as usize,
                    column: line_text_at(t, c.line - 1).len() as usize,
                    ..c
                },
            )
        } else {
            c
        }
    } else {
        let s = line_text_at(t, c.line as int);
        let m = min(c.column as int, s.len() as int);
        let k = skip_bwd(
            s,
            skip_bwd(s, skip_bwd(s, m, CharClass::Blank), CharClass::Punct),
            CharClass::Word,
        ) as usize;
        Cursor { column: k, preferred_column: Some(k), ..c }
    }
}

/// Word-end: past leading white space, then a word, then punctuation; the
/// cursor lands on the last character passed.
pub open spec fn word_end(t: Seq<char>, c: Cursor) -> Cursor {
    let s = line_text_at(t, c.line as int);
    let n = s.len();
    let i = c.column as int;
    if i >= n {
        c
    } else {
        let a = if blank(s[i]) {
            skip_fwd(s, i, CharClass::Blank)
        } else {
            i
        };
        let j = skip_fwd(s, skip_fwd(s, a, CharClass::Word), CharClass::Punct);
        let consumed = j - i;
        let col = min(i + if consumed > 0 {
            consumed - 1
        } else {
            0
        }, last_col(n) as int) as usize;
        Cursor { column: col, preferred_column: Some(col), ..c }
    }
}

/// The cursor after motion `m` from `c` over text `t`.
pub open spec fn motion_result(m: Motion, c: Cursor, t: Seq<char>) -> Cursor {
    let s = line_text_at(t, c.line as int);
    match m {
        Motion::Left => if c.column > 0 {
            Cursor { column: (c.column - 1) as usize, preferred_column: Some((c.column - 1) as usize), ..c }
        } else {
            c
        },
        Motion::Right => if c.column < last_col(s.len()) {
            Cursor { column: (c.column + 1) as usize, preferred_column: Some((c.column + 1) as usize), ..c }
        } else {
            c
        },
        Motion::Up => if c.line > 0 {
            Cursor {
                line: (c.line - 1) as usize,
                column: min(c.column as int, last_col(line_text_at(t, c.line - 1).len()) as int) as usize,
                ..c
            }
        } else {
            c
        },
        Motion::Down => if c.line + 1 < line_count(t) {
            Cursor {
                line: (c.line + 1) as usize,
                column: min(c.column as int, last_col(line_text_at(t, c.line + 1).len()) as int) as usize,
                ..c
            }
        } else {
            c
        },
        Motion::LineStart => Cursor { column: 0, preferred_column: Some(0), ..c },
        Motion::LineEnd => Cursor {
            column: last_col(s.len()),
            preferred_column: Some(last_col(s.len())),
            ..c
        },
        Motion::FirstNonBlank => Cursor {
            column: first_non_blank(s) as usize,
            preferred_column: Some(first_non_blank(s) as usize),
            ..c
        },
        Motion::WordForward | Motion::WORDForward => word_fwd(t, c, false),
        Motion::WordBackward | Motion::WORDBackward => word_bwd(t, c),
        Motion::WordEnd | Motion::WORDEnd => word_end(t, c),
        Motion::DocumentStart => Cursor { line: 0, column: 0, preferred_column: Some(0) },
        Motion::DocumentEnd => {
            let l = (line_count(t) - 1) as usize;
            let n = line_text_at(t, l as int).len();
            Cursor { line: l, column: last_col(n), preferred_column: Some(last_col(n)) }
        },
        Motion::PageDown => {
            let l = min(c.line + HALF_PAGE, line_count(t) - 1) as usize;
            Cursor {
                line: l,
                column: min(c.column as int, last_col(line_text_at(t, l as int).len()) as int) as usize,
                ..c
            }
        },
        Motion::PageUp => Cursor {
            line: if c.line >= HALF_PAGE {
                (c.line - HALF_PAGE) as usize
            } else {
                0
            },
            ..c
        },
    }
}

proof fn lemma_word_fwd_line(t: Seq<char>, c: Cursor, cross: bool)
    requires
        c.line < line_count(t),
    ensures
        word_fwd(t, c, cross).line < line_count(t),
    decreases line_count(t) - c.line,
{
    let next = Cursor { line: (c.line + 1) as usize, column: 0, ..c };
    if c.line + 1 < line_count(t) && c.line < usize::MAX {
        lemma_word_fwd_line(t, next, true);
    }
}

proof fn lemma_word_bwd_line(t: Seq<char>, c: Cursor)
    requires
        c.line < line_count(t),
    ensures
        word_bwd(t, c).line < line_count(t),
    decreases c.line,
{
    if c.column == 0 && c.line > 0 {
        lemma_word_bwd_line(
            t,
            Cursor {
                line: (c.line - 1) as usize,
                column: line_text_at(t, c.line - 1).len() as usize,
                ..c
            },
        );
    }
}

/// Every motion keeps the cursor on a line of the text.
pub proof fn lemma_motion_line(m: Motion, c: Cursor, t: Seq<char>)
    requires
        c.line < line_count(t),
    ensures
        motion_result(m, c, t).line < line_count(t),
{
    match m {
        Motion::WordForward | Motion::WORDForward => lemma_word_fwd_line(t, c, false),
        Motion::WordBackward | Motion::WORDBackward => lemma_word_bwd_line(t, c),
        _ => {},
    }
}

fn last_column(n: usize) -> (r: usize)
    ensures
        r == last_col(n as nat),
{
    if n > 0 {
        n - 1
    } else {
        0
    }
}

fn min_usize(a: usize, b: usize) -> (r: usize)
    ensures
        r == min(a as int, b as int),
{
    if a <= b {
        a
    } else {
        b
    }
}

fn scan_word_forward(s: &Vec<char>, c: usize) -> (r: usize)
    requires
        c < s@.len(),
    ensures
        r == word_scan_end(s@, c as int),
        c <= r <= s@.len(),
{
    proof {
        lemma_skip_fwd(s@, c as int, CharClass::Word);
        lemma_skip_fwd(s@, c as int, CharClass::Punct);
    }
    let a = if is_word_char(s[c]) {
        skip_forward(s, c, CharClass::Word)
    } else {
        c
    };
    let b = skip_forward(s, a, CharClass::Punct);
    skip_forward(s, b, CharClass::Blank)
}

fn word_forward(buffer: &Buffer, c: Cursor, cross: bool) -> (r: Cursor)
    ensures
        r == word_fwd(buffer@.text, c, cross),
    decreases line_count(buffer@.text) - c.line,
{
    let s = buffer.line_text_chars(c.line);
    let n = s.len();
    let more = c.line < buffer.len_lines() && c.line + 1 < buffer.len_lines();
    if c.column >= n {
        if more {
            word_forward(buffer, Cursor { line: c.line + 1, column: 0, ..c }, true)
        } else {
            c
        }
    } else {
        let b = skip_forward(&s, c.column, CharClass::Blank);
        if cross && b < n {
            Cursor { column: b, preferred_column: Some(b), ..c }
        } else {
            let j = if cross {
                n
            } else {
                scan_word_forward(&s, c.column)
            };
            if j >= n {
                if more {
                    let r = word_forward(buffer, Cursor { line: c.line + 1, column: 0, ..c }, true);
                    Cursor { preferred_column: Some(r.column), ..r }
                } else {
                    let col = last_column(n);
                    Cursor { column: col, preferred_column: Some(col), ..c }
                }
            } else {
                Cursor { column: j, preferred_column: Some(j), ..c }
            }
        }
    }
}

fn word_backward(buffer: &Buffer, c: Cursor) -> (r: Cursor)
    ensures
        r == word_bwd(buffer@.text, c),
    decreases c.line,
{
    if c.column == 0 {
        if c.line > 0 {
            let prev = buffer.line_text_chars(c.line - 1);
            word_backward(buffer, Cursor { line: c.line - 1, column: prev.len(), ..c })
        } else {
            c
        }
    } else {
        let s = buffer.line_text_chars(c.line);
        let m = min_usize(c.column, s.len());
        let a = skip_backward(&s, m, CharClass::Blank);
        let b = skip_backward(&s, a, CharClass::Punct);
        let k = skip_backward(&s, b, CharClass::Word);
        Cursor { column: k, preferred_column: Some(k), ..c }
    }
}

fn word_end_of(buffer: &Buffer, c: Cursor) -> (r: Cursor)
    ensures
        r == word_end(buffer@.text, c),
{
    let s = buffer.line_text_chars(c.line);
    let n = s.len();
    let i = c.column;
    if i >= n {
        return c;
    }
    proof {
        lemma_skip_fwd(s@, i as int, CharClass::Blank);
    }
    let a = if crate::text::is_blank(s[i]) {
        skip_forward(&s, i, CharClass::Blank)
    } else {
        i
    };
    let w = skip_forward(&s, a, CharClass::Word);
    let j = skip_forward(&s, w, CharClass::Punct);
    let consumed = j - i;
    let step = if consumed > 0 {
        consumed - 1
    } else {
        0
    };
    let col = min_usize(i + step, last_column(n));
    Cursor { column: col, preferred_column: Some(col), ..c }
}

impl Motion {
    /// Moves `cursor` as this motion says; the buffer is not changed.
    pub fn execute(&self, cursor: &mut Cursor, buffer: &Buffer)
        ensures
            *final(cursor) == motion_result(*self, *old(cursor), buffer@.text),
    {
        let c = *cursor;
        let r = match self {
            Motion::Left => if c.column > 0 {
                Cursor { column: c.column - 1, preferred_column: Some(c.column - 1), ..c }
            } else {
                c
            },
            Motion::Right => {
                let n = buffer.line_text_chars(c.line).len();
                if c.column < last_column(n) {
                    Cursor { column: c.column + 1, preferred_column: Some(c.column + 1), ..c }
                } else {
                    c
                }
            },
            Motion::Up => if c.line > 0 {
                let n = buffer.line_text_chars(c.line - 1).len();
                Cursor { line: c.line - 1, column: min_usize(c.column, last_column(n)), ..c }
            } else {
                c
            },
            Motion::Down => if c.line < buffer.len_lines() && c.line + 1 < buffer.len_lines() {
                let n = buffer.line_text_chars(c.line + 1).len();
                Cursor { line: c.line + 1, column: min_usize(c.column, last_column(n)), ..c }
            } else {
                c
            },
            Motion::LineStart => Cursor { column: 0, preferred_column: Some(0), ..c },
            Motion::LineEnd => {
                let col = last_column(buffer.line_text_chars(c.line).len());
                Cursor { column: col, preferred_column: Some(col), ..c }
            },
            Motion::FirstNonBlank => {
                let s = buffer.line_text_chars(c.line);
                let k = skip_forward(&s, 0, CharClass::Blank);
                let col = if k < s.len() {
                    k
                } else {
                    0
                };
                Cursor { column: col, preferred_column: Some(col), ..c }
            },
            Motion::WordForward | Motion::WORDForward => word_forward(buffer, c, false),
            Motion::WordBackward | Motion::WORDBackward => word_backward(buffer, c),
            Motion::WordEnd | Motion::WORDEnd => word_end_of(buffer, c),
            Motion::DocumentStart => Cursor { line: 0, column: 0, preferred_column: Some(0) },
            Motion::DocumentEnd => {
                let l = buffer.len_lines() - 1;
                let col = last_column(buffer.line_text_chars(l).len());
                Cursor { line: l, column: col, preferred_column: Some(col) }
            },
            Motion::PageDown => {
                let max_line = buffer.len_lines() - 1;
                let l = if c.line <= max_line && HALF_PAGE <= max_line - c.line {
                    c.line + HALF_PAGE
                } else {
                    max_line
                };
                let n = buffer.line_text_chars(l).len();
                Cursor { line: l, column: min_usize(c.column, last_column(n)), ..c }
            },
            Motion::PageUp => Cursor {
                line: if c.line >= HALF_PAGE {
                    c.line - HALF_PAGE
                } else {
                    0
                },
                ..c
            },
        };
        *cursor = r;
    }
}

} // verus!
