//! Single-key edits at the cursor, each reporting what it removed or copied.
use vstd::prelude::*;
use crate::buffer::{Buffer, BufferView, inserted, removed};
use crate::cursor::{Cursor, max_col, min, offset_of, on_text};
use crate::text::{
    CharClass, lemma_line_shape, lemma_nl_count_bound, lemma_skip_fwd, line_chars, line_count, line_start,
    line_text_at, skip_forward, skip_fwd,
};

verus! {

#[derive(Debug, Clone, Copy, PartialEq, Eq, Structural)]
pub enum Edit {
    InsertChar(char),
    InsertNewline,
    DeleteChar,
    DeleteLine,
    Backspace,
    DeleteWord,
    ChangeLine,
    YankLine,
    Paste,
}

#[derive(Debug, Clone)]
pub enum EditResult {
    DeletedChar(char),
    DeletedText(String),
    DeletedLine(String),
    YankedText(String),
}

/// How many characters delete-word removes from offset `i`: the rest of a
/// word, then punctuation, then white space, never a line break.
pub open spec fn word_delete_end(t: Seq<char>, i: int) -> int {
    skip_fwd(
        t,
        skip_fwd(t, skip_fwd(t, i, CharClass::Word), CharClass::Punct),
        CharClass::InlineBlank,
    )
}

/// The text that an `EditResult` carries, tagged by its kind.
pub open spec fn result_is(r: Option<EditResult>, kind: int, s: Seq<char>) -> bool {
    match r {
        Some(EditResult::DeletedChar(c)) => kind == 0 && s == seq![c],
        Some(EditResult::DeletedText(x)) => kind == 1 && s == x@,
        Some(EditResult::DeletedLine(x)) => kind == 2 && s == x@,
        Some(EditResult::YankedText(x)) => kind == 3 && s == x@,
        None => false,
    }
}

/// What `execute` does: edit `e` at cursor `c0` turns buffer `v0` into
/// `v1`, leaves the cursor at `c1` and returns `r`.
pub open spec fn edit_post(
    e: Edit,
    c0: Cursor,
    v0: BufferView,
    c1: Cursor,
    v1: BufferView,
    r: Option<EditResult>,
) -> bool {
    let c = c0;
    let v = v0;
    let t = v.text;
    let at = offset_of(c, t);
    let ls = line_start(t, c.line as nat) as int;
    let lc = line_chars(t, c.line as nat);
    match e {
        Edit::InsertChar(ch) => {
            &&& v1 == inserted(v, at, seq![ch])
            &&& c1.line == c.line
            &&& c1.column == min(
                c.column + 1,
                max_col(v1.text, c.line as int) as int,
            )
            &&& c1.preferred_column == Some(c1.column)
            &&& r is None
        },
        Edit::InsertNewline => {
            &&& v1 == inserted(v, at, seq!['\n'])
            &&& c1 == Cursor { line: (c.line + 1) as usize, column: 0, ..c }
            &&& r is None
        },
        Edit::DeleteChar => {
            &&& c1 == c
            &&& if at < t.len() && !v.read_only {
                v1 == removed(v, at, 1) && result_is(r, 0, seq![t[at]])
            } else {
                v1 == v && r is None
            }
        },
        Edit::DeleteLine => {
            &&& v1 == removed(v, ls, lc.len() as int)
            &&& c1.line == min(
                c.line as int,
                line_count(v1.text) - 1,
            )
            &&& c1.column == min(
                c.column as int,
                max_col(v1.text, c1.line as int) as int,
            )
            &&& c1.preferred_column == c.preferred_column
            &&& result_is(r, 2, lc)
        },
        Edit::Backspace => if c.column > 0 {
            &&& c1.line == c.line
            &&& c1.column == c.column - 1
            &&& c1.preferred_column == Some((c.column - 1) as usize)
            &&& if !v.read_only {
                v1 == removed(v, at - 1, 1) && result_is(
                    r,
                    0,
                    seq![t[at - 1]],
                )
            } else {
                v1 == v && r is None
            }
        } else if c.line > 0 {
            &&& v1 == removed(v, ls - 1, 1)
            &&& c1 == Cursor {
                line: (c.line - 1) as usize,
                column: line_text_at(t, c.line - 1).len() as usize,
                ..c
            }
            &&& r is None
        } else {
            &&& v1 == v
            &&& c1 == c
            &&& r is None
        },
        Edit::DeleteWord => {
            &&& c1 == c
            &&& if at < t.len() && word_delete_end(t, at) > at {
                v1 == removed(v, at, word_delete_end(t, at) - at)
                    && result_is(r, 1, t.subrange(at, word_delete_end(t, at)))
            } else {
                v1 == v && r is None
            }
        },
        Edit::ChangeLine => {
            &&& v1 == removed(v, ls, lc.len() as int)
            &&& c1 == Cursor { column: 0, ..c }
            &&& result_is(r, 2, lc)
        },
        Edit::YankLine => {
            &&& v1 == v
            &&& c1 == c
            &&& result_is(r, 3, lc)
        },
        Edit::Paste => {
            &&& v1 == v
            &&& c1 == c
            &&& r is None
        },
    }
}

impl Edit {
    /// Performs the edit at `cursor`. Returns what was deleted or yanked, if anything.
    pub fn execute(&self, cursor: &mut Cursor, buffer: &mut Buffer) -> (r: Option<EditResult>)
        requires
            on_text(*old(cursor), old(buffer)@.text),
            old(buffer)@.text.len() < usize::MAX,
        ensures
            edit_post(*self, *old(cursor), old(buffer)@, *final(cursor), final(buffer)@, r),
    {
        proof {
            lemma_line_shape(buffer@.text, cursor.line as nat);
            lemma_nl_count_bound(buffer@.text);
        }
        let n = buffer.len_chars();
        match self {
            Edit::InsertChar(ch) => {
                let idx = cursor.to_char_idx(buffer);
                buffer.insert_char(idx, *ch);
                cursor.move_right(buffer, 1);
                None
            },
            Edit::InsertNewline => {
                let idx = cursor.to_char_idx(buffer);
                buffer.insert(idx, "\n");
                proof {
                    reveal_strlit("\n");
                    assert("\n"@ =~= seq!['\n']);
                }
                cursor.line = cursor.line + 1;
                cursor.column = 0;
                None
            },
            Edit::DeleteChar => {
                let idx = cursor.to_char_idx(buffer);
                match buffer.remove_char(idx) {
                    Some(ch) => {
                        proof {
                            let t = old(buffer)@.text;
                            assert(t.remove(idx as int) =~= t.subrange(0, idx as int) + t.subrange(
                                idx + 1,
                                t.len() as int,
                            ));
                        }
                        Some(EditResult::DeletedChar(ch))
                    },
                    None => None,
                }
            },
            Edit::DeleteLine => {
                let line = buffer.line(cursor.line);
                let start = buffer.line_to_char(cursor.line);
                let len = buffer.line_len(cursor.line);
                buffer.remove(start, len);
                cursor.ensure_valid(buffer);
                match line {
                    Some(s) => Some(EditResult::DeletedLine(s)),
                    None => None,
                }
            },
            Edit::Backspace => {
                if cursor.column > 0 {
                    let idx = cursor.to_char_idx(buffer);
                    let deleted = buffer.remove_char(idx - 1);
                    proof {
                        let t = old(buffer)@.text;
                        assert(t.remove(idx - 1) =~= t.subrange(0, idx - 1) + t.subrange(
                            idx as int,
                            t.len() as int,
                        ));
                    }
                    cursor.move_left(buffer, 1);
                    match deleted {
                        Some(ch) => Some(EditResult::DeletedChar(ch)),
                        None => None,
                    }
                } else if cursor.line > 0 {
                    proof {
                        crate::text::lemma_line_start(buffer@.text, cursor.line as nat);
                    }
                    let prev_len = buffer.line_text_chars(cursor.line - 1).len();
                    let start = buffer.line_to_char(cursor.line);
                    buffer.remove(start - 1, 1);
                    cursor.line = cursor.line - 1;
                    cursor.column = prev_len;
                    None
                } else {
                    None
                }
            },
            Edit::DeleteWord => {
                let idx = cursor.to_char_idx(buffer);
                if idx >= n {
                    return None;
                }
                let text = buffer.chars();
                proof {
                    lemma_skip_fwd(text@, idx as int, CharClass::Word);
                }
                let a = skip_forward(&text, idx, CharClass::Word);
                proof {
                    lemma_skip_fwd(text@, a as int, CharClass::Punct);
                }
                let b = skip_forward(&text, a, CharClass::Punct);
                let e = skip_forward(&text, b, CharClass::InlineBlank);
                if e > idx {
                    let deleted = buffer.slice(idx..e);
                    buffer.remove(idx, e - idx);
                    Some(EditResult::DeletedText(deleted))
                } else {
                    None
                }
            },
            Edit::ChangeLine => {
                let line = buffer.line(cursor.line);
                let start = buffer.line_to_char(cursor.line);
                let len = buffer.line_len(cursor.line);
                buffer.remove(start, len);
                cursor.column = 0;
                match line {
                    Some(s) => Some(EditResult::DeletedLine(s)),
                    None => None,
                }
            },
            Edit::YankLine => match buffer.line(cursor.line) {
                Some(s) => Some(EditResult::YankedText(s)),
                None => None,
            },
            Edit::Paste => None,
        }
    }
}

} // verus!
