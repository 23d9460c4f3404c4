//! Text objects: ranges of text around the cursor ("inner word", "around word").
use vstd::prelude::*;
use crate::buffer::Buffer;
use crate::cursor::{Cursor, min};
use crate::text::{
    CharClass, chars_of, lemma_skip_bwd, lemma_skip_fwd, line_chars, line_count, line_start,
    lemma_line_shape, skip_backward, skip_bwd, skip_forward, skip_fwd,
};

verus! {

#[derive(Debug, Clone, Copy, PartialEq, Eq, Structural)]
pub enum TextObject {
    AroundWord,
    InnerWord,
    AroundSentence,
    InnerSentence,
    AroundParagraph,
    InnerParagraph,
}

/// The word run of line `s` at or after column `col` (clamped to the line), as
/// columns `[start, end)`; `around` adds one following space.
pub open spec fn word_range(s: Seq<char>, col: int, around: bool) -> Option<(int, int)> {
    if s.len() == 0 {
        None
    } else {
        let c = min(col, s.len() - 1);
        let st = skip_fwd(s, c, CharClass::NonWord);
        if st >= s.len() {
            None
        } else {
            let a = skip_bwd(s, st, CharClass::Word);
            let b = skip_fwd(s, st, CharClass::Word);
            let e = if around && b < s.len() && s[b] == ' ' {
                b + 1
            } else {
                b
            };
            Some((a, e))
        }
    }
}

/// The character range that `obj` covers for `c` in `t`.
pub open spec fn object_range(obj: TextObject, c: Cursor, t: Seq<char>) -> Option<(usize, usize)> {
    let around = obj == TextObject::AroundWord;
    if (obj == TextObject::AroundWord || obj == TextObject::InnerWord) && c.line < line_count(t) {
        match word_range(line_chars(t, c.line as nat), c.column as int, around) {
            Some((a, e)) => Some(
                (
                    (line_start(t, c.line as nat) + a) as usize,
                    (line_start(t, c.line as nat) + e) as usize,
                ),
            ),
            None => None,
        }
    } else {
        None
    }
}

fn find_word_range(s: &Vec<char>, col: usize, around: bool) -> (r: Option<(usize, usize)>)
    ensures
        match word_range(s@, col as int, around) {
            Some((a, e)) => r == Some((a as usize, e as usize)) && 0 <= a <= e <= s@.len(),
            None => r is None,
        },
{
    if s.len() == 0 {
        return None;
    }
    let c = if col < s.len() - 1 {
        col
    } else {
        s.len() - 1
    };
    let st = skip_forward(s, c, CharClass::NonWord);
    if st >= s.len() {
        return None;
    }
    proof {
        lemma_skip_bwd(s@, st as int, CharClass::Word);
        lemma_skip_fwd(s@, st as int, CharClass::Word);
    }
    let a = skip_backward(s, st, CharClass::Word);
    let b = skip_forward(s, st, CharClass::Word);
    let e = if around && b < s.len() && s[b] == ' ' {
        b + 1
    } else {
        b
    };
    Some((a, e))
}

impl TextObject {
    /// The half-open character range that this object covers at `cursor`, if any.
    pub fn get_range(&self, cursor: &Cursor, buffer: &Buffer) -> (r: Option<(usize, usize)>)
        ensures
            r == object_range(*self, *cursor, buffer@.text),
            r matches Some((a, e)) ==> a <= e <= buffer@.text.len(),
    {
        match self {
            TextObject::AroundWord | TextObject::InnerWord => {
                let around = match self {
                    TextObject::AroundWord => true,
                    _ => false,
                };
                match buffer.line(cursor.line) {
                    Some(line) => {
                        let s = chars_of(line.as_str());
                        let start = buffer.line_to_char(cursor.line);
                        let total = buffer.len_chars();
                        proof {
                            lemma_line_shape(buffer@.text, cursor.line as nat);
                        }
                        match find_word_range(&s, cursor.column, around) {
                            Some((a, e)) => Some((start + a, start + e)),
                            None => None,
                        }
                    },
                    None => None,
                }
            },
            _ => None,
        }
    }
}

/// The text object that a key names after `a` or `i`.
pub fn parse_text_object(ch: char) -> (r: Option<TextObject>)
    ensures
        r == match ch {
            'w' => Some(TextObject::AroundWord),
            'W' => Some(TextObject::InnerWord),
            's' => Some(TextObject::AroundSentence),
            'S' => Some(TextObject::InnerSentence),
            'p' => Some(TextObject::AroundParagraph),
            'P' => Some(TextObject::InnerParagraph),
            _ => None::<TextObject>,
        },
{
    match ch {
        'w' => Some(TextObject::AroundWord),
        'W' => Some(TextObject::InnerWord),
        's' => Some(TextObject::AroundSentence),
        'S' => Some(TextObject::InnerSentence),
        'p' => Some(TextObject::AroundParagraph),
        'P' => Some(TextObject::InnerParagraph),
        _ => None,
    }
}

} // verus!
