//! Text buffers: character- and line-addressable text held in a rope, with
//! the path it is saved to and its modified and read-only flags.
use vstd::prelude::*;
use crate::text::{
    chars_of, lemma_line_shape, line_chars, line_count, line_end, line_of, line_start, line_text,
    line_text_at, string_of,
};

verus! {

#[verifier::external_type_specification]
#[verifier::external_body]
pub struct ExRope(ropey::Rope);

/// The characters that a rope holds.
pub uninterp spec fn rope_text(r: ropey::Rope) -> Seq<char>;

/// Relies on `Rope::new`: an empty rope.
#[verifier::external_body]
fn rope_new() -> (r: ropey::Rope)
    ensures
        rope_text(r) == Seq::<char>::empty(),
{
    ropey::Rope::new()
}

/// Relies on `Rope::from_str`: a rope holding the characters of `s`.
#[verifier::external_body]
fn rope_from_str(s: &str) -> (r: ropey::Rope)
    ensures
        rope_text(r) == s@,
{
    ropey::Rope::from_str(s)
}

/// Relies on `Rope::len_chars`: the number of characters.
#[verifier::external_body]
fn rope_len_chars(r: &ropey::Rope) -> (n: usize)
    ensures
        n == rope_text(*r).len(),
{
    r.len_chars()
}

/// Relies on `Rope::len_lines`: one more than the number of line breaks.
/// Built without ropey's `cr_lines` and `unicode_lines` features, only `'\n'`
/// breaks a line.
#[verifier::external_body]
fn rope_len_lines(r: &ropey::Rope) -> (n: usize)
    ensures
        n == line_count(rope_text(*r)),
{
    r.len_lines()
}

/// Relies on `Rope::insert`: `s` is inserted before character `at`; it
/// panics for `at > len_chars()`.
#[verifier::external_body]
fn rope_insert(r: &mut ropey::Rope, at: usize, s: &str)
    requires
        at <= rope_text(*old(r)).len(),
    ensures
        rope_text(*final(r)) == rope_text(*old(r)).subrange(0, at as int) + s@ + rope_text(
            *old(r),
        ).subrange(at as int, rope_text(*old(r)).len() as int),
{
    r.insert(at, s)
}

/// Relies on `Rope::remove`: characters `start..end` are removed; it panics
/// unless `start <= end <= len_chars()`.
#[verifier::external_body]
fn rope_remove(r: &mut ropey::Rope, start: usize, end: usize)
    requires
        start <= end <= rope_text(*old(r)).len(),
    ensures
        rope_text(*final(r)) == rope_text(*old(r)).subrange(0, start as int) + rope_text(
            *old(r),
        ).subrange(end as int, rope_text(*old(r)).len() as int),
{
    r.remove(start..end)
}

/// Relies on `Rope::char`: the character at `i`; it panics for `i >= len_chars()`.
#[verifier::external_body]
fn rope_char(r: &ropey::Rope, i: usize) -> (c: char)
    requires
        i < rope_text(*r).len(),
    ensures
        c == rope_text(*r)[i as int],
{
    r.char(i)
}

/// Relies on `Rope::line_to_char`: where line `l` starts, the end of the text
/// for `l == len_lines()`; it panics for `l > len_lines()`. Lines end at `'\n'`
/// only, ropey being built without `cr_lines` and `unicode_lines`.
#[verifier::external_body]
fn rope_line_to_char(r: &ropey::Rope, l: usize) -> (k: usize)
    requires
        l <= line_count(rope_text(*r)),
    ensures
        k == line_start(rope_text(*r), l as nat),
{
    r.line_to_char(l)
}

/// Relies on `Rope::char_to_line`: the number of line breaks (`'\n'` only, as
/// above) before character `k`; it panics for `k > len_chars()`.
#[verifier::external_body]
fn rope_char_to_line(r: &ropey::Rope, k: usize) -> (l: usize)
    requires
        k <= rope_text(*r).len(),
    ensures
        l == line_of(rope_text(*r), k as int),
{
    r.char_to_line(k)
}

/// Relies on `Rope::slice` and its `Display`: characters `start..end` as a
/// string; it panics unless `start <= end <= len_chars()`.
#[verifier::external_body]
fn rope_slice(r: &ropey::Rope, start: usize, end: usize) -> (s: String)
    requires
        start <= end <= rope_text(*r).len(),
    ensures
        s@ == rope_text(*r).subrange(start as int, end as int),
{
    r.slice(start..end).to_string()
}

/// Identifies an open buffer.
#[derive(Debug, Clone, Copy, PartialEq, Eq, Hash)]
pub struct BufferId(pub usize);

impl BufferId {
    pub fn new(id: usize) -> (r: BufferId)
        ensures
            r.0 == id,
    {
        BufferId(id)
    }

    pub fn as_usize(&self) -> (r: usize)
        ensures
            r == self.0,
    {
        self.0
    }
}

/// What a buffer holds, as mathematical values.
pub ghost struct BufferView {
    pub id: nat,
    pub text: Seq<char>,
    pub path: Option<Seq<char>>,
    pub modified: bool,
    pub read_only: bool,
}

/// The characters written when `text` is saved: a line break is added unless
/// the text is empty or already ends with one.
pub open spec fn saved_text(text: Seq<char>) -> Seq<char> {
    trim_nl(text).push('\n')
}

/// `text` without its trailing line breaks.
pub open spec fn trim_nl(text: Seq<char>) -> Seq<char>
    decreases text.len(),
{
    if text.len() > 0 && text.last() == '\n' {
        trim_nl(text.drop_last())
    } else {
        text
    }
}

/// Trimming leaves no line break at the end.
pub proof fn lemma_trim_nl(text: Seq<char>)
    ensures
        trim_nl(text).len() == 0 || trim_nl(text).last() != '\n',
    decreases text.len(),
{
    if text.len() > 0 && text.last() == '\n' {
        lemma_trim_nl(text.drop_last());
    }
}

pub open spec fn opt_view(p: Option<String>) -> Option<Seq<char>> {
    match p {
        Some(s) => Some(s@),
        None => None,
    }
}

#[derive(Debug)]
pub struct Buffer {
    id: BufferId,
    rope: ropey::Rope,
    file_path: Option<String>,
    modified: bool,
    read_only: bool,
}

impl View for Buffer {
    type V = BufferView;

    closed spec fn view(&self) -> BufferView {
        BufferView {
            id: self.id.0 as nat,
            text: rope_text(self.rope),
            path: opt_view(self.file_path),
            modified: self.modified,
            read_only: self.read_only,
        }
    }
}

impl Buffer {
    /// An empty, unmodified buffer with no file.
    pub fn new(id: BufferId) -> (r: Buffer)
        ensures
            r@ == (BufferView {
                id: id.0 as nat,
                text: Seq::empty(),
                path: None,
                modified: false,
                read_only: false,
            }),
    {
        Buffer { id, rope: rope_new(), file_path: None, modified: false, read_only: false }
    }

    /// An empty, unmodified buffer that will be saved to `path`.
    pub fn new_with_path(id: BufferId, path: &str) -> (r: Buffer)
        ensures
            r@ == (BufferView {
                id: id.0 as nat,
                text: Seq::empty(),
                path: Some(path@),
                modified: false,
                read_only: false,
            }),
    {
        Buffer {
            id,
            rope: rope_new(),
            file_path: Some(path.to_owned()),
            modified: false,
            read_only: false,
        }
    }

    /// An unmodified buffer holding `content`, as read from the file at `path`.
    pub fn from_content(id: BufferId, path: &str, content: &str) -> (r: Buffer)
        ensures
            r@ == (BufferView {
                id: id.0 as nat,
                text: content@,
                path: Some(path@),
                modified: false,
                read_only: false,
            }),
    {
        Buffer {
            id,
            rope: rope_from_str(content),
            file_path: Some(path.to_owned()),
            modified: false,
            read_only: false,
        }
    }

    pub fn id(&self) -> (r: BufferId)
        ensures
            r.0 == self@.id,
    {
        self.id
    }

    pub fn file_path(&self) -> (r: Option<String>)
        ensures
            opt_view(r) == self@.path,
    {
        match &self.file_path {
            Some(p) => Some(p.clone()),
            None => None,
        }
    }

    pub fn set_file_path(&mut self, path: String)
        ensures
            final(self)@ == (BufferView { path: Some(path@), ..old(self)@ }),
    {
        self.file_path = Some(path);
    }

    pub fn is_modified(&self) -> (r: bool)
        ensures
            r == self@.modified,
    {
        self.modified
    }

    pub fn is_read_only(&self) -> (r: bool)
        ensures
            r == self@.read_only,
    {
        self.read_only
    }

    pub fn set_read_only(&mut self, read_only: bool)
        ensures
            final(self)@ == (BufferView { read_only, ..old(self)@ }),
    {
        self.read_only = read_only;
    }

    pub fn len_lines(&self) -> (r: usize)
        ensures
            r == line_count(self@.text),
    {
        rope_len_lines(&self.rope)
    }

    pub fn len_chars(&self) -> (r: usize)
        ensures
            r == self@.text.len(),
    {
        rope_len_chars(&self.rope)
    }

    pub fn is_empty(&self) -> (r: bool)
        ensures
            r == (self@.text.len() == 0),
    {
        rope_len_chars(&self.rope) == 0
    }

    /// Characters `start..end` of the text.
    pub fn slice(&self, range: std::ops::Range<usize>) -> (r: String)
        requires
            range.start <= range.end <= self@.text.len(),
        ensures
            r@ == self@.text.subrange(range.start as int, range.end as int),
    {
        rope_slice(&self.rope, range.start, range.end)
    }

    /// The whole text.
    pub fn to_string(&self) -> (r: String)
        ensures
            r@ == self@.text,
    {
        let n = rope_len_chars(&self.rope);
        let r = rope_slice(&self.rope, 0, n);
        assert(self@.text.subrange(0, n as int) =~= self@.text);
        r
    }

    /// The whole text as characters.
    pub fn chars(&self) -> (r: Vec<char>)
        ensures
            r@ == self@.text,
    {
        let s = self.to_string();
        chars_of(s.as_str())
    }

    pub fn line_to_char(&self, line_idx: usize) -> (r: usize)
        requires
            line_idx <= line_count(self@.text),
        ensures
            r == line_start(self@.text, line_idx as nat),
    {
        rope_line_to_char(&self.rope, line_idx)
    }

    pub fn char_to_line(&self, char_idx: usize) -> (r: usize)
        requires
            char_idx <= self@.text.len(),
        ensures
            r == line_of(self@.text, char_idx as int),
    {
        rope_char_to_line(&self.rope, char_idx)
    }

    fn line_bounds(&self, line_idx: usize) -> (r: (usize, usize))
        requires
            line_idx < line_count(self@.text),
        ensures
            r.0 == line_start(self@.text, line_idx as nat),
            r.1 == line_end(self@.text, line_idx as nat),
            r.0 <= r.1 <= self@.text.len(),
    {
        proof {
            lemma_line_shape(self@.text, line_idx as nat);
        }
        let start = rope_line_to_char(&self.rope, line_idx);
        let n_lines = rope_len_lines(&self.rope);
        let end = if line_idx + 1 < n_lines {
            rope_line_to_char(&self.rope, line_idx + 1)
        } else {
            rope_len_chars(&self.rope)
        };
        (start, end)
    }

    /// Line `line_idx` with its line break, if there is such a line.
    pub fn line(&self, line_idx: usize) -> (r: Option<String>)
        ensures
            line_idx < line_count(self@.text) ==> (r matches Some(s) && s@ == line_chars(
                self@.text,
                line_idx as nat,
            )),
            line_idx >= line_count(self@.text) ==> r is None,
    {
        if line_idx < rope_len_lines(&self.rope) {
            let (start, end) = self.line_bounds(line_idx);
            Some(rope_slice(&self.rope, start, end))
        } else {
            None
        }
    }

    /// Line `line_idx` without its line break, as characters; empty past the last line.
    pub fn line_text_chars(&self, line_idx: usize) -> (r: Vec<char>)
        ensures
            r@ == line_text_at(self@.text, line_idx as int),
    {
        match self.line(line_idx) {
            Some(s) => {
                let mut v = chars_of(s.as_str());
                if v.len() > 0 && v[v.len() - 1] == '\n' {
                    v.pop();
                }
                proof {
                    assert(v@ =~= line_text(self@.text, line_idx as nat));
                }
                v
            },
            None => {
                let v = Vec::new();
                proof {
                    assert(v@ =~= line_text_at(self@.text, line_idx as int));
                }
                v
            },
        }
    }

    /// Length of line `line_idx` with its line break; 0 past the last line.
    pub fn line_len(&self, line_idx: usize) -> (r: usize)
        ensures
            line_idx < line_count(self@.text) ==> r == line_chars(self@.text, line_idx as nat).len(),
            line_idx >= line_count(self@.text) ==> r == 0,
    {
        if line_idx < rope_len_lines(&self.rope) {
            let (start, end) = self.line_bounds(line_idx);
            end - start
        } else {
            0
        }
    }

    /// Inserts `text` before character `char_idx`, or at the end when
    /// `char_idx` is past it. Does nothing to a read-only buffer.
    pub fn insert(&mut self, char_idx: usize, text: &str)
        ensures
            final(self)@ == inserted(old(self)@, char_idx as int, text@),
    {
        if self.read_only {
            return ;
        }
        let n = rope_len_chars(&self.rope);
        let at = if char_idx < n {
            char_idx
        } else {
            n
        };
        rope_insert(&mut self.rope, at, text);
        self.modified = true;
    }

    /// Inserts `ch` before character `char_idx`, or at the end when
    /// `char_idx` is past it. Does nothing to a read-only buffer.
    pub fn insert_char(&mut self, char_idx: usize, ch: char)
        ensures
            final(self)@ == inserted(old(self)@, char_idx as int, seq![ch]),
    {
        let v = vec![ch];
        let s = string_of(v.as_slice());
        proof {
            assert(s@ =~= seq![ch]);
        }
        self.insert(char_idx, s.as_str());
    }

    /// Removes up to `len` characters from `char_idx`, stopping at the end of
    /// the text. Does nothing to a read-only buffer.
    pub fn remove(&mut self, char_idx: usize, len: usize)
        ensures
            final(self)@ == removed(old(self)@, char_idx as int, len as int),
    {
        if self.read_only {
            return ;
        }
        let n = rope_len_chars(&self.rope);
        let start = if char_idx < n {
            char_idx
        } else {
            n
        };
        let end = if len <= n - start {
            start + len
        } else {
            n
        };
        rope_remove(&mut self.rope, start, end);
        self.modified = true;
    }

    /// Removes and returns the character at `char_idx`; `None` past the end
    /// of the text or in a read-only buffer, which are then unchanged.
    pub fn remove_char(&mut self, char_idx: usize) -> (r: Option<char>)
        ensures
            (old(self)@.read_only || char_idx >= old(self)@.text.len()) ==> r is None
                && final(self)@ == old(self)@,
            !(old(self)@.read_only || char_idx >= old(self)@.text.len()) ==> r == Some(
                old(self)@.text[char_idx as int],
            ) && final(self)@ == (BufferView {
                text: old(self)@.text.remove(char_idx as int),
                modified: true,
                ..old(self)@
            }),
    {
        if self.read_only || char_idx >= rope_len_chars(&self.rope) {
            return None;
        }
        let ch = rope_char(&self.rope, char_idx);
        rope_remove(&mut self.rope, char_idx, char_idx + 1);
        self.modified = true;
        proof {
            let t = old(self)@.text;
            assert(t.subrange(0, char_idx as int) + t.subrange(char_idx + 1, t.len() as int)
                =~= t.remove(char_idx as int));
        }
        Some(ch)
    }

    pub fn char(&self, char_idx: usize) -> (r: char)
        requires
            char_idx < self@.text.len(),
        ensures
            r == self@.text[char_idx as int],
    {
        rope_char(&self.rope, char_idx)
    }

    /// The characters to write when saving.
    pub fn save_contents(&self) -> (r: String)
        ensures
            r@ == saved_text(self@.text),
    {
        let n = rope_len_chars(&self.rope);
        let mut e = n;
        proof {
            assert(self@.text.subrange(0, n as int) =~= self@.text);
        }
        while e > 0 && rope_char(&self.rope, e - 1) == '\n'
            invariant
                e <= n,
                n == self@.text.len(),
                trim_nl(self@.text.subrange(0, e as int)) == trim_nl(self@.text),
            decreases e,
        {
            proof {
                assert(self@.text.subrange(0, e as int).drop_last() =~= self@.text.subrange(0, e - 1));
            }
            e = e - 1;
        }
        let mut s = rope_slice(&self.rope, 0, e);
        s.append("\n");
        proof {
            reveal_strlit("\n");
            let pre = self@.text.subrange(0, e as int);
            if e > 0 {
                assert(pre.last() != '\n');
            }
            assert(trim_nl(pre) == pre);
            assert(s@ =~= saved_text(self@.text));
        }
        s
    }

    /// Where and what to write when saving: the buffer's path and its saved
    /// text; `None` when the buffer has no path.
    pub fn save_request(&self) -> (r: Option<(String, String)>)
        ensures
            match self@.path {
                Some(p) => r matches Some((q, c)) && q@ == p && c@ == saved_text(self@.text),
                None => r is None,
            },
    {
        match &self.file_path {
            Some(p) => Some((p.clone(), self.save_contents())),
            None => None,
        }
    }

    /// Records that the text has been written to its file.
    pub fn mark_saved(&mut self)
        ensures
            final(self)@ == (BufferView { modified: false, ..old(self)@ }),
    {
        self.modified = false;
    }

    /// Replaces the whole text. Does nothing to a read-only buffer.
    pub fn set_text(&mut self, content: &str)
        ensures
            old(self)@.read_only ==> final(self)@ == old(self)@,
            !old(self)@.read_only ==> final(self)@ == (BufferView {
                text: content@,
                modified: true,
                ..old(self)@
            }),
    {
        if self.read_only {
            return ;
        }
        let n = self.len_chars();
        self.remove(0, n);
        self.insert(0, content);
        proof {
            assert(self@.text =~= content@);
        }
    }

    /// Replaces the whole text, keeping id and path; the buffer counts as
    /// neither modified nor read-only afterwards.
    pub fn reset_text(&mut self, content: &str)
        ensures
            final(self)@ == (BufferView {
                text: content@,
                modified: false,
                read_only: false,
                ..old(self)@
            }),
    {
        self.rope = rope_from_str(content);
        self.modified = false;
        self.read_only = false;
    }
}

/// `k` limited to `0..=n`.
pub open spec fn clamp(k: int, n: int) -> int {
    if k < 0 {
        0
    } else if k < n {
        k
    } else {
        n
    }
}

/// The buffer after inserting `s` at offset `at` (clamped to the text);
/// a read-only buffer is unchanged.
pub open spec fn inserted(v: BufferView, at: int, s: Seq<char>) -> BufferView {
    if v.read_only {
        v
    } else {
        let k = clamp(at, v.text.len() as int);
        BufferView {
            text: v.text.subrange(0, k) + s + v.text.subrange(k, v.text.len() as int),
            modified: true,
            ..v
        }
    }
}

/// The buffer after removing up to `len` characters from offset `at`
/// (both clamped to the text); a read-only buffer is unchanged.
pub open spec fn removed(v: BufferView, at: int, len: int) -> BufferView {
    if v.read_only {
        v
    } else {
        let a = clamp(at, v.text.len() as int);
        let b = clamp(at + len, v.text.len() as int);
        BufferView {
            text: v.text.subrange(0, a) + v.text.subrange(b, v.text.len() as int),
            modified: true,
            ..v
        }
    }
}

/// What is saved and loaded back is exactly the saved text, and it ends in
/// exactly one line break, whatever the text ended in.
pub proof fn lemma_save_load(b: BufferView, id: BufferId, path: Seq<char>, loaded: BufferView)
    requires
        loaded == (BufferView {
            id: id.0 as nat,
            text: saved_text(b.text),
            path: Some(path),
            modified: false,
            read_only: false,
        }),
    ensures
        loaded.text == saved_text(b.text),
        loaded.text.len() >= 1,
        loaded.text.last() == '\n',
        loaded.text.len() == 1 || loaded.text[loaded.text.len() - 2] != '\n',
{
    lemma_trim_nl(b.text);
    let t = trim_nl(b.text);
    if t.len() > 0 {
        assert(saved_text(b.text)[saved_text(b.text).len() - 2] == t.last());
    }
}

} // verus!
