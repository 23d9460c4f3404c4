//! Substitution: literal find-and-replace over some or all lines of a buffer,
//! and parsing of `:s/pat/rep/g` commands.
use vstd::prelude::*;
use crate::buffer::{Buffer, BufferView};
use crate::search::is_match;
use crate::text::{chars_of, extend_chars, lines_of, split_lines, string_of};

verus! {

#[derive(Debug, Clone)]
pub struct ReplaceResult {
    pub count: usize,
    pub new_text: String,
}

/// `c + n`, or `usize::MAX` if that does not fit.
pub open spec fn sat(c: usize, n: nat) -> usize {
    if c + n <= usize::MAX {
        (c + n) as usize
    } else {
        usize::MAX
    }
}

/// Every occurrence of a non-empty `p` in `s` replaced by `r`, scanning left
/// to right without overlap, and how many there were.
pub open spec fn replace_all(s: Seq<char>, p: Seq<char>, r: Seq<char>) -> (Seq<char>, nat)
    decreases s.len(),
{
    if p.len() == 0 || s.len() < p.len() {
        (s, 0)
    } else if s.subrange(0, p.len() as int) == p {
        let rest = replace_all(s.subrange(p.len() as int, s.len() as int), p, r);
        (r + rest.0, rest.1 + 1)
    } else {
        let rest = replace_all(s.subrange(1, s.len() as int), p, r);
        (seq![s[0]] + rest.0, rest.1)
    }
}

/// The first offset from `i` on at which `p` occurs in `s`.
pub open spec fn first_match(s: Seq<char>, p: Seq<char>, i: int) -> Option<int>
    decreases s.len() - i,
{
    if i < 0 || i >= s.len() {
        None
    } else if is_match(s, p, i) {
        Some(i)
    } else {
        first_match(s, p, i + 1)
    }
}

/// The first occurrence of a non-empty `p` in `s` replaced by `r`.
pub open spec fn replace_first(s: Seq<char>, p: Seq<char>, r: Seq<char>) -> (Seq<char>, nat) {
    match first_match(s, p, 0) {
        Some(i) => (s.subrange(0, i) + r + s.subrange(i + p.len(), s.len() as int), 1),
        None => (s, 0),
    }
}

/// The lines after substitution, with the running count of replacements;
/// lines with index in `[lo, hi)` are rewritten.
pub open spec fn substitute(
    ls: Seq<Seq<char>>,
    p: Seq<char>,
    r: Seq<char>,
    global: bool,
    lo: int,
    hi: int,
) -> (Seq<Seq<char>>, usize)
    decreases ls.len(),
{
    if ls.len() == 0 {
        (Seq::empty(), 0)
    } else {
        let prev = substitute(ls.drop_last(), p, r, global, lo, hi);
        let i = ls.len() - 1;
        if lo <= i < hi {
            let one = if global {
                replace_all(ls.last(), p, r)
            } else {
                replace_first(ls.last(), p, r)
            };
            (prev.0.push(one.0), sat(prev.1, one.1))
        } else {
            (prev.0.push(ls.last()), prev.1)
        }
    }
}

/// Each line followed by a line break.
pub open spec fn terminated(ls: Seq<Seq<char>>) -> Seq<char>
    decreases ls.len(),
{
    if ls.len() == 0 {
        Seq::empty()
    } else {
        terminated(ls.drop_last()) + ls.last().push('\n')
    }
}

/// The lines joined by line breaks, with a final one.
pub open spec fn joined(ls: Seq<Seq<char>>) -> Seq<char> {
    if ls.len() == 0 {
        seq!['\n']
    } else {
        terminated(ls)
    }
}

/// The text and count that substitution gives on `t`.
pub open spec fn substitution(
    t: Seq<char>,
    p: Seq<char>,
    r: Seq<char>,
    global: bool,
    range: Option<(usize, usize)>,
) -> (Seq<char>, usize) {
    if p.len() == 0 {
        (t, 0)
    } else {
        let (lo, hi) = match range {
            Some((a, b)) => (a as int, b as int),
            None => (0, lines_of(t).len() as int),
        };
        let res = substitute(lines_of(t), p, r, global, lo, hi);
        (joined(res.0), res.1)
    }
}

fn prefix_is(s: &Vec<char>, i: usize, p: &Vec<char>) -> (r: bool)
    requires
        i <= s@.len(),
    ensures
        r == (i + p@.len() <= s@.len() && s@.subrange(i as int, i + p@.len()) == p@),
{
    if p.len() > s.len() - i {
        return false;
    }
    let mut k: usize = 0;
    while k < p.len()
        invariant
            i + p@.len() <= s@.len(),
            s@.len() <= usize::MAX,
            k <= p@.len(),
            forall|j: int| 0 <= j < k ==> s@[i + j] == p@[j],
        decreases p@.len() - k,
    {
        if s[i + k] != p[k] {
            proof {
                assert(s@.subrange(i as int, i + p@.len())[k as int] != p@[k as int]);
            }
            return false;
        }
        k = k + 1;
    }
    proof {
        assert(s@.subrange(i as int, i + p@.len()) =~= p@);
    }
    true
}

fn replace_all_in(s: &Vec<char>, p: &Vec<char>, r: &Vec<char>) -> (res: (Vec<char>, usize))
    requires
        p@.len() > 0,
    ensures
        res.0@ == replace_all(s@, p@, r@).0,
        res.1 == replace_all(s@, p@, r@).1,
{
    let mut out: Vec<char> = Vec::new();
    let mut n: usize = 0;
    let mut i: usize = 0;
    proof {
        assert(s@.subrange(0, s@.len() as int) =~= s@);
    }
    while i < s.len()
        invariant
            i <= s@.len(),
            p@.len() > 0,
            n <= i,
            out@ + replace_all(s@.subrange(i as int, s@.len() as int), p@, r@).0 == replace_all(
                s@,
                p@,
                r@,
            ).0,
            n + replace_all(s@.subrange(i as int, s@.len() as int), p@, r@).1 == replace_all(
                s@,
                p@,
                r@,
            ).1,
        decreases s@.len() - i,
    {
        let ghost rest = s@.subrange(i as int, s@.len() as int);
        if prefix_is(s, i, p) {
            proof {
                assert(rest.subrange(0, p@.len() as int) =~= s@.subrange(i as int, i + p@.len()));
                assert(rest.subrange(p@.len() as int, rest.len() as int) =~= s@.subrange(
                    i + p@.len(),
                    s@.len() as int,
                ));
            }
            extend_chars(&mut out, r);
            n = n + 1;
            i = i + p.len();
        } else {
            proof {
                if rest.len() >= p@.len() {
                    assert(rest.subrange(0, p@.len() as int) =~= s@.subrange(i as int, i + p@.len()));
                }
                assert(rest.subrange(1, rest.len() as int) =~= s@.subrange(i + 1, s@.len() as int));
            }
            out.push(s[i]);
            i = i + 1;
        }
    }
    proof {
        assert(s@.subrange(i as int, s@.len() as int) =~= Seq::<char>::empty());
        assert(out@ + Seq::<char>::empty() =~= out@);
    }
    (out, n)
}

fn replace_first_in(s: &Vec<char>, p: &Vec<char>, r: &Vec<char>) -> (res: (Vec<char>, usize))
    requires
        p@.len() > 0,
    ensures
        res.0@ == replace_first(s@, p@, r@).0,
        res.1 == replace_first(s@, p@, r@).1,
{
    let mut i: usize = 0;
    while i < s.len()
        invariant
            i <= s@.len(),
            first_match(s@, p@, 0) == first_match(s@, p@, i as int),
        decreases s@.len() - i,
    {
        if prefix_is(s, i, p) {
            let mut out: Vec<char> = Vec::new();
            let mut k: usize = 0;
            while k < i
                invariant
                    k <= i <= s@.len(),
                    out@ == s@.subrange(0, k as int),
                decreases i - k,
            {
                out.push(s[k]);
                proof {
                    assert(s@.subrange(0, k + 1) =~= s@.subrange(0, k as int).push(s@[k as int]));
                }
                k = k + 1;
            }
            extend_chars(&mut out, r);
            let mut j: usize = i + p.len();
            let ghost mid = out@;
            while j < s.len()
                invariant
                    i + p@.len() <= j <= s@.len(),
                    out@ == mid + s@.subrange(i + p@.len(), j as int),
                decreases s@.len() - j,
            {
                out.push(s[j]);
                proof {
                    assert(s@.subrange(i + p@.len(), j + 1) =~= s@.subrange(i + p@.len(), j as int).push(
                        s@[j as int],
                    ));
                }
                j = j + 1;
            }
            return (out, 1);
        }
        i = i + 1;
    }
    (s.clone(), 0)
}

/// Replaces `pattern` by `replacement` in the lines with index in
/// `line_range` (in every line when it is `None`), only the first occurrence
/// of each line unless `global`, and rebuilds the text from the lines, each
/// followed by a line break. An empty pattern changes nothing.
pub fn replace_in_buffer(
    buffer: &mut Buffer,
    pattern: &str,
    replacement: &str,
    global: bool,
    line_range: Option<(usize, usize)>,
) -> (res: ReplaceResult)
    ensures
        res.new_text@ == substitution(old(buffer)@.text, pattern@, replacement@, global, line_range).0,
        res.count == substitution(old(buffer)@.text, pattern@, replacement@, global, line_range).1,
        pattern@.len() == 0 ==> final(buffer)@ == old(buffer)@,
        pattern@.len() > 0 && !old(buffer)@.read_only ==> final(buffer)@ == (BufferView {
            text: res.new_text@,
            modified: true,
            ..old(buffer)@
        }),
        old(buffer)@.read_only ==> final(buffer)@ == old(buffer)@,
{
    if pattern.is_empty() {
        return ReplaceResult { count: 0, new_text: buffer.to_string() };
    }
    let p = chars_of(pattern);
    let r = chars_of(replacement);
    let text = buffer.chars();
    let lines = split_lines(&text);
    let ghost ls = lines_of(text@);
    let (lo, hi) = match line_range {
        Some((a, b)) => (a, b),
        None => (0, lines.len()),
    };
    let mut out: Vec<char> = Vec::new();
    let mut count: usize = 0;
    let mut i: usize = 0;
    proof {
        assert(ls.subrange(0, 0) =~= Seq::<Seq<char>>::empty());
    }
    while i < lines.len()
        invariant
            i <= lines@.len(),
            lines@.len() == ls.len(),
            forall|j: int| 0 <= j < lines@.len() ==> #[trigger] lines@[j]@ == ls[j],
            p@ == pattern@,
            p@.len() > 0,
            r@ == replacement@,
            out@ == terminated(substitute(ls.subrange(0, i as int), p@, r@, global, lo as int, hi as int).0),
            count == substitute(ls.subrange(0, i as int), p@, r@, global, lo as int, hi as int).1,
            substitute(ls.subrange(0, i as int), p@, r@, global, lo as int, hi as int).0.len() == i,
        decreases lines@.len() - i,
    {
        let line = chars_of(lines[i].as_str());
        proof {
            assert(ls.subrange(0, i + 1).drop_last() =~= ls.subrange(0, i as int));
            assert(ls.subrange(0, i + 1).last() == ls[i as int]);
        }
        let ghost prev = substitute(ls.subrange(0, i as int), p@, r@, global, lo as int, hi as int);
        if lo <= i && i < hi {
            let (nl, n) = if global {
                replace_all_in(&line, &p, &r)
            } else {
                replace_first_in(&line, &p, &r)
            };
            extend_chars(&mut out, &nl);
            out.push('\n');
            count = if n <= usize::MAX - count {
                count + n
            } else {
                usize::MAX
            };
            proof {
                assert(prev.0.push(nl@).drop_last() =~= prev.0);
                assert(out@ =~= terminated(prev.0.push(nl@)));
            }
        } else {
            extend_chars(&mut out, &line);
            out.push('\n');
            proof {
                assert(prev.0.push(line@).drop_last() =~= prev.0);
                assert(out@ =~= terminated(prev.0.push(line@)));
            }
        }
        i = i + 1;
    }
    proof {
        assert(ls.subrange(0, ls.len() as int) =~= ls);
    }
    if lines.len() == 0 {
        out.push('\n');
        proof {
            assert(out@ =~= seq!['\n']);
        }
    }
    let new_text = string_of(out.as_slice());
    buffer.set_text(new_text.as_str());
    ReplaceResult { count, new_text }
}

/// Index of the first `c` in `s` from `i` on.
pub open spec fn find_char(s: Seq<char>, c: char, i: int) -> Option<int>
    decreases s.len() - i,
{
    if i < 0 || i >= s.len() {
        None
    } else if s[i] == c {
        Some(i)
    } else {
        find_char(s, c, i + 1)
    }
}

/// What `[:]s/pat/rep[/g]` and `[:]%s/pat/rep[/g]` give: pattern,
/// replacement, whether `g` was given, and whether the whole file is meant.
pub open spec fn parse_sub(s: Seq<char>) -> Option<(Seq<char>, Seq<char>, bool, bool)> {
    let c = if s.len() > 0 && s[0] == ':' {
        s.subrange(1, s.len() as int)
    } else {
        s
    };
    let full = c.len() >= 3 && c.subrange(0, 3) == seq!['%', 's', '/'];
    let plain = c.len() >= 2 && c.subrange(0, 2) == seq!['s', '/'];
    if !full && !plain {
        None
    } else {
        let body = c.subrange(if full { 3 } else { 2 }, c.len() as int);
        let g = body.len() >= 2 && body.subrange(body.len() - 2, body.len() as int) == seq!['/', 'g'];
        let b = if g {
            body.subrange(0, body.len() - 2)
        } else {
            body
        };
        match find_char(b, '/', 0) {
            Some(k) => Some((b.subrange(0, k), b.subrange(k + 1, b.len() as int), g, full)),
            None => None,
        }
    }
}

fn slice_of(v: &Vec<char>, a: usize, b: usize) -> (r: Vec<char>)
    requires
        a <= b <= v@.len(),
    ensures
        r@ == v@.subrange(a as int, b as int),
{
    let mut out: Vec<char> = Vec::new();
    let mut i: usize = a;
    while i < b
        invariant
            a <= i <= b <= v@.len(),
            out@ == v@.subrange(a as int, i as int),
        decreases b - i,
    {
        out.push(v[i]);
        proof {
            assert(v@.subrange(a as int, i + 1) =~= v@.subrange(a as int, i as int).push(v@[i as int]));
        }
        i = i + 1;
    }
    out
}

/// Parses a substitute command into pattern, replacement, the `g` flag and
/// whether it covers the whole file.
pub fn parse_substitute_command(command: &str) -> (r: Option<(String, String, bool, bool)>)
    ensures
        match parse_sub(command@) {
            Some((p, rep, g, full)) => r matches Some((p2, rep2, g2, full2)) && p2@ == p && rep2@
                == rep && g2 == g && full2 == full,
            None => r is None,
        },
{
    let s = chars_of(command);
    let start: usize = if s.len() > 0 && s[0] == ':' {
        1
    } else {
        0
    };
    let c = slice_of(&s, start, s.len());
    proof {
        assert(c@ =~= (if s@.len() > 0 && s@[0] == ':' {
            s@.subrange(1, s@.len() as int)
        } else {
            s@
        }));
    }
    let full = c.len() >= 3 && c[0] == '%' && c[1] == 's' && c[2] == '/';
    let plain = c.len() >= 2 && c[0] == 's' && c[1] == '/';
    proof {
        if c@.len() >= 3 {
            assert((c@.subrange(0, 3) == seq!['%', 's', '/']) == (c@[0] == '%' && c@[1] == 's'
                && c@[2] == '/')) by {
                if c@[0] == '%' && c@[1] == 's' && c@[2] == '/' {
                    assert(c@.subrange(0, 3) =~= seq!['%', 's', '/']);
                }
            }
        }
        if c@.len() >= 2 {
            assert((c@.subrange(0, 2) == seq!['s', '/']) == (c@[0] == 's' && c@[1] == '/')) by {
                if c@[0] == 's' && c@[1] == '/' {
                    assert(c@.subrange(0, 2) =~= seq!['s', '/']);
                }
            }
        }
    }
    if !full && !plain {
        return None;
    }
    let body = slice_of(&c, if full { 3 } else { 2 }, c.len());
    let n = body.len();
    let g = n >= 2 && body[n - 2] == '/' && body[n - 1] == 'g';
    proof {
        if n >= 2 {
            assert((body@.subrange(n - 2, n as int) == seq!['/', 'g']) == (body@[n - 2] == '/'
                && body@[n - 1] == 'g')) by {
                if body@[n - 2] == '/' && body@[n - 1] == 'g' {
                    assert(body@.subrange(n - 2, n as int) =~= seq!['/', 'g']);
                }
            }
        }
    }
    let b = if g {
        slice_of(&body, 0, n - 2)
    } else {
        slice_of(&body, 0, n)
    };
    proof {
        assert(body@.subrange(0, n as int) =~= body@);
        let cs = if s@.len() > 0 && s@[0] == ':' {
            s@.subrange(1, s@.len() as int)
        } else {
            s@
        };
        assert(cs == c@);
        assert(body@ == cs.subrange(if full { 3 } else { 2 }, cs.len() as int));
    }
    proof {
        let body_s = c@.subrange(if full { 3 } else { 2 }, c@.len() as int);
        assert(body_s == body@);
        let bs = if g { body_s.subrange(0, body_s.len() - 2) } else { body_s };
        assert(bs =~= b@);
    }
    let mut k: usize = 0;
    while k < b.len()
        invariant
            k <= b@.len(),
            find_char(b@, '/', 0) == find_char(b@, '/', k as int),
            parse_sub(command@) == match find_char(b@, '/', 0) {
                Some(j) => Some((b@.subrange(0, j), b@.subrange(j + 1, b@.len() as int), g, full)),
                None => None,
            },
        decreases b@.len() - k,
    {
        if b[k] == '/' {
            proof {
                assert(find_char(b@, '/', k as int) == Some(k as int));
            }
            let pat = slice_of(&b, 0, k);
            let rep = slice_of(&b, k + 1, b.len());
            return Some((string_of(pat.as_slice()), string_of(rep.as_slice()), g, full));
        }
        k = k + 1;
    }
    None
}

} // verus!
