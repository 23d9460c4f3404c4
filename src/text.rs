//! The mathematical model of text: lines separated by `'\n'`, character
//! classes used by motions and text objects, and conversions between
//! `String` and `Vec<char>`.
use vstd::prelude::*;

verus! {

/// Number of `'\n'` characters in `s`.
pub open spec fn nl_count(s: Seq<char>) -> nat
    decreases s.len(),
{
    if s.len() == 0 {
        0
    } else {
        nl_count(s.drop_last()) + if s.last() == '\n' {
            1nat
        } else {
            0nat
        }
    }
}

/// Number of lines of `s`: one more than the number of line breaks.
pub open spec fn line_count(s: Seq<char>) -> nat {
    nl_count(s) + 1
}

/// Character offset at which line `l` of `s` begins; for `l == line_count(s)`
/// this is the end of the text.
pub open spec fn line_start(s: Seq<char>, l: nat) -> nat
    decreases s.len(),
{
    if l == 0 {
        0
    } else if s.len() == 0 {
        0
    } else if l <= nl_count(s.drop_last()) {
        line_start(s.drop_last(), l)
    } else {
        s.len()
    }
}

/// Character offset just past line `l`, its line break included.
pub open spec fn line_end(s: Seq<char>, l: nat) -> nat {
    if l + 1 < line_count(s) {
        line_start(s, l + 1)
    } else {
        s.len()
    }
}

/// Line `l` of `s`, with its line break if it has one.
pub open spec fn line_chars(s: Seq<char>, l: nat) -> Seq<char> {
    s.subrange(line_start(s, l) as int, line_end(s, l) as int)
}

/// A sequence of characters with one trailing `'\n'` removed, if present.
pub open spec fn strip_nl(s: Seq<char>) -> Seq<char> {
    if s.len() > 0 && s.last() == '\n' {
        s.drop_last()
    } else {
        s
    }
}

/// Line `l` of `s` without its line break.
pub open spec fn line_text(s: Seq<char>, l: nat) -> Seq<char> {
    strip_nl(line_chars(s, l))
}

/// Line `l` of `s` without its line break; empty past the last line.
pub open spec fn line_text_at(s: Seq<char>, l: int) -> Seq<char> {
    if 0 <= l < line_count(s) {
        line_text(s, l as nat)
    } else {
        Seq::empty()
    }
}

/// The line that holds character offset `k`: the number of line breaks before it.
pub open spec fn line_of(s: Seq<char>, k: int) -> nat {
    nl_count(s.subrange(0, k))
}

/// `s` holds no line break.
pub open spec fn no_nl(s: Seq<char>) -> bool {
    forall|i: int| 0 <= i < s.len() ==> s[i] != '\n'
}

pub proof fn lemma_nl_count_add(a: Seq<char>, b: Seq<char>)
    ensures
        nl_count(a + b) == nl_count(a) + nl_count(b),
    decreases b.len(),
{
    if b.len() == 0 {
        assert(a + b =~= a);
    } else {
        assert((a + b).drop_last() =~= a + b.drop_last());
        lemma_nl_count_add(a, b.drop_last());
    }
}

pub proof fn lemma_nl_count_none(s: Seq<char>)
    ensures
        no_nl(s) <==> nl_count(s) == 0,
    decreases s.len(),
{
    if s.len() > 0 {
        lemma_nl_count_none(s.drop_last());
        if no_nl(s) {
            assert forall|i: int| 0 <= i < s.drop_last().len() implies s.drop_last()[i]
                != '\n' by {
                assert(s[i] != '\n');
            }
        }
        if nl_count(s) == 0 {
            assert forall|i: int| 0 <= i < s.len() implies s[i] != '\n' by {
                if i < s.len() - 1 {
                    assert(s.drop_last()[i] == s[i]);
                }
            }
        }
    }
}

pub proof fn lemma_nl_count_bound(s: Seq<char>)
    ensures
        nl_count(s) <= s.len(),
    decreases s.len(),
{
    if s.len() > 0 {
        lemma_nl_count_bound(s.drop_last());
    }
}

/// `line_start` is the offset just after the `l`-th line break.
pub proof fn lemma_line_start(s: Seq<char>, l: nat)
    requires
        l <= nl_count(s),
    ensures
        line_start(s, l) <= s.len(),
        nl_count(s.subrange(0, line_start(s, l) as int)) == l,
        l > 0 ==> line_start(s, l) > 0 && s[line_start(s, l) - 1] == '\n',
    decreases s.len(),
{
    if l == 0 {
        assert(s.subrange(0, 0) =~= Seq::<char>::empty());
    } else if l <= nl_count(s.drop_last()) {
        let d = s.drop_last();
        lemma_line_start(d, l);
        assert(s.subrange(0, line_start(d, l) as int) =~= d.subrange(0, line_start(d, l) as int));
    } else {
        assert(s.subrange(0, s.len() as int) =~= s);
    }
}

/// A position just after the `l`-th line break is where line `l` starts.
pub proof fn lemma_line_start_unique(s: Seq<char>, l: nat, r: int)
    requires
        0 <= r <= s.len(),
        nl_count(s.subrange(0, r)) == l,
        r == 0 || s[r - 1] == '\n',
    ensures
        l <= nl_count(s),
        line_start(s, l) == r,
    decreases s.len(),
{
    lemma_nl_count_add(s.subrange(0, r), s.subrange(r, s.len() as int));
    assert(s.subrange(0, r) + s.subrange(r, s.len() as int) =~= s);
    if r == 0 {
        assert(s.subrange(0, 0) =~= Seq::<char>::empty());
    } else if r == s.len() {
        assert(s.subrange(0, r) =~= s);
        assert(s.subrange(0, r - 1) =~= s.drop_last());
    } else {
        let d = s.drop_last();
        assert(d.subrange(0, r) =~= s.subrange(0, r));
        lemma_line_start_unique(d, l, r);
    }
}

/// Offsets inside one line (up to its line break) belong to that line.
pub proof fn lemma_line_of_in_line(s: Seq<char>, l: nat, col: int)
    requires
        l < line_count(s),
        0 <= col,
        line_start(s, l) + col <= s.len(),
        no_nl(s.subrange(line_start(s, l) as int, line_start(s, l) + col)),
    ensures
        line_of(s, line_start(s, l) + col) == l,
{
    let a = line_start(s, l) as int;
    lemma_line_start(s, l);
    lemma_nl_count_none(s.subrange(a, a + col));
    lemma_nl_count_add(s.subrange(0, a), s.subrange(a, a + col));
    assert(s.subrange(0, a) + s.subrange(a, a + col) =~= s.subrange(0, a + col));
}

/// The line that holds offset `k` begins at or before `k`, and no line break lies between.
pub proof fn lemma_line_of(s: Seq<char>, k: int)
    requires
        0 <= k <= s.len(),
    ensures
        line_of(s, k) < line_count(s),
        line_start(s, line_of(s, k)) <= k,
        no_nl(s.subrange(line_start(s, line_of(s, k)) as int, k)),
    decreases k,
{
    let p = s.subrange(0, k);
    lemma_nl_count_add(p, s.subrange(k, s.len() as int));
    assert(p + s.subrange(k, s.len() as int) =~= s);
    if k == 0 {
        assert(p =~= Seq::<char>::empty());
        assert(s.subrange(0, 0) =~= Seq::<char>::empty());
    } else if s[k - 1] == '\n' {
        lemma_line_start_unique(s, line_of(s, k), k);
        assert(s.subrange(k, k) =~= Seq::<char>::empty());
    } else {
        lemma_line_of(s, k - 1);
        assert(s.subrange(0, k).drop_last() =~= s.subrange(0, k - 1));
        let a = line_start(s, line_of(s, k)) as int;
        assert forall|i: int| 0 <= i < s.subrange(a, k).len() implies s.subrange(a, k)[i]
            != '\n' by {
            if a + i < k - 1 {
                assert(s.subrange(a, k - 1)[i] == s[a + i]);
            }
        }
    }
}

/// Line `l` ends with its line break unless it is the last line, and holds no other.
pub proof fn lemma_line_shape(s: Seq<char>, l: nat)
    requires
        l < line_count(s),
    ensures
        line_start(s, l) <= line_end(s, l) <= s.len(),
        l + 1 < line_count(s) ==> line_end(s, l) > line_start(s, l) && s[line_end(s, l) - 1]
            == '\n',
        l + 1 < line_count(s) ==> no_nl(
            s.subrange(line_start(s, l) as int, line_end(s, l) - 1),
        ),
        l + 1 == line_count(s) ==> no_nl(s.subrange(line_start(s, l) as int, s.len() as int)),
        line_text(s, l) == s.subrange(
            line_start(s, l) as int,
            if l + 1 < line_count(s) {
                line_end(s, l) - 1
            } else {
                s.len() as int
            },
        ),
{
    let a = line_start(s, l) as int;
    lemma_line_start(s, l);
    if l + 1 < line_count(s) {
        lemma_line_start(s, l + 1);
        let b = line_start(s, l + 1) as int;
        lemma_line_of(s, b - 1);
        let m = line_of(s, b - 1);
        assert(s.subrange(0, b).drop_last() =~= s.subrange(0, b - 1));
        assert(m == l);
        lemma_line_start_unique(s, l, line_start(s, m) as int);
        assert(line_chars(s, l).last() == '\n');
        assert(line_chars(s, l).drop_last() =~= s.subrange(a, b - 1));
    } else {
        lemma_line_of(s, s.len() as int);
        assert(s.subrange(0, s.len() as int) =~= s);
        let m = line_of(s, s.len() as int);
        assert(m == l);
        if s.len() > a {
            assert(s.subrange(a, s.len() as int)[s.len() - 1 - a] == s[s.len() - 1]);
        }
    }
}

/// Letters and digits of ASCII, and the underscore.
pub open spec fn word_char(c: char) -> bool {
    ('a' <= c && c <= 'z') || ('A' <= c && c <= 'Z') || ('0' <= c && c <= '9') || c == '_'
}

/// Unicode `White_Space`, the class that `char::is_whitespace` tests.
pub open spec fn blank(c: char) -> bool {
    let u = c as u32;
    (0x09 <= u && u <= 0x0d) || u == 0x20 || u == 0x85 || u == 0xa0 || u == 0x1680 || (0x2000
        <= u && u <= 0x200a) || u == 0x2028 || u == 0x2029 || u == 0x202f || u == 0x205f || u
        == 0x3000
}

/// Neither a word character nor white space.
pub open spec fn punct(c: char) -> bool {
    !word_char(c) && !blank(c)
}

pub fn is_word_char(c: char) -> (r: bool)
    ensures
        r == word_char(c),
{
    ('a' <= c && c <= 'z') || ('A' <= c && c <= 'Z') || ('0' <= c && c <= '9') || c == '_'
}

pub fn is_blank(c: char) -> (r: bool)
    ensures
        r == blank(c),
{
    let u = c as u32;
    (0x09 <= u && u <= 0x0d) || u == 0x20 || u == 0x85 || u == 0xa0 || u == 0x1680 || (0x2000
        <= u && u <= 0x200a) || u == 0x2028 || u == 0x2029 || u == 0x202f || u == 0x205f || u
        == 0x3000
}

pub fn is_punct(c: char) -> (r: bool)
    ensures
        r == punct(c),
{
    !is_word_char(c) && !is_blank(c)
}

/// Classes of characters that word motions and text objects scan over.
#[derive(Debug, Clone, Copy, PartialEq, Eq)]
pub enum CharClass {
    Word,
    Punct,
    Blank,
    NonWord,
    InlineBlank,
    NotSlash,
}

pub open spec fn in_class(c: char, k: CharClass) -> bool {
    match k {
        CharClass::Word => word_char(c),
        CharClass::Punct => punct(c),
        CharClass::Blank => blank(c),
        CharClass::NonWord => !word_char(c),
        CharClass::InlineBlank => blank(c) && c != '\n',
        CharClass::NotSlash => c != '/',
    }
}

pub fn is_in_class(c: char, k: CharClass) -> (r: bool)
    ensures
        r == in_class(c, k),
{
    match k {
        CharClass::Word => is_word_char(c),
        CharClass::Punct => is_punct(c),
        CharClass::Blank => is_blank(c),
        CharClass::NonWord => !is_word_char(c),
        CharClass::InlineBlank => is_blank(c) && c != '\n',
        CharClass::NotSlash => c != '/',
    }
}

/// From `i`, the first position at or after it whose character is not of class `k`
/// (the end of `s` if there is none).
pub open spec fn skip_fwd(s: Seq<char>, i: int, k: CharClass) -> int
    decreases s.len() - i,
{
    if i < 0 || i >= s.len() || !in_class(s[i], k) {
        i
    } else {
        skip_fwd(s, i + 1, k)
    }
}

/// From `i`, moving back over the characters before it while they are of class `k`.
pub open spec fn skip_bwd(s: Seq<char>, i: int, k: CharClass) -> int
    decreases i,
{
    if i <= 0 || i > s.len() || !in_class(s[i - 1], k) {
        i
    } else {
        skip_bwd(s, i - 1, k)
    }
}

pub proof fn lemma_skip_fwd(s: Seq<char>, i: int, k: CharClass)
    requires
        0 <= i <= s.len(),
    ensures
        i <= skip_fwd(s, i, k) <= s.len(),
        forall|j: int| i <= j < skip_fwd(s, i, k) ==> in_class(s[j], k),
        skip_fwd(s, i, k) < s.len() ==> !in_class(s[skip_fwd(s, i, k)], k),
    decreases s.len() - i,
{
    if i < s.len() && in_class(s[i], k) {
        lemma_skip_fwd(s, i + 1, k);
    }
}

pub proof fn lemma_skip_bwd(s: Seq<char>, i: int, k: CharClass)
    requires
        0 <= i <= s.len(),
    ensures
        0 <= skip_bwd(s, i, k) <= i,
        forall|j: int| skip_bwd(s, i, k) <= j < i ==> in_class(s[j], k),
        skip_bwd(s, i, k) > 0 ==> !in_class(s[skip_bwd(s, i, k) - 1], k),
    decreases i,
{
    if i > 0 && in_class(s[i - 1], k) {
        lemma_skip_bwd(s, i - 1, k);
    }
}

pub fn skip_forward(v: &Vec<char>, i: usize, k: CharClass) -> (r: usize)
    requires
        i <= v@.len(),
    ensures
        r == skip_fwd(v@, i as int, k),
        i <= r <= v@.len(),
{
    let mut j = i;
    while j < v.len() && is_in_class(v[j], k)
        invariant
            i <= j <= v@.len(),
            skip_fwd(v@, j as int, k) == skip_fwd(v@, i as int, k),
        decreases v@.len() - j,
    {
        j = j + 1;
    }
    j
}

pub fn skip_backward(v: &Vec<char>, i: usize, k: CharClass) -> (r: usize)
    requires
        i <= v@.len(),
    ensures
        r == skip_bwd(v@, i as int, k),
        r <= i,
{
    let mut j = i;
    while j > 0 && is_in_class(v[j - 1], k)
        invariant
            j <= i <= v@.len(),
            skip_bwd(v@, j as int, k) == skip_bwd(v@, i as int, k),
        decreases j,
    {
        j = j - 1;
    }
    j
}

/// The pieces of `s` between its `'\n'` characters: `k` line breaks give `k + 1` pieces.
pub open spec fn pieces(s: Seq<char>) -> Seq<Seq<char>>
    decreases s.len(),
{
    if s.len() == 0 {
        seq![Seq::empty()]
    } else {
        let p = pieces(s.drop_last());
        if s.last() == '\n' {
            p.push(Seq::empty())
        } else {
            p.update(p.len() - 1, p.last().push(s.last()))
        }
    }
}

pub proof fn lemma_pieces_len(s: Seq<char>)
    ensures
        pieces(s).len() >= 1,
    decreases s.len(),
{
    if s.len() > 0 {
        lemma_pieces_len(s.drop_last());
    }
}

/// A line with one trailing carriage return removed, if present.
pub open spec fn strip_cr(l: Seq<char>) -> Seq<char> {
    if l.len() > 0 && l.last() == '\r' {
        l.drop_last()
    } else {
        l
    }
}

/// The lines of `s` as `str::lines` gives them: split at `'\n'`, a `'\r'`
/// before it dropped, and no empty line after a final line break.
pub open spec fn lines_of(s: Seq<char>) -> Seq<Seq<char>> {
    let p = pieces(s);
    let q = if p.last().len() == 0 {
        p.drop_last()
    } else {
        p
    };
    q.map_values(|l: Seq<char>| strip_cr(l))
}

fn strip_cr_string(v: &Vec<char>) -> (r: String)
    ensures
        r@ == strip_cr(v@),
{
    if v.len() > 0 && v[v.len() - 1] == '\r' {
        let mut w = v.clone();
        w.pop();
        proof {
            assert(w@ =~= strip_cr(v@));
        }
        string_of(w.as_slice())
    } else {
        string_of(v.as_slice())
    }
}

/// Splits `v` into lines as `str::lines` does.
pub fn split_lines(v: &Vec<char>) -> (r: Vec<String>)
    ensures
        r@.len() == lines_of(v@).len(),
        forall|j: int| 0 <= j < r@.len() ==> r@[j]@ == lines_of(v@)[j],
{
    let mut done: Vec<String> = Vec::new();
    let mut cur: Vec<char> = Vec::new();
    let mut i: usize = 0;
    proof {
        assert(v@.subrange(0, 0) =~= Seq::<char>::empty());
    }
    while i < v.len()
        invariant
            i <= v@.len(),
            pieces(v@.subrange(0, i as int)).len() == done@.len() + 1,
            cur@ == pieces(v@.subrange(0, i as int)).last(),
            forall|j: int|
                0 <= j < done@.len() ==> done@[j]@ == strip_cr(
                    pieces(v@.subrange(0, i as int))[j],
                ),
        decreases v@.len() - i,
    {
        let ghost before = v@.subrange(0, i as int);
        proof {
            assert(v@.subrange(0, i + 1).drop_last() =~= before);
            lemma_pieces_len(before);
        }
        if v[i] == '\n' {
            let s = strip_cr_string(&cur);
            done.push(s);
            cur = Vec::new();
            proof {
                assert(cur@ =~= Seq::<char>::empty());
            }
        } else {
            cur.push(v[i]);
        }
        i = i + 1;
    }
    proof {
        assert(v@.subrange(0, v@.len() as int) =~= v@);
    }
    if cur.len() > 0 {
        let s = strip_cr_string(&cur);
        done.push(s);
    }
    done
}

/// The character of decimal digit `d`.
pub open spec fn digit_char(d: int) -> char {
    ((d + 48) as u32) as char
}

/// The decimal digits of `n`, most significant first.
pub open spec fn dec(n: nat) -> Seq<char>
    decreases n,
{
    if n < 10 {
        seq![digit_char(n as int)]
    } else {
        dec(n / 10).push(digit_char((n % 10) as int))
    }
}

/// The decimal digits of `n`.
pub fn decimal(n: usize) -> (r: Vec<char>)
    ensures
        r@ == dec(n as nat),
    decreases n,
{
    let d = char_from_u32((n % 10) as u32 + 48);
    if n < 10 {
        vec![d]
    } else {
        let mut v = decimal(n / 10);
        v.push(d);
        v
    }
}

/// Appends the characters of `s` to `out`.
pub fn extend_chars(out: &mut Vec<char>, s: &Vec<char>)
    ensures
        final(out)@ == old(out)@ + s@,
{
    let mut i: usize = 0;
    while i < s.len()
        invariant
            i <= s@.len(),
            out@ == old(out)@ + s@.subrange(0, i as int),
        decreases s@.len() - i,
    {
        out.push(s[i]);
        proof {
            assert(s@.subrange(0, i + 1) =~= s@.subrange(0, i as int).push(s@[i as int]));
        }
        i = i + 1;
    }
    proof {
        assert(s@.subrange(0, s@.len() as int) =~= s@);
    }
}

/// Appends the characters of `s` to `out`.
pub fn extend_str(out: &mut Vec<char>, s: &str)
    ensures
        final(out)@ == old(out)@ + s@,
{
    let v = chars_of(s);
    extend_chars(out, &v);
}

/// Relies on `char::from_u32` for a value known to be a character.
#[verifier::external_body]
pub(crate) fn char_from_u32(u: u32) -> (c: char)
    requires
        u < 0xd800,
    ensures
        c == u as char,
{
    char::from_u32(u).unwrap()
}

/// The words of `s`: maximal runs of characters that are not white space,
/// as `str::split_whitespace` gives them.
pub open spec fn words(s: Seq<char>) -> Seq<Seq<char>>
    decreases s.len(),
{
    if s.len() == 0 {
        Seq::empty()
    } else {
        let w = words(s.drop_last());
        let c = s.last();
        if blank(c) {
            w
        } else if s.len() >= 2 && !blank(s[s.len() - 2]) {
            w.update(w.len() - 1, w.last().push(c))
        } else {
            w.push(seq![c])
        }
    }
}

pub proof fn lemma_words_nonempty(s: Seq<char>)
    requires
        s.len() > 0,
        !blank(s.last()),
    ensures
        words(s).len() > 0,
    decreases s.len(),
{
    if s.len() >= 2 && !blank(s[s.len() - 2]) {
        assert(s.drop_last().last() == s[s.len() - 2]);
        lemma_words_nonempty(s.drop_last());
    }
}

/// Splits `v` into its words.
pub fn split_words(v: &Vec<char>) -> (r: Vec<Vec<char>>)
    ensures
        r@.len() == words(v@).len(),
        forall|j: int| 0 <= j < r@.len() ==> #[trigger] r@[j]@ == words(v@)[j],
{
    let mut out: Vec<Vec<char>> = Vec::new();
    let mut i: usize = 0;
    proof {
        assert(v@.subrange(0, 0) =~= Seq::<char>::empty());
    }
    while i < v.len()
        invariant
            i <= v@.len(),
            out@.len() == words(v@.subrange(0, i as int)).len(),
            forall|j: int| 0 <= j < out@.len() ==> #[trigger] out@[j]@ == words(v@.subrange(0, i as int))[j],
        decreases v@.len() - i,
    {
        let ghost pre = v@.subrange(0, i as int);
        let ghost next = v@.subrange(0, i + 1);
        proof {
            assert(next.drop_last() =~= pre);
            assert(next.last() == v@[i as int]);
            if i >= 1 {
                assert(next[next.len() - 2] == v@[i - 1]);
                assert(pre.last() == v@[i - 1]);
            }
        }
        let c = v[i];
        if is_blank(c) {
        } else if i >= 1 && !is_blank(v[i - 1]) {
            proof {
                lemma_words_nonempty(pre);
            }
            let k = out.len() - 1;
            out[k].push(c);
            proof {
                assert(out@[k as int]@ == words(pre)[k as int].push(c));
            }
        } else {
            let w = vec![c];
            out.push(w);
            proof {
                assert(w@ =~= seq![c]);
            }
        }
        i = i + 1;
    }
    proof {
        assert(v@.subrange(0, v@.len() as int) =~= v@);
    }
    out
}

/// `v` holds exactly the characters of `s`.
pub fn same_chars(v: &Vec<char>, s: &str) -> (r: bool)
    ensures
        r == (v@ == s@),
{
    let w = chars_of(s);
    if v.len() != w.len() {
        return false;
    }
    let mut i: usize = 0;
    while i < v.len()
        invariant
            i <= v@.len(),
            v@.len() == w@.len(),
            w@ == s@,
            forall|j: int| 0 <= j < i ==> v@[j] == w@[j],
        decreases v@.len() - i,
    {
        if v[i] != w[i] {
            return false;
        }
        i = i + 1;
    }
    proof {
        assert(v@ =~= w@);
    }
    true
}

/// The number that decimal digits `s` spell.
pub open spec fn num_val(s: Seq<char>) -> nat
    decreases s.len(),
{
    if s.len() == 0 {
        0
    } else {
        num_val(s.drop_last()) * 10 + (s.last() as int - 48) as nat
    }
}

pub open spec fn all_digits(s: Seq<char>) -> bool {
    forall|i: int| 0 <= i < s.len() ==> '0' <= #[trigger] s[i] <= '9'
}

/// What `usize::from_str` gives: an optional `+` and at least one decimal
/// digit, with a value that fits.
pub open spec fn parse_dec(s: Seq<char>) -> Option<usize> {
    let d = if s.len() > 0 && s[0] == '+' {
        s.subrange(1, s.len() as int)
    } else {
        s
    };
    if d.len() > 0 && all_digits(d) && num_val(d) <= usize::MAX {
        Some(num_val(d) as usize)
    } else {
        None
    }
}

proof fn lemma_num_val_grows(s: Seq<char>, k: int)
    requires
        0 <= k <= s.len(),
        all_digits(s),
    ensures
        num_val(s.subrange(0, k)) <= num_val(s),
    decreases s.len() - k,
{
    if k < s.len() {
        lemma_num_val_grows(s, k + 1);
        let p = s.subrange(0, k + 1);
        assert(p.drop_last() =~= s.subrange(0, k));
        assert('0' <= s[k] <= '9');
    } else {
        assert(s.subrange(0, k) =~= s);
    }
}

/// Parses a decimal number as `usize::from_str` does.
pub fn parse_usize(s: &Vec<char>) -> (r: Option<usize>)
    ensures
        r == parse_dec(s@),
{
    let start: usize = if s.len() > 0 && s[0] == '+' {
        1
    } else {
        0
    };
    let ghost d = if s@.len() > 0 && s@[0] == '+' {
        s@.subrange(1, s@.len() as int)
    } else {
        s@
    };
    proof {
        assert(d =~= s@.subrange(start as int, s@.len() as int));
    }
    if start >= s.len() {
        return None;
    }
    let mut acc: usize = 0;
    let mut i: usize = start;
    proof {
        assert(s@.subrange(start as int, start as int) =~= Seq::<char>::empty());
    }
    while i < s.len()
        invariant
            start <= i <= s@.len(),
            d == s@.subrange(start as int, s@.len() as int),
            d == (if s@.len() > 0 && s@[0] == '+' {
                s@.subrange(1, s@.len() as int)
            } else {
                s@
            }),
            all_digits(s@.subrange(start as int, i as int)),
            acc as nat == num_val(s@.subrange(start as int, i as int)),
        decreases s@.len() - i,
    {
        let c = s[i];
        let ghost pre = s@.subrange(start as int, i as int);
        let ghost next = s@.subrange(start as int, i + 1);
        proof {
            assert(next.drop_last() =~= pre);
        }
        if c < '0' || c > '9' {
            proof {
                assert(d[i - start] == c);
                assert(!('0' <= d[i - start] <= '9'));
                assert(!all_digits(d));
                assert(parse_dec(s@) is None);
            }
            return None;
        }
        let dv = (c as u32 - 48) as usize;
        if acc > (usize::MAX - dv) / 10 {
            proof {
                assert(acc * 10 + dv > usize::MAX) by (nonlinear_arith)
                    requires
                        acc > (usize::MAX - dv) / 10,
                        dv <= 9,
                ;
                if all_digits(d) {
                    lemma_num_val_grows(d, i + 1 - start);
                    assert(d.subrange(0, i + 1 - start) =~= next);
                    assert(next.last() == c);
                    assert(c as int - 48 == dv as int);
                    assert(num_val(next) == num_val(pre) * 10 + dv);
                    assert(num_val(next) == acc * 10 + dv);
                    assert(num_val(d) > usize::MAX);
                }
                assert(parse_dec(s@) is None);
            }
            return None;
        }
        proof {
            assert(acc * 10 + dv <= usize::MAX) by (nonlinear_arith)
                requires
                    acc <= (usize::MAX - dv) / 10,
                    dv <= 9,
            ;
        }
        acc = acc * 10 + dv;
        i = i + 1;
    }
    proof {
        assert(s@.subrange(start as int, s@.len() as int) == d);
    }
    Some(acc)
}

/// The last component of a path, as `Path::file_name` names files: trailing
/// slashes are ignored, and an empty, `.` or `..` component names no file.
pub open spec fn file_name(p: Seq<char>) -> Option<Seq<char>> {
    let q = trim_slashes(p);
    let comp = q.subrange(skip_bwd(q, q.len() as int, CharClass::NotSlash), q.len() as int);
    if comp.len() == 0 || comp == seq!['.'] || comp == seq!['.', '.'] {
        None
    } else {
        Some(comp)
    }
}

/// `p` without its trailing slashes.
pub open spec fn trim_slashes(p: Seq<char>) -> Seq<char>
    decreases p.len(),
{
    if p.len() > 0 && p.last() == '/' {
        trim_slashes(p.drop_last())
    } else {
        p
    }
}

/// Relies on `str::chars` collected into a `Vec`: the characters of `s`, in order.
#[verifier::external_body]
pub(crate) fn chars_of(s: &str) -> (r: Vec<char>)
    ensures
        r@ == s@,
{
    s.chars().collect()
}

/// Relies on `String: FromIterator<&char>`: the string of the given characters.
#[verifier::external_body]
pub(crate) fn string_of(v: &[char]) -> (r: String)
    ensures
        r@ == v@,
{
    v.iter().collect()
}

} // verus!
