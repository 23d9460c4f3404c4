//! Search: every position of a literal pattern in a buffer, and the cyclic
//! choice of the next or previous one from the cursor.
use vstd::prelude::*;
use crate::buffer::Buffer;
use crate::cursor::{Cursor, offset_of};
use crate::text::{chars_of, line_count};

verus! {

#[derive(Debug, Clone, Copy, PartialEq, Eq, Structural)]
pub enum SearchDirection {
    Forward,
    Backward,
}

/// `p` occurs in `t` at offset `i`.
pub open spec fn is_match(t: Seq<char>, p: Seq<char>, i: int) -> bool {
    0 <= i && i + p.len() <= t.len() && t.subrange(i, i + p.len()) == p
}

/// Offsets below `n` at which `p` occurs in `t`, ascending.
pub open spec fn occurrences(t: Seq<char>, p: Seq<char>, n: int) -> Seq<usize>
    decreases n,
{
    if n <= 0 {
        Seq::empty()
    } else if is_match(t, p, n - 1) {
        occurrences(t, p, n - 1).push((n - 1) as usize)
    } else {
        occurrences(t, p, n - 1)
    }
}

/// Every offset at which a non-empty `p` occurs in `t`, overlapping ones
/// included; none for an empty pattern.
pub open spec fn match_list(t: Seq<char>, p: Seq<char>) -> Seq<usize> {
    if p.len() == 0 {
        Seq::empty()
    } else {
        occurrences(t, p, t.len() as int)
    }
}

/// `m` lies after `x` (at or after it unless `strict`).
pub open spec fn after(m: int, x: int, strict: bool) -> bool {
    if strict {
        m > x
    } else {
        m >= x
    }
}

/// `m` lies before `x` (at or before it unless `strict`).
pub open spec fn before(m: int, x: int, strict: bool) -> bool {
    if strict {
        m < x
    } else {
        m <= x
    }
}

/// Index of the first entry from `i` on that lies after `x`.
pub open spec fn first_after(ms: Seq<usize>, i: int, x: int, strict: bool) -> Option<int>
    decreases ms.len() - i,
{
    if i < 0 || i >= ms.len() {
        None
    } else if after(ms[i] as int, x, strict) {
        Some(i)
    } else {
        first_after(ms, i + 1, x, strict)
    }
}

/// Index of the last entry below `n` that lies before `x`.
pub open spec fn last_before(ms: Seq<usize>, n: int, x: int, strict: bool) -> Option<int>
    decreases n,
{
    if n <= 0 || n > ms.len() {
        None
    } else if before(ms[n - 1] as int, x, strict) {
        Some(n - 1)
    } else {
        last_before(ms, n - 1, x, strict)
    }
}

/// The match index reached from offset `x` going `forward`; it wraps around
/// only when there are at least two matches.
pub open spec fn pick(ms: Seq<usize>, x: int, forward: bool, strict: bool) -> Option<usize> {
    if ms.len() == 0 {
        None
    } else if forward {
        match first_after(ms, 0, x, strict) {
            Some(i) => Some(i as usize),
            None => if ms.len() > 1 {
                Some(0)
            } else {
                None
            },
        }
    } else {
        match last_before(ms, ms.len() as int, x, strict) {
            Some(i) => Some(i as usize),
            None => if ms.len() > 1 {
                Some((ms.len() - 1) as usize)
            } else {
                None
            },
        }
    }
}

/// `a + b`, or `usize::MAX` if that does not fit.
pub open spec fn sat_add(a: usize, b: usize) -> usize {
    if a + b <= usize::MAX {
        (a + b) as usize
    } else {
        usize::MAX
    }
}

#[derive(Debug, Clone)]
pub struct SearchState {
    pub pattern: String,
    pub direction: SearchDirection,
    pub matches: Vec<usize>,
    pub current_match: Option<usize>,
}

fn matches_at(t: &Vec<char>, p: &Vec<char>, i: usize) -> (r: bool)
    requires
        i <= t@.len(),
    ensures
        r == is_match(t@, p@, i as int),
{
    if p.len() > t.len() - i {
        return false;
    }
    let mut k: usize = 0;
    while k < p.len()
        invariant
            i + p@.len() <= t@.len(),
            t@.len() <= usize::MAX,
            k <= p@.len(),
            forall|j: int| 0 <= j < k ==> t@[i + j] == p@[j],
        decreases p@.len() - k,
    {
        if t[i + k] != p[k] {
            proof {
                assert(t@.subrange(i as int, i + p@.len())[k as int] != p@[k as int]);
            }
            return false;
        }
        k = k + 1;
    }
    proof {
        assert(t@.subrange(i as int, i + p@.len()) =~= p@);
    }
    true
}

fn add_sat(a: usize, b: usize) -> (r: usize)
    ensures
        r == sat_add(a, b),
{
    if b <= usize::MAX - a {
        a + b
    } else {
        usize::MAX
    }
}

fn find_first_after(ms: &Vec<usize>, x: usize, strict: bool) -> (r: Option<usize>)
    ensures
        r == match first_after(ms@, 0, x as int, strict) {
            Some(i) => Some(i as usize),
            None => None::<usize>,
        },
        r matches Some(i) ==> i < ms@.len(),
{
    let mut i: usize = 0;
    while i < ms.len()
        invariant
            i <= ms@.len(),
            first_after(ms@, 0, x as int, strict) == first_after(ms@, i as int, x as int, strict),
        decreases ms@.len() - i,
    {
        let hit = if strict {
            ms[i] > x
        } else {
            ms[i] >= x
        };
        if hit {
            return Some(i);
        }
        i = i + 1;
    }
    None
}

fn find_last_before(ms: &Vec<usize>, x: usize, strict: bool) -> (r: Option<usize>)
    ensures
        r == match last_before(ms@, ms@.len() as int, x as int, strict) {
            Some(i) => Some(i as usize),
            None => None::<usize>,
        },
        r matches Some(i) ==> i < ms@.len(),
{
    let mut n: usize = ms.len();
    while n > 0
        invariant
            n <= ms@.len(),
            last_before(ms@, ms@.len() as int, x as int, strict) == last_before(
                ms@,
                n as int,
                x as int,
                strict,
            ),
        decreases n,
    {
        let hit = if strict {
            ms[n - 1] < x
        } else {
            ms[n - 1] <= x
        };
        if hit {
            return Some(n - 1);
        }
        n = n - 1;
    }
    None
}

fn pick_match(ms: &Vec<usize>, x: usize, forward: bool, strict: bool) -> (r: Option<usize>)
    ensures
        r == pick(ms@, x as int, forward, strict),
{
    if ms.len() == 0 {
        return None;
    }
    if forward {
        match find_first_after(ms, x, strict) {
            Some(i) => Some(i),
            None => if ms.len() > 1 {
                Some(0)
            } else {
                None
            },
        }
    } else {
        match find_last_before(ms, x, strict) {
            Some(i) => Some(i),
            None => if ms.len() > 1 {
                Some(ms.len() - 1)
            } else {
                None
            },
        }
    }
}

/// Every offset at which `p` occurs in `t`.
pub fn find_matches(t: &Vec<char>, p: &Vec<char>) -> (r: Vec<usize>)
    ensures
        r@ == match_list(t@, p@),
{
    let mut out: Vec<usize> = Vec::new();
    if p.len() == 0 {
        return out;
    }
    let mut i: usize = 0;
    while i < t.len()
        invariant
            i <= t@.len(),
            p@.len() > 0,
            out@ == occurrences(t@, p@, i as int),
        decreases t@.len() - i,
    {
        if matches_at(t, p, i) {
            out.push(i);
        }
        i = i + 1;
    }
    out
}

impl SearchState {
    pub fn new() -> (r: SearchState)
        ensures
            r.pattern@.len() == 0,
            r.direction == SearchDirection::Forward,
            r.matches@.len() == 0,
            r.current_match is None,
    {
        SearchState {
            pattern: String::new(),
            direction: SearchDirection::Forward,
            matches: Vec::new(),
            current_match: None,
        }
    }

    pub fn is_active(&self) -> (r: bool)
        ensures
            r == (self.pattern@.len() > 0),
    {
        !self.pattern.as_str().is_empty()
    }

    /// Records the pattern and direction and finds every match in the buffer.
    pub fn set_pattern(&mut self, pattern: &str, direction: SearchDirection, buffer: &Buffer)
        ensures
            final(self).pattern@ == pattern@,
            final(self).direction == direction,
            final(self).matches@ == match_list(buffer@.text, pattern@),
            final(self).current_match is None,
    {
        self.pattern = pattern.to_owned();
        self.direction = direction;
        let t = buffer.chars();
        let p = chars_of(pattern);
        self.matches = find_matches(&t, &p);
        self.current_match = None;
    }

    /// The first match at or after the cursor (at or before it, searching backward).
    pub fn calc_first_match(&self, cursor: &Cursor, buffer: &Buffer) -> (r: Option<usize>)
        requires
            cursor.line < line_count(buffer@.text),
            offset_of(*cursor, buffer@.text) <= usize::MAX,
        ensures
            r == pick(
                self.matches@,
                offset_of(*cursor, buffer@.text),
                self.direction == SearchDirection::Forward,
                false,
            ),
    {
        let x = cursor.to_char_idx(buffer);
        let forward = match self.direction {
            SearchDirection::Forward => true,
            SearchDirection::Backward => false,
        };
        pick_match(&self.matches, x, forward, false)
    }

    /// The next match strictly past the cursor in the search direction.
    pub fn calc_next_match(&self, cursor: &Cursor, buffer: &Buffer) -> (r: Option<usize>)
        requires
            cursor.line < line_count(buffer@.text),
            offset_of(*cursor, buffer@.text) <= usize::MAX,
        ensures
            r == pick(
                self.matches@,
                offset_of(*cursor, buffer@.text),
                self.direction == SearchDirection::Forward,
                true,
            ),
    {
        let x = cursor.to_char_idx(buffer);
        let forward = match self.direction {
            SearchDirection::Forward => true,
            SearchDirection::Backward => false,
        };
        pick_match(&self.matches, x, forward, true)
    }

    /// The next match strictly past the cursor against the search direction.
    pub fn calc_prev_match(&self, cursor: &Cursor, buffer: &Buffer) -> (r: Option<usize>)
        requires
            cursor.line < line_count(buffer@.text),
            offset_of(*cursor, buffer@.text) <= usize::MAX,
        ensures
            r == pick(
                self.matches@,
                offset_of(*cursor, buffer@.text),
                self.direction == SearchDirection::Backward,
                true,
            ),
    {
        let x = cursor.to_char_idx(buffer);
        let forward = match self.direction {
            SearchDirection::Forward => false,
            SearchDirection::Backward => true,
        };
        pick_match(&self.matches, x, forward, true)
    }

    pub fn get_match_pos(&self, idx: usize) -> (r: Option<usize>)
        ensures
            idx < self.matches@.len() ==> r == Some(self.matches@[idx as int]),
            idx >= self.matches@.len() ==> r is None,
    {
        if idx < self.matches.len() {
            Some(self.matches[idx])
        } else {
            None
        }
    }

    pub fn set_current_match(&mut self, idx: usize)
        ensures
            final(self).current_match == Some(idx),
            final(self).pattern == old(self).pattern,
            final(self).direction == old(self).direction,
            final(self).matches == old(self).matches,
    {
        self.current_match = Some(idx);
    }

    /// The character range of the current match, if it names one.
    pub fn current_match_range(&self) -> (r: Option<(usize, usize)>)
        ensures
            r == match self.current_match {
                Some(i) => if i < self.matches@.len() {
                    Some(
                        (
                            self.matches@[i as int],
                            sat_add(self.matches@[i as int], self.pattern@.len() as usize),
                        ),
                    )
                } else {
                    None
                },
                None => None,
            },
    {
        match self.current_match {
            Some(i) => if i < self.matches.len() {
                let start = self.matches[i];
                let n = self.pattern.as_str().unicode_len();
                Some((start, add_sat(start, n)))
            } else {
                None
            },
            None => None,
        }
    }

    /// The character range of every match.
    pub fn all_match_ranges(&self) -> (r: Vec<(usize, usize)>)
        ensures
            r@.len() == self.matches@.len(),
            forall|i: int|
                0 <= i < r@.len() ==> r@[i] == (
                    self.matches@[i],
                    sat_add(self.matches@[i], self.pattern@.len() as usize),
                ),
    {
        let n = self.pattern.as_str().unicode_len();
        let mut out: Vec<(usize, usize)> = Vec::new();
        let mut i: usize = 0;
        while i < self.matches.len()
            invariant
                i <= self.matches@.len(),
                n == self.pattern@.len(),
                out@.len() == i,
                forall|j: int|
                    0 <= j < i ==> out@[j] == (
                        self.matches@[j],
                        sat_add(self.matches@[j], self.pattern@.len() as usize),
                    ),
            decreases self.matches@.len() - i,
        {
            let m = self.matches[i];
            out.push((m, add_sat(m, n)));
            i = i + 1;
        }
        out
    }

    /// Forgets the pattern and its matches.
    pub fn clear(&mut self)
        ensures
            final(self).pattern@.len() == 0,
            final(self).matches@.len() == 0,
            final(self).current_match is None,
            final(self).direction == old(self).direction,
    {
        self.pattern = String::new();
        self.matches = Vec::new();
        self.current_match = None;
    }
}

impl Default for SearchState {
    fn default() -> (r: SearchState)
        ensures
            r.pattern@.len() == 0,
            r.matches@.len() == 0,
            r.current_match is None,
    {
        SearchState::new()
    }
}

} // verus!
