//! Registers: named cells that hold yanked and deleted text, with Vim's rules
//! for the numbered registers and for appending through upper-case names.
use vstd::prelude::*;
use crate::text::{char_from_u32, chars_of, lines_of, split_lines};

verus! {

#[derive(Debug, Clone)]
pub struct Register {
    pub name: char,
    pub content: String,
    pub linewise: bool,
}

pub ghost struct RegisterView {
    pub name: char,
    pub content: Seq<char>,
    pub linewise: bool,
}

impl View for Register {
    type V = RegisterView;

    open spec fn view(&self) -> RegisterView {
        RegisterView { name: self.name, content: self.content@, linewise: self.linewise }
    }
}

pub open spec fn rv(name: char, content: Seq<char>, linewise: bool) -> RegisterView {
    RegisterView { name, content, linewise }
}

impl Register {
    pub fn new(name: char, content: &str, linewise: bool) -> (r: Register)
        ensures
            r@ == rv(name, content@, linewise),
    {
        Register { name, content: content.to_owned(), linewise }
    }

    pub fn empty(name: char) -> (r: Register)
        ensures
            r@ == rv(name, Seq::empty(), false),
    {
        Register { name, content: String::new(), linewise: false }
    }

    pub fn is_empty(&self) -> (r: bool)
        ensures
            r == (self@.content.len() == 0),
    {
        self.content.as_str().is_empty()
    }

    /// The lines of the content.
    pub fn lines(&self) -> (r: Vec<String>)
        ensures
            r@.len() == lines_of(self@.content).len(),
            forall|j: int| 0 <= j < r@.len() ==> r@[j]@ == lines_of(self@.content)[j],
    {
        let v = chars_of(self.content.as_str());
        split_lines(&v)
    }

    /// A copy of this register.
    pub fn duplicate(&self) -> (r: Register)
        ensures
            r@ == self@,
    {
        Register { name: self.name, content: self.content.clone(), linewise: self.linewise }
    }

    fn renamed(&self, name: char) -> (r: Register)
        ensures
            r@ == (RegisterView { name, ..self@ }),
    {
        Register { name, content: self.content.clone(), linewise: self.linewise }
    }
}

/// The names of the read-only registers, in order.
pub open spec fn readonly_index(name: char) -> int {
    if name == '%' {
        0
    } else if name == '#' {
        1
    } else if name == ':' {
        2
    } else if name == '.' {
        3
    } else {
        -1
    }
}

/// Ten numbered, twenty-six named and four read-only registers.
pub open spec fn slots_ok(v: RegistersView) -> bool {
    &&& v.numbered.len() == 10
    &&& v.named.len() == 26
    &&& v.readonly.len() == 4
}

pub ghost struct RegistersView {
    pub unnamed: RegisterView,
    pub small_delete: RegisterView,
    pub numbered: Seq<RegisterView>,
    pub named: Seq<Option<RegisterView>>,
    pub readonly: Seq<RegisterView>,
    pub search: RegisterView,
}

pub open spec fn digit_of(i: int) -> char {
    ((i + '0' as int) as u32) as char
}

pub open spec fn letter_of(i: int) -> char {
    ((i + 'a' as int) as u32) as char
}

/// What `get(name)` finds.
pub open spec fn lookup(m: RegistersView, name: char) -> Option<RegisterView> {
    if name == '"' {
        Some(m.unnamed)
    } else if name == '-' {
        Some(m.small_delete)
    } else if '0' <= name <= '9' {
        Some(m.numbered[name as int - '0' as int])
    } else if 'a' <= name <= 'z' {
        m.named[name as int - 'a' as int]
    } else if 'A' <= name <= 'Z' {
        m.named[name as int - 'A' as int]
    } else if readonly_index(name) >= 0 {
        Some(m.readonly[readonly_index(name)])
    } else if name == '/' {
        Some(m.search)
    } else {
        None
    }
}

/// The registers after `set(name, content, linewise)`.
pub open spec fn after_set(m: RegistersView, name: char, content: Seq<char>, linewise: bool) -> RegistersView {
    if name == '"' {
        RegistersView { unnamed: rv('"', content, linewise), ..m }
    } else if name == '-' {
        RegistersView { small_delete: rv('-', content, linewise), ..m }
    } else if '0' <= name <= '9' {
        RegistersView {
            numbered: m.numbered.update(name as int - '0' as int, rv(name, content, linewise)),
            ..m
        }
    } else if 'a' <= name <= 'z' {
        RegistersView {
            named: m.named.update(name as int - 'a' as int, Some(rv(name, content, linewise))),
            ..m
        }
    } else if 'A' <= name <= 'Z' {
        let i = name as int - 'A' as int;
        let entry = match m.named[i] {
            Some(e) => rv(e.name, e.content + content, linewise),
            None => rv(letter_of(i), content, linewise),
        };
        RegistersView { named: m.named.update(i, Some(entry)), ..m }
    } else if name == '/' {
        RegistersView { search: rv('/', content, linewise), ..m }
    } else {
        m
    }
}

/// The numbered registers after a yank: register 0 takes the new text.
pub open spec fn after_yank(m: RegistersView, content: Seq<char>, linewise: bool) -> RegistersView {
    RegistersView {
        unnamed: rv('"', content, linewise),
        numbered: m.numbered.update(0, rv('0', content, linewise)),
        ..m
    }
}

/// The numbered registers after a delete: each moves up one place, the
/// oldest is dropped, and register 0 takes the new text.
pub open spec fn after_delete(m: RegistersView, content: Seq<char>, linewise: bool) -> RegistersView {
    RegistersView {
        unnamed: rv('"', content, linewise),
        numbered: Seq::new(
            10,
            |i: int|
                if i == 0 {
                    rv('0', content, linewise)
                } else {
                    RegisterView { name: digit_of(i), ..m.numbered[i - 1] }
                },
        ),
        ..m
    }
}

/// Registers whose content is not empty, in order.
pub open spec fn nonempty(s: Seq<RegisterView>) -> Seq<RegisterView>
    decreases s.len(),
{
    if s.len() == 0 {
        Seq::empty()
    } else if s.last().content.len() > 0 {
        nonempty(s.drop_last()).push(s.last())
    } else {
        nonempty(s.drop_last())
    }
}

/// The registers present, in the order in which they are listed.
pub open spec fn present(s: Seq<Option<RegisterView>>) -> Seq<RegisterView>
    decreases s.len(),
{
    if s.len() == 0 {
        Seq::empty()
    } else {
        match s.last() {
            Some(r) => present(s.drop_last()).push(r),
            None => present(s.drop_last()),
        }
    }
}

/// Every register in listing order: unnamed, small delete, numbered, named,
/// read-only, search.
pub open spec fn listing(m: RegistersView) -> Seq<RegisterView> {
    seq![m.unnamed, m.small_delete] + m.numbered + present(m.named) + m.readonly + seq![m.search]
}

pub struct RegisterManager {
    unnamed: Register,
    small_delete: Register,
    numbered: Vec<Register>,
    named: Vec<Option<Register>>,
    readonly: Vec<Register>,
    search: Register,
}

pub open spec fn opt_reg(o: Option<Register>) -> Option<RegisterView> {
    match o {
        Some(r) => Some(r@),
        None => None,
    }
}

impl View for RegisterManager {
    type V = RegistersView;

    closed spec fn view(&self) -> RegistersView {
        RegistersView {
            unnamed: self.unnamed@,
            small_delete: self.small_delete@,
            numbered: self.numbered@.map_values(|r: Register| r@),
            named: self.named@.map_values(|o: Option<Register>| opt_reg(o)),
            readonly: self.readonly@.map_values(|r: Register| r@),
            search: self.search@,
        }
    }
}

impl RegisterManager {
    /// Ten numbered, twenty-six named and four read-only slots.
    pub open spec fn wf(&self) -> bool {
        slots_ok(self@)
    }

    /// Empty registers, none of the named ones set yet.
    pub fn new() -> (r: RegisterManager)
        ensures
            r.wf(),
            slots_ok(r@),
            r@.unnamed == rv('"', Seq::empty(), false),
            r@.small_delete == rv('-', Seq::empty(), false),
            r@.search == rv('/', Seq::empty(), false),
            forall|i: int| 0 <= i < 10 ==> #[trigger] r@.numbered[i] == rv(digit_of(i), Seq::empty(), false),
            forall|i: int| 0 <= i < 26 ==> #[trigger] r@.named[i] is None,
            r@.readonly == seq![
                rv('%', Seq::empty(), false),
                rv('#', Seq::empty(), false),
                rv(':', Seq::empty(), false),
                rv('.', Seq::empty(), false),
            ],
    {
        let mut numbered: Vec<Register> = Vec::new();
        let mut i: u32 = 0;
        while i < 10
            invariant
                i <= 10,
                numbered@.len() == i,
                forall|j: int| 0 <= j < i ==> #[trigger] numbered@[j]@ == rv(digit_of(j), Seq::empty(), false),
            decreases 10 - i,
        {
            let c = char_from_u32(i + 48);
            numbered.push(Register::empty(c));
            i = i + 1;
        }
        let mut named: Vec<Option<Register>> = Vec::new();
        let mut k: usize = 0;
        while k < 26
            invariant
                k <= 26,
                named@.len() == k,
                forall|j: int| 0 <= j < k ==> #[trigger] named@[j] is None,
            decreases 26 - k,
        {
            named.push(None);
            k = k + 1;
        }
        let readonly = vec![
            Register::empty('%'),
            Register::empty('#'),
            Register::empty(':'),
            Register::empty('.'),
        ];
        let r = RegisterManager {
            unnamed: Register::empty('"'),
            small_delete: Register::empty('-'),
            numbered,
            named,
            readonly,
            search: Register::empty('/'),
        };
        proof {
            assert(r@.readonly =~= seq![
                rv('%', Seq::empty(), false),
                rv('#', Seq::empty(), false),
                rv(':', Seq::empty(), false),
                rv('.', Seq::empty(), false),
            ]);
        }
        r
    }

    /// The register that `name` names, if it exists.
    pub fn get(&self, name: char) -> (r: Option<&Register>)
        requires
            self.wf(),
        ensures
            match r {
                Some(x) => lookup(self@, name) == Some(x@),
                None => lookup(self@, name) is None,
            },
    {
        if name == '"' {
            Some(&self.unnamed)
        } else if name == '-' {
            Some(&self.small_delete)
        } else if '0' <= name && name <= '9' {
            let i = (name as u32 - '0' as u32) as usize;
            Some(&self.numbered[i])
        } else if 'a' <= name && name <= 'z' {
            let i = (name as u32 - 'a' as u32) as usize;
            self.named[i].as_ref()
        } else if 'A' <= name && name <= 'Z' {
            let i = (name as u32 - 'A' as u32) as usize;
            self.named[i].as_ref()
        } else if name == '%' {
            Some(&self.readonly[0])
        } else if name == '#' {
            Some(&self.readonly[1])
        } else if name == ':' {
            Some(&self.readonly[2])
        } else if name == '.' {
            Some(&self.readonly[3])
        } else if name == '/' {
            Some(&self.search)
        } else {
            None
        }
    }

    /// Writes `content` to the register that `name` names: a lower-case
    /// letter is overwritten, an upper-case one appends to its lower-case
    /// register. Read-only and unknown names are ignored.
    pub fn set(&mut self, name: char, content: &str, linewise: bool)
        requires
            old(self).wf(),
        ensures
            final(self).wf(),
            slots_ok(final(self)@),
            final(self)@ == after_set(old(self)@, name, content@, linewise),
    {
        if name == '"' {
            self.unnamed = Register::new('"', content, linewise);
        } else if name == '-' {
            self.small_delete = Register::new('-', content, linewise);
        } else if '0' <= name && name <= '9' {
            let i = (name as u32 - '0' as u32) as usize;
            self.numbered.set(i, Register::new(name, content, linewise));
        } else if 'a' <= name && name <= 'z' {
            let i = (name as u32 - 'a' as u32) as usize;
            self.named.set(i, Some(Register::new(name, content, linewise)));
        } else if 'A' <= name && name <= 'Z' {
            let i = (name as u32 - 'A' as u32) as usize;
            let entry = match &self.named[i] {
                Some(e) => {
                    let mut c = e.content.clone();
                    c.append(content);
                    Register { name: e.name, content: c, linewise }
                },
                None => {
                    let lower = char_from_u32(i as u32 + 97);
                    Register::new(lower, content, linewise)
                },
            };
            self.named.set(i, Some(entry));
        } else if name == '/' {
            self.search = Register::new('/', content, linewise);
        }
        proof {
            assert(final(self)@.numbered =~= after_set(old(self)@, name, content@, linewise).numbered);
            assert(final(self)@.named =~= after_set(old(self)@, name, content@, linewise).named);
        }
    }

    /// Records yanked text: the unnamed register and register 0 take it; the
    /// other numbered registers are left alone.
    pub fn set_unnamed_yank(&mut self, content: &str, linewise: bool)
        requires
            old(self).wf(),
        ensures
            final(self).wf(),
            slots_ok(final(self)@),
            final(self)@ == after_yank(old(self)@, content@, linewise),
    {
        self.unnamed = Register::new('"', content, linewise);
        self.numbered.set(0, Register::new('0', content, linewise));
        proof {
            assert(final(self)@.numbered =~= after_yank(old(self)@, content@, linewise).numbered);
        }
    }

    /// Records deleted text: the numbered registers move up one place (the
    /// oldest is dropped), and the unnamed register and register 0 take it.
    pub fn set_unnamed_delete(&mut self, content: &str, linewise: bool)
        requires
            old(self).wf(),
        ensures
            final(self).wf(),
            slots_ok(final(self)@),
            final(self)@ == after_delete(old(self)@, content@, linewise),
    {
        let ghost before = self@;
        let mut i: usize = 9;
        while i > 0
            invariant
                0 <= i <= 9,
                self.wf(),
                before.numbered.len() == 10,
                self@.unnamed == before.unnamed,
                self@.small_delete == before.small_delete,
                self@.named == before.named,
                self@.readonly == before.readonly,
                self@.search == before.search,
                forall|j: int| 0 <= j <= i ==> #[trigger] self@.numbered[j] == before.numbered[j],
                forall|j: int|
                    i < j < 10 ==> #[trigger] self@.numbered[j] == (RegisterView {
                        name: digit_of(j),
                        ..before.numbered[j - 1]
                    }),
            decreases i,
        {
            let ghost prev = self@.numbered;
            let moved = self.numbered[i - 1].renamed(char_from_u32(i as u32 + 48));
            self.numbered.set(i, moved);
            proof {
                assert(self@.numbered =~= prev.update(i as int, moved@));
                assert(prev[i - 1] == before.numbered[i - 1]);
                assert(moved@.name == digit_of(i as int));
                assert(self@.numbered[i as int] == (RegisterView {
                    name: digit_of(i as int),
                    ..before.numbered[i - 1]
                }));
            }
            i = i - 1;
        }
        let ghost prev = self@.numbered;
        proof {
            assert forall|j: int| 0 < j < 10 implies prev[j] == (RegisterView {
                name: digit_of(j),
                ..before.numbered[j - 1]
            }) by {
                assert(self@.numbered[j] == prev[j]);
            }
        }
        self.unnamed = Register::new('"', content, linewise);
        let first = Register::new('0', content, linewise);
        self.numbered.set(0, first);
        proof {
            assert(self@.numbered =~= prev.update(0, first@));
            let want = after_delete(before, content@, linewise).numbered;
            assert forall|j: int| 0 <= j < 10 implies self@.numbered[j] == want[j] by {
                if j > 0 {
                    assert(prev[j] == (RegisterView { name: digit_of(j), ..before.numbered[j - 1] }));
                }
            }
            assert(self@.numbered =~= want);
        }
    }

    /// Same as a delete.
    pub fn set_unnamed(&mut self, content: &str, linewise: bool)
        requires
            old(self).wf(),
        ensures
            final(self).wf(),
            slots_ok(final(self)@),
            final(self)@ == after_delete(old(self)@, content@, linewise),
    {
        self.set_unnamed_delete(content, linewise);
    }

    pub fn set_small_delete(&mut self, content: &str)
        ensures
            final(self)@ == (RegistersView { small_delete: rv('-', content@, false), ..old(self)@ }),
            old(self).wf() ==> final(self).wf(),
            slots_ok(old(self)@) ==> slots_ok(final(self)@),
    {
        self.small_delete = Register::new('-', content, false);
    }

    pub fn set_search(&mut self, pattern: &str)
        ensures
            final(self)@ == (RegistersView { search: rv('/', pattern@, false), ..old(self)@ }),
            old(self).wf() ==> final(self).wf(),
            slots_ok(old(self)@) ==> slots_ok(final(self)@),
    {
        self.search = Register::new('/', pattern, false);
    }

    pub fn get_search(&self) -> (r: &str)
        ensures
            r@ == self@.search.content,
    {
        self.search.content.as_str()
    }

    /// Sets one of the read-only registers `%`, `#`, `:` and `.`; other names are ignored.
    pub fn set_readonly(&mut self, name: char, content: &str)
        requires
            old(self).wf(),
        ensures
            final(self).wf(),
            slots_ok(final(self)@),
            readonly_index(name) >= 0 ==> final(self)@ == (RegistersView {
                readonly: old(self)@.readonly.update(readonly_index(name), rv(name, content@, false)),
                ..old(self)@
            }),
            readonly_index(name) < 0 ==> final(self)@ == old(self)@,
    {
        let idx: usize = if name == '%' {
            0
        } else if name == '#' {
            1
        } else if name == ':' {
            2
        } else if name == '.' {
            3
        } else {
            return ;
        };
        self.readonly.set(idx, Register::new(name, content, false));
        proof {
            assert(final(self)@.readonly =~= old(self)@.readonly.update(
                readonly_index(name),
                rv(name, content@, false),
            ));
        }
    }

    /// The system clipboard is not reachable from this library: nothing is read.
    pub fn get_clipboard(&self) -> (r: Option<String>)
        ensures
            r is None,
    {
        None
    }

    /// The system clipboard is not reachable from this library: nothing is written.
    pub fn set_clipboard(&mut self, content: &str)
        ensures
            final(self)@ == old(self)@,
    {
    }

    /// Copies of every register whose content is not empty, in listing order.
    pub fn get_all_registers(&self) -> (r: Vec<Register>)
        requires
            self.wf(),
        ensures
            r@.len() == nonempty(listing(self@)).len(),
            forall|j: int| 0 <= j < r@.len() ==> r@[j]@ == nonempty(listing(self@))[j],
    {
        let ghost g: Seq<RegisterView> = Seq::empty();
        let mut all: Vec<Register> = Vec::new();
        all.push(self.unnamed.duplicate());
        all.push(self.small_delete.duplicate());
        proof {
            g = seq![self@.unnamed, self@.small_delete];
        }
        let mut i: usize = 0;
        while i < 10
            invariant
                i <= 10,
                self.wf(),
                g == seq![self@.unnamed, self@.small_delete] + self@.numbered.subrange(0, i as int),
                all@.len() == g.len(),
                forall|x: int| 0 <= x < g.len() ==> #[trigger] all@[x]@ == g[x],
            decreases 10 - i,
        {
            all.push(self.numbered[i].duplicate());
            proof {
                g = g.push(self@.numbered[i as int]);
                assert(g =~= seq![self@.unnamed, self@.small_delete] + self@.numbered.subrange(0, i + 1));
            }
            i = i + 1;
        }
        let ghost head = seq![self@.unnamed, self@.small_delete] + self@.numbered;
        proof {
            assert(self@.numbered.subrange(0, 10) =~= self@.numbered);
            assert(self@.named.subrange(0, 0) =~= Seq::<Option<RegisterView>>::empty());
            assert(g =~= head + present(self@.named.subrange(0, 0)));
        }
        let mut k: usize = 0;
        while k < 26
            invariant
                k <= 26,
                self.wf(),
                g == head + present(self@.named.subrange(0, k as int)),
                all@.len() == g.len(),
                forall|x: int| 0 <= x < g.len() ==> #[trigger] all@[x]@ == g[x],
            decreases 26 - k,
        {
            proof {
                assert(self@.named.subrange(0, k + 1).drop_last() =~= self@.named.subrange(0, k as int));
                assert(self@.named[k as int] == opt_reg(self.named@[k as int]));
            }
            match &self.named[k] {
                Some(r) => {
                    all.push(r.duplicate());
                    proof {
                        g = g.push(r@);
                        assert(g =~= head + present(self@.named.subrange(0, k + 1)));
                    }
                },
                None => {
                    proof {
                        assert(g =~= head + present(self@.named.subrange(0, k + 1)));
                    }
                },
            }
            k = k + 1;
        }
        proof {
            assert(self@.named.subrange(0, 26) =~= self@.named);
        }
        let mut j: usize = 0;
        while j < 4
            invariant
                j <= 4,
                self.wf(),
                g == head + present(self@.named) + self@.readonly.subrange(0, j as int),
                all@.len() == g.len(),
                forall|x: int| 0 <= x < g.len() ==> #[trigger] all@[x]@ == g[x],
            decreases 4 - j,
        {
            all.push(self.readonly[j].duplicate());
            proof {
                g = g.push(self@.readonly[j as int]);
                assert(g =~= head + present(self@.named) + self@.readonly.subrange(0, j + 1));
            }
            j = j + 1;
        }
        all.push(self.search.duplicate());
        proof {
            g = g.push(self@.search);
            assert(self@.readonly.subrange(0, 4) =~= self@.readonly);
            assert(g =~= listing(self@));
        }
        let ghost h: Seq<RegisterView> = Seq::empty();
        let mut out: Vec<Register> = Vec::new();
        let mut n: usize = 0;
        proof {
            assert(listing(self@).subrange(0, 0) =~= Seq::<RegisterView>::empty());
        }
        while n < all.len()
            invariant
                n <= all@.len(),
                g == listing(self@),
                all@.len() == g.len(),
                forall|x: int| 0 <= x < g.len() ==> #[trigger] all@[x]@ == g[x],
                h == nonempty(listing(self@).subrange(0, n as int)),
                out@.len() == h.len(),
                forall|x: int| 0 <= x < h.len() ==> #[trigger] out@[x]@ == h[x],
            decreases all@.len() - n,
        {
            proof {
                assert(listing(self@).subrange(0, n + 1).drop_last() =~= listing(self@).subrange(
                    0,
                    n as int,
                ));
                assert(all@[n as int]@ == g[n as int]);
            }
            if !all[n].is_empty() {
                out.push(all[n].duplicate());
                proof {
                    h = h.push(g[n as int]);
                }
            }
            n = n + 1;
        }
        proof {
            assert(listing(self@).subrange(0, all@.len() as int) =~= listing(self@));
        }
        out
    }
}

impl Default for RegisterManager {
    fn default() -> (r: RegisterManager)
        ensures
            r.wf(),
            slots_ok(r@),
            r@.unnamed.content.len() == 0,
    {
        RegisterManager::new()
    }
}

/// Deleting `contents` one after another leaves the `k`-th newest in
/// numbered register `k`, for every `k` below ten that a delete reached;
/// in particular, after `n <= 10` deletes, register `n - 1` holds the first.
pub open spec fn deletes(m: RegistersView, contents: Seq<Seq<char>>) -> RegistersView
    decreases contents.len(),
{
    if contents.len() == 0 {
        m
    } else {
        after_delete(deletes(m, contents.drop_last()), contents.last(), false)
    }
}

/// Yanks one after another.
pub open spec fn yanks(m: RegistersView, contents: Seq<Seq<char>>) -> RegistersView
    decreases contents.len(),
{
    if contents.len() == 0 {
        m
    } else {
        after_yank(yanks(m, contents.drop_last()), contents.last(), false)
    }
}

/// After a run of deletes, numbered register `k` holds the content of the
/// `k`-th delete counting back from the newest.
pub proof fn lemma_deletes_shift(m: RegistersView, contents: Seq<Seq<char>>, k: int)
    requires
        m.numbered.len() == 10,
        0 <= k < 10,
        k < contents.len(),
    ensures
        deletes(m, contents).numbered.len() == 10,
        deletes(m, contents).numbered[k].content == contents[contents.len() - 1 - k],
        deletes(m, contents).unnamed.content == contents.last(),
    decreases contents.len(),
{
    if k > 0 {
        lemma_deletes_shift(m, contents.drop_last(), k - 1);
    }
}

/// After `n` deletes with `1 <= n <= 10`, register 0 holds the last content
/// and register `n - 1` the first.
pub proof fn lemma_deletes_first_last(m: RegistersView, contents: Seq<Seq<char>>)
    requires
        m.numbered.len() == 10,
        1 <= contents.len() <= 10,
    ensures
        deletes(m, contents).numbered[0].content == contents.last(),
        deletes(m, contents).numbered[contents.len() - 1].content == contents[0],
{
    lemma_deletes_shift(m, contents, 0);
    lemma_deletes_shift(m, contents, contents.len() - 1);
}

/// Yanks never touch numbered registers 1 to 9.
pub proof fn lemma_yanks_keep_numbered(m: RegistersView, contents: Seq<Seq<char>>, k: int)
    requires
        m.numbered.len() == 10,
        1 <= k < 10,
    ensures
        yanks(m, contents).numbered.len() == 10,
        yanks(m, contents).numbered[k] == m.numbered[k],
    decreases contents.len(),
{
    if contents.len() > 0 {
        lemma_yanks_keep_numbered(m, contents.drop_last(), k);
    }
}

} // verus!
