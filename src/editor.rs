//! The editor: open buffers with one remembered cursor each, the active
//! buffer and cursor, the mode, registers, search, and undo history, with the
//! composite commands built from motions, edits and registers.
use vstd::prelude::*;
use crate::buffer::{Buffer, BufferId, BufferView, inserted, removed};
use crate::buffer_snapshot::{HistoryView, SnapshotManager, restored, snapshot_of};
use crate::cursor::{Cursor, cursor_at, max_col, min, offset_of, on_text};
use crate::edit::{Edit, EditResult, edit_post};
use crate::mode::{Mode, inserting};
use crate::motion::{Motion, lemma_motion_line, motion_result};
use crate::register::{
    slots_ok, RegisterManager, RegisterView, RegistersView, after_delete, after_set, after_yank, listing, lookup,
    nonempty,
};
use crate::replace::{parse_sub, parse_substitute_command, replace_in_buffer, substitution};
use crate::search::{SearchDirection, SearchState, match_list, pick};
use crate::text::{
    CharClass, chars_of, dec, decimal, extend_chars, extend_str, file_name, lemma_line_shape,
    line_chars, line_count, line_start, line_text_at, no_nl, parse_dec, parse_usize, same_chars,
    skip_backward, split_words, string_of, trim_slashes, words,
};
use crate::text_object::{TextObject, object_range};

verus! {

#[derive(Debug, Clone, Copy, PartialEq, Eq, Structural)]
pub struct EditorOptions {
    pub number: bool,
    pub relativenumber: bool,
    pub cursorline: bool,
}

impl Default for EditorOptions {
    fn default() -> (r: EditorOptions)
        ensures
            r == (EditorOptions { number: false, relativenumber: false, cursorline: false }),
    {
        EditorOptions { number: false, relativenumber: false, cursorline: false }
    }
}

/// What the search holds, as mathematical values.
pub ghost struct SearchView {
    pub pattern: Seq<char>,
    pub direction: SearchDirection,
    pub matches: Seq<usize>,
    pub current: Option<usize>,
}

pub open spec fn search_view(s: SearchState) -> SearchView {
    SearchView {
        pattern: s.pattern@,
        direction: s.direction,
        matches: s.matches@,
        current: s.current_match,
    }
}

pub ghost struct EditorView {
    pub buffers: Seq<BufferView>,
    pub cursors: Seq<Cursor>,
    pub current: usize,
    pub cursor: Cursor,
    pub mode: Mode,
    pub next_id: usize,
    pub command_line: Seq<char>,
    pub message: Option<Seq<char>>,
    pub registers: RegistersView,
    pub registers_ok: bool,
    pub history: HistoryView,
    pub search: SearchView,
    pub show_buffer_list: bool,
    pub show_registers_panel: bool,
    pub options: EditorOptions,
}

/// The active buffer.
pub open spec fn cur(v: EditorView) -> BufferView {
    v.buffers[v.current as int]
}

/// The editor's invariant: at least one buffer, ids increasing and below the
/// next id to hand out, the active buffer among them, and the cursor on one
/// of its lines.
pub open spec fn editor_wf(v: EditorView) -> bool {
    &&& shape_ok(v)
    &&& v.cursor.line < line_count(cur(v).text)
}

/// The invariant without its clause on the cursor.
pub open spec fn shape_ok(v: EditorView) -> bool {
    &&& v.buffers.len() >= 1
    &&& v.cursors.len() == v.buffers.len()
    &&& v.current < v.buffers.len()
    &&& forall|i: int, j: int|
        0 <= i < j < v.buffers.len() ==> #[trigger] v.buffers[i].id < #[trigger] v.buffers[j].id
    &&& forall|i: int| 0 <= i < v.buffers.len() ==> #[trigger] v.buffers[i].id < v.next_id
    &&& v.registers_ok
}

/// `c` with its line brought within `t`.
pub open spec fn fit(c: Cursor, t: Seq<char>) -> Cursor {
    Cursor { line: min(c.line as int, line_count(t) - 1) as usize, ..c }
}

/// `c` with its column brought within its line (up to the line break).
pub open spec fn norm(c: Cursor, t: Seq<char>) -> Cursor {
    Cursor { column: min(c.column as int, line_text_at(t, c.line as int).len() as int) as usize, ..c }
}

/// Index of the buffer with id `id`, if open.
pub open spec fn index_of_id(bs: Seq<BufferView>, id: nat) -> Option<int> {
    if exists|i: int| 0 <= i < bs.len() && bs[i].id == id {
        Some(choose|i: int| 0 <= i < bs.len() && bs[i].id == id)
    } else {
        None
    }
}

/// The editor after undoing once: the newest snapshot is restored into the
/// active buffer and the state it replaced becomes redoable.
pub open spec fn undo_step(a: EditorView, b: EditorView) -> bool {
    if a.history.undo.len() > 0 {
        &&& b.history.undo == a.history.undo.drop_last()
        &&& b.history.redo == a.history.redo.push(snapshot_of(cur(a), a.cursor))
        &&& b.buffers == a.buffers.update(a.current as int, restored(cur(a), a.history.undo.last()))
        &&& b.cursor == a.history.undo.last().cursor
        &&& b.current == a.current
    } else {
        b == a
    }
}

/// The editor after redoing once: the mirror of `undo_step`.
pub open spec fn redo_step(a: EditorView, b: EditorView) -> bool {
    if a.history.redo.len() > 0 {
        &&& b.history.redo == a.history.redo.drop_last()
        &&& b.history.undo == a.history.undo.push(snapshot_of(cur(a), a.cursor))
        &&& b.buffers == a.buffers.update(a.current as int, restored(cur(a), a.history.redo.last()))
        &&& b.cursor == a.history.redo.last().cursor
        &&& b.current == a.current
    } else {
        b == a
    }
}

/// A mutating command recorded the state before it for undo and cleared redo.
pub open spec fn recorded(a: EditorView, b: EditorView) -> bool {
    &&& b.history.undo == a.history.undo.push(snapshot_of(cur(a), a.cursor))
    &&& b.history.redo.len() == 0
}

/// Every snapshot that can be restored leaves its cursor on one of its lines.
pub open spec fn history_ok(h: HistoryView) -> bool {
    &&& forall|i: int| 0 <= i < h.undo.len() ==> #[trigger] h.undo[i].cursor.line < line_count(h.undo[i].content)
    &&& forall|i: int| 0 <= i < h.redo.len() ==> #[trigger] h.redo[i].cursor.line < line_count(h.redo[i].content)
}

pub struct Editor {
    pub(crate) buffers: Vec<Buffer>,
    pub(crate) cursors: Vec<Cursor>,
    pub(crate) current: usize,
    pub(crate) cursor: Cursor,
    pub(crate) mode: Mode,
    pub(crate) next_buffer_id: usize,
    pub(crate) command_line: String,
    pub(crate) message: Option<String>,
    pub(crate) registers: RegisterManager,
    pub(crate) history: SnapshotManager,
    pub(crate) search: SearchState,
    pub(crate) show_buffer_list: bool,
    pub(crate) show_registers_panel: bool,
    pub(crate) options: EditorOptions,
}

pub open spec fn opt_seq(m: Option<String>) -> Option<Seq<char>> {
    match m {
        Some(s) => Some(s@),
        None => None,
    }
}

impl View for Editor {
    type V = EditorView;

    closed spec fn view(&self) -> EditorView {
        EditorView {
            buffers: self.buffers@.map_values(|b: Buffer| b@),
            cursors: self.cursors@,
            current: self.current,
            cursor: self.cursor,
            mode: self.mode,
            next_id: self.next_buffer_id,
            command_line: self.command_line@,
            message: opt_seq(self.message),
            registers: self.registers@,
            registers_ok: self.registers.wf(),
            history: self.history@,
            search: search_view(self.search),
            show_buffer_list: self.show_buffer_list,
            show_registers_panel: self.show_registers_panel,
            options: self.options,
        }
    }
}

impl Editor {
    pub open spec fn wf(&self) -> bool {
        editor_wf(self@) && history_ok(self@.history)
    }

    /// One empty buffer with id 0, the cursor at the origin, Normal mode.
    pub fn new() -> (r: Editor)
        ensures
            r.wf(),
            r@.buffers == seq![
                BufferView { id: 0, text: Seq::empty(), path: None, modified: false, read_only: false },
            ],
            r@.cursors == seq![Cursor { line: 0, column: 0, preferred_column: None }],
            r@.current == 0,
            r@.cursor == (Cursor { line: 0, column: 0, preferred_column: None }),
            r@.mode == Mode::Normal,
            r@.next_id == 1,
            r@.message is None,
            r@.history.undo.len() == 0,
            r@.history.redo.len() == 0,
            !r@.show_buffer_list,
            !r@.show_registers_panel,
            r@.options == (EditorOptions { number: false, relativenumber: false, cursorline: false }),
    {
        let b = Buffer::new(BufferId::new(0));
        let buffers = vec![b];
        let cursors = vec![Cursor::at_origin()];
        let r = Editor {
            buffers,
            cursors,
            current: 0,
            cursor: Cursor::at_origin(),
            mode: Mode::Normal,
            next_buffer_id: 1,
            command_line: String::new(),
            message: None,
            registers: RegisterManager::new(),
            history: SnapshotManager::new(),
            search: SearchState::new(),
            show_buffer_list: false,
            show_registers_panel: false,
            options: EditorOptions::default(),
        };
        proof {
            assert(r@.buffers =~= seq![
                BufferView { id: 0, text: Seq::empty(), path: None, modified: false, read_only: false },
            ]);
            assert(r@.cursors =~= seq![Cursor { line: 0, column: 0, preferred_column: None }]);
            assert(Seq::<char>::empty().len() == 0);
            assert(line_count(Seq::<char>::empty()) == 1);
        }
        r
    }

    pub fn current_buffer(&self) -> (r: &Buffer)
        requires
            self.wf(),
        ensures
            r@ == cur(self@),
    {
        &self.buffers[self.current]
    }

    pub fn current_buffer_id(&self) -> (r: BufferId)
        requires
            self.wf(),
        ensures
            r.0 == cur(self@).id,
    {
        self.buffers[self.current].id()
    }

    pub fn buffer_count(&self) -> (r: usize)
        ensures
            r == self@.buffers.len(),
    {
        self.buffers.len()
    }

    pub fn cursor(&self) -> (r: &Cursor)
        ensures
            *r == self@.cursor,
    {
        &self.cursor
    }

    /// Places the cursor, keeping its line within the active buffer.
    pub fn set_cursor(&mut self, cursor: Cursor)
        requires
            old(self).wf(),
        ensures
            final(self).wf(),
            final(self)@ == (EditorView { cursor: fit(cursor, cur(old(self)@).text), ..old(self)@ }),
    {
        let n = self.buffers[self.current].len_lines();
        self.cursor = cursor;
        if self.cursor.line >= n {
            self.cursor.line = n - 1;
        }
    }

    /// Brings the cursor's line back within the active buffer.
    fn fit_cursor(&mut self)
        requires
            shape_ok(old(self)@),
        ensures
            final(self)@ == (EditorView { cursor: fit(old(self)@.cursor, cur(old(self)@).text), ..old(self)@ }),
            final(self).cursor.line < line_count(cur(final(self)@).text),
    {
        let n = self.buffers[self.current].len_lines();
        if self.cursor.line >= n {
            self.cursor.line = n - 1;
        }
    }

    pub fn mode(&self) -> (r: Mode)
        ensures
            r == self@.mode,
    {
        self.mode
    }

    /// Changes mode. Going from Normal to Insert records the state for undo,
    /// so that a whole insert session undoes at once.
    pub fn set_mode(&mut self, mode: Mode)
        requires
            old(self).wf(),
        ensures
            final(self).wf(),
            old(self)@.mode == Mode::Normal && mode == Mode::Insert ==> recorded(old(self)@, final(self)@)
                && final(self)@ == (EditorView { mode, history: final(self)@.history, ..old(self)@ }),
            !(old(self)@.mode == Mode::Normal && mode == Mode::Insert) ==> final(self)@ == (EditorView {
                mode,
                ..old(self)@
            }),
    {
        if self.mode == Mode::Normal && mode == Mode::Insert {
            self.save_state();
        }
        self.mode = mode;
    }

    pub fn command_line(&self) -> (r: &str)
        ensures
            r@ == self@.command_line,
    {
        self.command_line.as_str()
    }

    /// Replaces the text of the command line.
    pub fn set_command_line(&mut self, text: &str)
        ensures
            final(self)@ == (EditorView { command_line: text@, ..old(self)@ }),
    {
        self.command_line = text.to_owned();
    }

    pub fn message(&self) -> (r: Option<&str>)
        ensures
            match r {
                Some(s) => self@.message == Some(s@),
                None => self@.message is None,
            },
    {
        match &self.message {
            Some(s) => Some(s.as_str()),
            None => None,
        }
    }

    pub fn set_message(&mut self, message: &str)
        ensures
            final(self)@ == (EditorView { message: Some(message@), ..old(self)@ }),
    {
        self.message = Some(message.to_owned());
    }

    pub fn clear_message(&mut self)
        ensures
            final(self)@ == (EditorView { message: None, ..old(self)@ }),
    {
        self.message = None;
    }

    pub fn options(&self) -> (r: &EditorOptions)
        ensures
            *r == self@.options,
    {
        &self.options
    }

    pub fn set_options(&mut self, options: EditorOptions)
        ensures
            final(self)@ == (EditorView { options, ..old(self)@ }),
    {
        self.options = options;
    }

    pub fn show_buffer_list(&self) -> (r: bool)
        ensures
            r == self@.show_buffer_list,
    {
        self.show_buffer_list
    }

    pub fn set_show_buffer_list(&mut self, show: bool)
        ensures
            final(self)@ == (EditorView { show_buffer_list: show, ..old(self)@ }),
    {
        self.show_buffer_list = show;
    }

    pub fn show_registers_panel(&self) -> (r: bool)
        ensures
            r == self@.show_registers_panel,
    {
        self.show_registers_panel
    }

    pub fn set_show_registers_panel(&mut self, show: bool)
        ensures
            final(self)@ == (EditorView { show_registers_panel: show, ..old(self)@ }),
    {
        self.show_registers_panel = show;
    }

    pub fn register_manager(&self) -> (r: &RegisterManager)
        requires
            self.wf(),
        ensures
            r@ == self@.registers,
            r.wf(),
            slots_ok(r@),
    {
        &self.registers
    }

    pub fn search_state(&self) -> (r: &SearchState)
        ensures
            search_view(*r) == self@.search,
    {
        &self.search
    }

    /// Records the active buffer and cursor for undo, and forgets what could be redone.
    pub fn save_state(&mut self)
        requires
            old(self).wf(),
        ensures
            final(self).wf(),
            recorded(old(self)@, final(self)@),
            final(self)@ == (EditorView { history: final(self)@.history, ..old(self)@ }),
    {
        let ghost h0 = self@.history;
        let ghost v0 = self@;
        proof {
            assert(self.buffers@[self.current as int]@ == cur(self@));
            assert(v0.cursor.line < line_count(cur(v0).text));
        }
        self.history.save(&self.buffers[self.current], &self.cursor);
        proof {
            assert(self@.history.undo.last() == snapshot_of(cur(v0), v0.cursor));
            assert(self@.history.undo.len() == h0.undo.len() + 1);
        }
        proof {
            let h = self@.history;
            assert forall|i: int| 0 <= i < h.undo.len() implies #[trigger] h.undo[i].cursor.line
                < line_count(h.undo[i].content) by {
                if i < h0.undo.len() {
                    assert(h.undo[i] == h0.undo[i]);
                    assert(h0.undo[i].cursor.line < line_count(h0.undo[i].content));
                } else {
                    assert(h.undo[i] == snapshot_of(cur(v0), v0.cursor));
                }
            }
            assert(self.registers.wf());
        }
    }

    /// Restores the newest recorded state into the active buffer.
    pub fn undo(&mut self)
        requires
            old(self).wf(),
        ensures
            final(self).wf(),
            undo_step(old(self)@, final(self)@),
            old(self)@.history.undo.len() > 0 ==> final(self)@ == (EditorView {
                buffers: final(self)@.buffers,
                cursor: final(self)@.cursor,
                history: final(self)@.history,
                ..old(self)@
            }),
    {
        let cur_idx = self.current;
        let ghost before = self@;
        proof {
            assert(self.buffers@[cur_idx as int]@ == cur(self@));
        }
        let mut b = self.buffers.remove(cur_idx);
        let ok = self.history.undo(&mut b, &mut self.cursor);
        self.buffers.insert(cur_idx, b);
        proof {
            let h = self@.history;
            let h0 = before.history;
            if ok {
                assert forall|i: int| 0 <= i < h.undo.len() implies #[trigger] h.undo[i].cursor.line
                    < line_count(h.undo[i].content) by {
                    assert(h.undo[i] == h0.undo[i]);
                    assert(h0.undo[i].cursor.line < line_count(h0.undo[i].content));
                }
                assert forall|i: int| 0 <= i < h.redo.len() implies #[trigger] h.redo[i].cursor.line
                    < line_count(h.redo[i].content) by {
                    if i < h0.redo.len() {
                        assert(h.redo[i] == h0.redo[i]);
                        assert(h0.redo[i].cursor.line < line_count(h0.redo[i].content));
                    } else {
                        assert(h.redo[i] == snapshot_of(cur(before), before.cursor));
                    }
                }
                assert(h0.undo.last() == h0.undo[h0.undo.len() - 1]);
            }
            assert(self.registers.wf());
            assert(self.buffers@ =~= old(self).buffers@.update(cur_idx as int, b));
            assert(self@.buffers =~= before.buffers.update(cur_idx as int, b@));
            if ok {
                assert(before.history.undo.last() == before.history.undo[before.history.undo.len() - 1]);
                assert(self@.history.redo.last() == snapshot_of(cur(before), before.cursor));
                assert forall|i: int| 0 <= i < self@.buffers.len() implies #[trigger] self@.buffers[i].id
                    == before.buffers[i].id by {}
            } else {
                assert(self@.buffers =~= before.buffers);
            }
        }
    }

    /// Restores the newest undone state into the active buffer.
    pub fn redo(&mut self)
        requires
            old(self).wf(),
        ensures
            final(self).wf(),
            redo_step(old(self)@, final(self)@),
            old(self)@.history.redo.len() > 0 ==> final(self)@ == (EditorView {
                buffers: final(self)@.buffers,
                cursor: final(self)@.cursor,
                history: final(self)@.history,
                ..old(self)@
            }),
    {
        let cur_idx = self.current;
        let ghost before = self@;
        proof {
            assert(self.buffers@[cur_idx as int]@ == cur(self@));
        }
        let mut b = self.buffers.remove(cur_idx);
        let ok = self.history.redo(&mut b, &mut self.cursor);
        self.buffers.insert(cur_idx, b);
        proof {
            let h = self@.history;
            let h0 = before.history;
            if ok {
                assert forall|i: int| 0 <= i < h.redo.len() implies #[trigger] h.redo[i].cursor.line
                    < line_count(h.redo[i].content) by {
                    assert(h.redo[i] == h0.redo[i]);
                    assert(h0.redo[i].cursor.line < line_count(h0.redo[i].content));
                }
                assert forall|i: int| 0 <= i < h.undo.len() implies #[trigger] h.undo[i].cursor.line
                    < line_count(h.undo[i].content) by {
                    if i < h0.undo.len() {
                        assert(h.undo[i] == h0.undo[i]);
                        assert(h0.undo[i].cursor.line < line_count(h0.undo[i].content));
                    } else {
                        assert(h.undo[i] == snapshot_of(cur(before), before.cursor));
                    }
                }
                assert(h0.redo.last() == h0.redo[h0.redo.len() - 1]);
            }
            assert(self.registers.wf());
            assert(self.buffers@ =~= old(self).buffers@.update(cur_idx as int, b));
            assert(self@.buffers =~= before.buffers.update(cur_idx as int, b@));
            if ok {
                assert(self@.history.undo.last() == snapshot_of(cur(before), before.cursor));
                assert forall|i: int| 0 <= i < self@.buffers.len() implies #[trigger] self@.buffers[i].id
                    == before.buffers[i].id by {}
            } else {
                assert(self@.buffers =~= before.buffers);
            }
        }
    }

    /// Moves the cursor by `motion`.
    pub fn execute_motion(&mut self, motion: Motion)
        requires
            old(self).wf(),
        ensures
            final(self).wf(),
            final(self)@ == (EditorView {
                cursor: motion_result(motion, old(self)@.cursor, cur(old(self)@).text),
                ..old(self)@
            }),
    {
        proof {
            lemma_motion_line(motion, self.cursor, cur(self@).text);
        }
        let mut c = self.cursor;
        motion.execute(&mut c, &self.buffers[self.current]);
        self.cursor = c;
    }
}

/// "缓冲区 {id} 不存在": no open buffer has this id.
pub open spec fn not_found_msg(id: usize) -> Seq<char> {
    "缓冲区 "@ + dec(id as nat) + " 不存在"@
}

/// The refusal to close a buffer with unsaved changes.
pub open spec fn unsaved_msg(id: usize) -> Seq<char> {
    "缓冲区 "@ + dec(id as nat) + " 有未保存的修改，请使用 :bd! 强制删除"@
}

/// The refusal to move to another buffer when only one is open.
pub open spec fn no_other_msg() -> Seq<char> {
    "没有其他缓冲区"@
}

/// The refusal to open a buffer once every id has been handed out.
pub open spec fn no_id_msg() -> Seq<char> {
    "no buffer id left"@
}

pub open spec fn err_is(r: Result<(), String>, m: Seq<char>) -> bool {
    match r {
        Err(s) => s@ == m,
        Ok(_) => false,
    }
}

/// Number of buffers whose id is below `id`: where a buffer with that id goes.
pub open spec fn rank(bs: Seq<BufferView>, id: nat) -> int
    decreases bs.len(),
{
    if bs.len() == 0 {
        0
    } else {
        rank(bs.drop_last(), id) + if bs.last().id < id {
            1int
        } else {
            0int
        }
    }
}

/// The editor after opening a new empty buffer with the next id and making
/// it active in Normal mode, the cursor at the origin.
pub open spec fn with_new_buffer(o: EditorView) -> EditorView {
    EditorView {
        buffers: o.buffers.push(
            BufferView {
                id: o.next_id as nat,
                text: Seq::empty(),
                path: None,
                modified: false,
                read_only: false,
            },
        ),
        cursors: o.cursors.update(o.current as int, o.cursor).push(
            Cursor { line: 0, column: 0, preferred_column: None },
        ),
        current: o.buffers.len() as usize,
        cursor: Cursor { line: 0, column: 0, preferred_column: None },
        mode: Mode::Normal,
        next_id: (o.next_id + 1) as usize,
        ..o
    }
}

/// What closing buffer `i` of `o` leaves in `f`: one buffer fewer (or a new
/// empty one in place of the only one), none with the closed id, another
/// buffer active, and nothing else changed when the closed one was not active.
pub open spec fn closed(o: EditorView, f: EditorView, i: int) -> bool {
    &&& f.buffers.len() == if o.buffers.len() > 1 {
        o.buffers.len() - 1
    } else {
        1
    }
    &&& forall|j: int| 0 <= j < f.buffers.len() ==> #[trigger] f.buffers[j].id != o.buffers[i].id
    &&& cur(f).id != o.buffers[i].id
    &&& i != o.current ==> f.buffers == o.buffers.remove(i) && cur(f) == cur(o) && f.cursor == o.cursor
}

/// The cursor remembered for buffer `i` as it comes back into view.
pub open spec fn returning_cursor(v: EditorView, i: int) -> Cursor {
    fit(v.cursors[i], v.buffers[i].text)
}

/// The editor after making buffer `i` active: the cursor of the buffer left
/// is remembered, and the one remembered for `i` comes back.
pub open spec fn switched(v: EditorView, i: int) -> EditorView {
    EditorView {
        cursors: v.cursors.update(v.current as int, v.cursor),
        current: i as usize,
        cursor: returning_cursor(EditorView { cursors: v.cursors.update(v.current as int, v.cursor), ..v }, i),
        ..v
    }
}

impl Editor {
    fn find_index(&self, id: usize) -> (r: Option<usize>)
        requires
            self.wf(),
        ensures
            r == (match index_of_id(self@.buffers, id as nat) {
                Some(i) => Some(i as usize),
                None => None::<usize>,
            }),
            r matches Some(i) ==> i < self@.buffers.len() && self@.buffers[i as int].id == id,
    {
        let mut i: usize = 0;
        while i < self.buffers.len()
            invariant
                self.wf(),
                i <= self.buffers@.len(),
                forall|j: int| 0 <= j < i ==> #[trigger] self@.buffers[j].id != id,
            decreases self.buffers@.len() - i,
        {
            if self.buffers[i].id().as_usize() == id {
                proof {
                    let bs = self@.buffers;
                    assert(bs[i as int].id == id);
                    let k = choose|k: int| 0 <= k < bs.len() && bs[k].id == id;
                    if k != i {
                        if k < i {
                            assert(bs[k].id < bs[i as int].id);
                        } else {
                            assert(bs[i as int].id < bs[k].id);
                        }
                    }
                }
                return Some(i);
            }
            i = i + 1;
        }
        None
    }

    fn not_found(id: usize) -> (r: String)
        ensures
            r@ == not_found_msg(id),
    {
        let mut v: Vec<char> = Vec::new();
        extend_str(&mut v, "缓冲区 ");
        let d = decimal(id);
        extend_chars(&mut v, &d);
        extend_str(&mut v, " 不存在");
        string_of(v.as_slice())
    }

    /// Makes buffer `i` active, remembering the cursor of the one left.
    fn activate(&mut self, i: usize)
        requires
            old(self).wf(),
            i < old(self)@.buffers.len(),
        ensures
            final(self).wf(),
            final(self)@ == switched(old(self)@, i as int),
    {
        let c = self.cursor;
        self.cursors.set(self.current, c);
        self.current = i;
        let n = self.buffers[i].len_lines();
        let mut back = self.cursors[i];
        if back.line >= n {
            back.line = n - 1;
        }
        self.cursor = back;
        proof {
            assert(self@.cursors =~= old(self)@.cursors.update(old(self)@.current as int, c));
        }
    }

    /// Makes the buffer with id `buffer_id` active.
    pub fn switch_buffer(&mut self, buffer_id: BufferId) -> (r: Result<(), String>)
        requires
            old(self).wf(),
        ensures
            final(self).wf(),
            match index_of_id(old(self)@.buffers, buffer_id.0 as nat) {
                Some(i) => r is Ok && final(self)@ == switched(old(self)@, i),
                None => err_is(r, not_found_msg(buffer_id.0)) && final(self)@ == old(self)@,
            },
    {
        match self.find_index(buffer_id.as_usize()) {
            Some(i) => {
                self.activate(i);
                Ok(())
            },
            None => Err(Editor::not_found(buffer_id.as_usize())),
        }
    }

    /// Moves to the buffer with the next larger id, wrapping around.
    pub fn next_buffer(&mut self) -> (r: Result<(), String>)
        requires
            old(self).wf(),
        ensures
            final(self).wf(),
            old(self)@.buffers.len() <= 1 ==> err_is(r, no_other_msg()) && final(self)@ == old(self)@,
            old(self)@.buffers.len() > 1 ==> r is Ok && final(self)@ == switched(
                old(self)@,
                (old(self)@.current + 1) % (old(self)@.buffers.len() as int),
            ),
    {
        let n = self.buffers.len();
        if n <= 1 {
            return Err("没有其他缓冲区".to_owned());
        }
        let i = (self.current + 1) % n;
        self.activate(i);
        Ok(())
    }

    /// Moves to the buffer with the next smaller id, wrapping around.
    pub fn prev_buffer(&mut self) -> (r: Result<(), String>)
        requires
            old(self).wf(),
        ensures
            final(self).wf(),
            old(self)@.buffers.len() <= 1 ==> err_is(r, no_other_msg()) && final(self)@ == old(self)@,
            old(self)@.buffers.len() > 1 ==> r is Ok && final(self)@ == switched(
                old(self)@,
                if old(self)@.current == 0 {
                    old(self)@.buffers.len() - 1
                } else {
                    old(self)@.current - 1
                },
            ),
    {
        let n = self.buffers.len();
        if n <= 1 {
            return Err("没有其他缓冲区".to_owned());
        }
        let i = if self.current == 0 {
            n - 1
        } else {
            self.current - 1
        };
        self.activate(i);
        Ok(())
    }

    /// Appends `buffer` (whose id is the next one to hand out) with the
    /// cursor at the origin and makes it active in Normal mode.
    fn push_new(&mut self, buffer: Buffer)
        requires
            old(self).wf(),
            old(self)@.next_id < usize::MAX,
            buffer@.id == old(self)@.next_id,
        ensures
            final(self).wf(),
            final(self)@ == (EditorView {
                buffers: old(self)@.buffers.push(buffer@),
                cursors: old(self)@.cursors.update(old(self)@.current as int, old(self)@.cursor).push(
                    Cursor { line: 0, column: 0, preferred_column: None },
                ),
                current: old(self)@.buffers.len() as usize,
                cursor: Cursor { line: 0, column: 0, preferred_column: None },
                mode: Mode::Normal,
                next_id: (old(self)@.next_id + 1) as usize,
                ..old(self)@
            }),
    {
        let c = self.cursor;
        self.cursors.set(self.current, c);
        self.buffers.push(buffer);
        self.cursors.push(Cursor::at_origin());
        self.next_buffer_id = self.next_buffer_id + 1;
        self.current = self.buffers.len() - 1;
        self.cursor = Cursor::at_origin();
        self.mode = Mode::Normal;
        proof {
            assert(self@.buffers =~= old(self)@.buffers.push(buffer@));
            assert(self@.cursors =~= old(self)@.cursors.update(old(self)@.current as int, c).push(
                Cursor { line: 0, column: 0, preferred_column: None },
            ));
            assert(line_count(self@.buffers[self@.current as int].text) >= 1);
        }
    }

    /// Opens a new empty buffer and makes it active. Nothing happens once
    /// every id has been handed out.
    pub fn create_new_buffer(&mut self)
        requires
            old(self).wf(),
        ensures
            final(self).wf(),
            old(self)@.next_id < usize::MAX ==> final(self)@ == (EditorView {
                buffers: old(self)@.buffers.push(
                    BufferView {
                        id: old(self)@.next_id as nat,
                        text: Seq::empty(),
                        path: None,
                        modified: false,
                        read_only: false,
                    },
                ),
                cursors: old(self)@.cursors.update(old(self)@.current as int, old(self)@.cursor).push(
                    Cursor { line: 0, column: 0, preferred_column: None },
                ),
                current: old(self)@.buffers.len() as usize,
                cursor: Cursor { line: 0, column: 0, preferred_column: None },
                mode: Mode::Normal,
                next_id: (old(self)@.next_id + 1) as usize,
                ..old(self)@
            }),
            old(self)@.next_id == usize::MAX ==> final(self)@ == old(self)@,
    {
        if self.next_buffer_id == usize::MAX {
            return ;
        }
        let b = Buffer::new(BufferId::new(self.next_buffer_id));
        self.push_new(b);
    }

    /// Opens a buffer for the file at `path`: with `content` when the file
    /// was read, empty when it does not exist yet. The new buffer becomes
    /// active in Normal mode with the cursor at the origin.
    pub fn open_buffer(&mut self, path: &str, content: Option<&str>) -> (r: Result<(), String>)
        requires
            old(self).wf(),
        ensures
            final(self).wf(),
            old(self)@.next_id == usize::MAX ==> err_is(r, no_id_msg()) && final(self)@ == old(self)@,
            old(self)@.next_id < usize::MAX ==> r is Ok && final(self)@ == (EditorView {
                buffers: old(self)@.buffers.push(
                    BufferView {
                        id: old(self)@.next_id as nat,
                        text: match content {
                            Some(c) => c@,
                            None => Seq::empty(),
                        },
                        path: Some(path@),
                        modified: false,
                        read_only: false,
                    },
                ),
                cursors: old(self)@.cursors.update(old(self)@.current as int, old(self)@.cursor).push(
                    Cursor { line: 0, column: 0, preferred_column: None },
                ),
                current: old(self)@.buffers.len() as usize,
                cursor: Cursor { line: 0, column: 0, preferred_column: None },
                mode: Mode::Normal,
                next_id: (old(self)@.next_id + 1) as usize,
                ..old(self)@
            }),
    {
        if self.next_buffer_id == usize::MAX {
            return Err("no buffer id left".to_owned());
        }
        let id = BufferId::new(self.next_buffer_id);
        let b = match content {
            Some(c) => Buffer::from_content(id, path, c),
            None => Buffer::new_with_path(id, path),
        };
        self.push_new(b);
        Ok(())
    }

    /// Adds `buffer` with `cursor` as its remembered cursor, in id order; an
    /// open buffer with the same id is replaced. Returns false, changing
    /// nothing, for the largest id, which cannot be followed by another.
    #[verifier::rlimit(100)]
    pub fn add_buffer(&mut self, buffer: Buffer, cursor: Cursor) -> (r: bool)
        requires
            old(self).wf(),
        ensures
            final(self).wf(),
            r == (buffer@.id < usize::MAX),
            !r ==> final(self)@ == old(self)@,
            r ==> match index_of_id(old(self)@.buffers, buffer@.id) {
                Some(i) => final(self)@.buffers == old(self)@.buffers.update(i, buffer@)
                    && final(self)@.cursors == old(self)@.cursors.update(i, cursor)
                    && final(self)@.current == old(self)@.current,
                None => final(self)@.buffers == old(self)@.buffers.insert(
                    rank(old(self)@.buffers, buffer@.id),
                    buffer@,
                ) && final(self)@.cursors == old(self)@.cursors.insert(
                    rank(old(self)@.buffers, buffer@.id),
                    cursor,
                ) && final(self)@.current == if rank(old(self)@.buffers, buffer@.id)
                    <= old(self)@.current {
                    old(self)@.current + 1
                } else {
                    old(self)@.current as int
                },
            },
            r ==> final(self)@.cursor == fit(old(self)@.cursor, cur(final(self)@).text),
            r ==> final(self)@.next_id == if buffer@.id < old(self)@.next_id {
                old(self)@.next_id as int
            } else {
                (buffer@.id + 1) as int
            },
            r ==> final(self)@.mode == old(self)@.mode && final(self)@.history == old(self)@.history
                && final(self)@.registers == old(self)@.registers,
    {
        let id = buffer.id().as_usize();
        if id == usize::MAX {
            return false;
        }
        let ghost before = self@;
        let mut k: usize = 0;
        while k < self.buffers.len() && self.buffers[k].id().as_usize() < id
            invariant
                self.wf(),
                self@ == before,
                k <= self.buffers@.len(),
                forall|j: int| 0 <= j < k ==> #[trigger] self@.buffers[j].id < id,
                rank(self@.buffers.subrange(0, k as int), id as nat) == k,
            decreases self.buffers@.len() - k,
        {
            proof {
                assert(self@.buffers.subrange(0, k + 1).drop_last() =~= self@.buffers.subrange(0, k as int));
            }
            k = k + 1;
        }
        proof {
            let bs = self@.buffers;
            // every later buffer has an id at least `id`
            assert forall|j: int| k <= j < bs.len() implies #[trigger] bs[j].id >= id by {
                if j > k {
                    assert(bs[k as int].id < bs[j].id);
                }
            }
            lemma_rank_split(bs, id as nat, k as int);
        }
        let same = k < self.buffers.len() && self.buffers[k].id().as_usize() == id;
        if same {
            proof {
                let bs = self@.buffers;
                assert(index_of_id(bs, id as nat) == Some(k as int)) by {
                    let w = choose|w: int| 0 <= w < bs.len() && bs[w].id == id;
                    if w != k {
                        if w < k {
                            assert(bs[w].id < bs[k as int].id);
                        } else {
                            assert(bs[k as int].id < bs[w].id);
                        }
                    }
                }
            }
            self.buffers.set(k, buffer);
            self.cursors.set(k, cursor);
            proof {
                assert(self@.buffers =~= before.buffers.update(k as int, buffer@));
            }
        } else {
            proof {
                let bs = self@.buffers;
                assert forall|j: int| 0 <= j < bs.len() implies bs[j].id != id by {
                    if j >= k {
                        if j > k {
                            assert(bs[k as int].id < bs[j].id);
                        }
                    }
                }
            }
            self.buffers.insert(k, buffer);
            self.cursors.insert(k, cursor);
            if k <= self.current {
                self.current = self.current + 1;
            }
            proof {
                assert(self@.buffers =~= before.buffers.insert(k as int, buffer@));
                assert(self@.cursors =~= before.cursors.insert(k as int, cursor));
                let bs = self@.buffers;
                assert forall|i: int, j: int| 0 <= i < j < bs.len() implies #[trigger] bs[i].id
                    < #[trigger] bs[j].id by {
                    if i < k && j > k {
                        assert(before.buffers[i].id < id);
                    }
                }
            }
        }
        if id >= self.next_buffer_id {
            self.next_buffer_id = id + 1;
        }
        self.fit_cursor();
        true
    }

    /// Closes the buffer `buffer_id`; `force` closes it even with unsaved
    /// changes. Closing the active buffer first moves to the open buffer
    /// with the smallest other id, or to a new empty buffer if it was the
    /// only one.
    fn close_buffer(&mut self, buffer_id: BufferId, force: bool) -> (r: Result<(), String>)
        requires
            old(self).wf(),
        ensures
            final(self).wf(),
            index_of_id(old(self)@.buffers, buffer_id.0 as nat) is None ==> err_is(
                r,
                not_found_msg(buffer_id.0),
            ) && final(self)@ == old(self)@,
            match index_of_id(old(self)@.buffers, buffer_id.0 as nat) {
                Some(i) => {
                    &&& !force && old(self)@.buffers[i].modified ==> err_is(r, unsaved_msg(buffer_id.0))
                        && final(self)@ == old(self)@
                    &&& (force || !old(self)@.buffers[i].modified) && (old(self)@.buffers.len() > 1
                        || old(self)@.next_id < usize::MAX) ==> r is Ok && closed(old(self)@, final(self)@, i)
                },
                None => true,
            },
    {
        let idx = match self.find_index(buffer_id.as_usize()) {
            Some(i) => i,
            None => {
                return Err(Editor::not_found(buffer_id.as_usize()));
            },
        };
        if !force && self.buffers[idx].is_modified() {
            let mut v: Vec<char> = Vec::new();
            extend_str(&mut v, "缓冲区 ");
            let d = decimal(buffer_id.as_usize());
            extend_chars(&mut v, &d);
            extend_str(&mut v, " 有未保存的修改，请使用 :bd! 强制删除");
            return Err(string_of(v.as_slice()));
        }
        if self.buffers.len() == 1 && self.next_buffer_id == usize::MAX {
            return Err("no buffer id left".to_owned());
        }
        let ghost before = self@;
        proof {
            assert(before.buffers[idx as int].id == buffer_id.0);
        }
        if idx == self.current {
            if self.buffers.len() > 1 {
                let other = if idx == 0 {
                    1
                } else {
                    0
                };
                self.activate(other);
            } else {
                let b = Buffer::new(BufferId::new(self.next_buffer_id));
                self.push_new(b);
            }
        }
        let ghost mid = self@;
        proof {
            assert(mid.buffers.len() >= 2);
            assert(mid.current != idx);
            assert(mid.buffers[idx as int] == before.buffers[idx as int]);
        }
        self.buffers.remove(idx);
        self.cursors.remove(idx);
        if idx < self.current {
            self.current = self.current - 1;
        }
        proof {
            assert(self@.buffers =~= mid.buffers.remove(idx as int));
            assert(self@.cursors =~= mid.cursors.remove(idx as int));
            let bs = self@.buffers;
            assert forall|i: int, j: int| 0 <= i < j < bs.len() implies #[trigger] bs[i].id
                < #[trigger] bs[j].id by {
                let i2 = if i < idx { i } else { i + 1 };
                let j2 = if j < idx { j } else { j + 1 };
                assert(bs[i] == mid.buffers[i2]);
                assert(bs[j] == mid.buffers[j2]);
            }
            assert forall|i: int| 0 <= i < bs.len() implies #[trigger] bs[i].id < self@.next_id by {
                let i2 = if i < idx { i } else { i + 1 };
                assert(bs[i] == mid.buffers[i2]);
            }
            assert(cur(self@) == cur(mid));
            assert forall|w: int| 0 <= w < bs.len() implies #[trigger] bs[w].id != before.buffers[idx as int].id by {
                let w2 = if w < idx { w } else { w + 1 };
                assert(bs[w] == mid.buffers[w2]);
                if w2 < idx {
                    assert(mid.buffers[w2].id < mid.buffers[idx as int].id);
                } else {
                    assert(mid.buffers[idx as int].id < mid.buffers[w2].id);
                }
            }
            assert(bs[self@.current as int].id != before.buffers[idx as int].id);
        }
        Ok(())
    }

    /// Closes the buffer `buffer_id`, refusing if it has unsaved changes.
    pub fn delete_buffer(&mut self, buffer_id: BufferId) -> (r: Result<(), String>)
        requires
            old(self).wf(),
        ensures
            final(self).wf(),
            index_of_id(old(self)@.buffers, buffer_id.0 as nat) is None ==> err_is(
                r,
                not_found_msg(buffer_id.0),
            ) && final(self)@ == old(self)@,
            match index_of_id(old(self)@.buffers, buffer_id.0 as nat) {
                Some(i) => {
                    &&& old(self)@.buffers[i].modified ==> err_is(r, unsaved_msg(buffer_id.0))
                        && final(self)@ == old(self)@
                    &&& !old(self)@.buffers[i].modified && (old(self)@.buffers.len() > 1
                        || old(self)@.next_id < usize::MAX) ==> r is Ok && closed(old(self)@, final(self)@, i)
                },
                None => true,
            },
    {
        self.close_buffer(buffer_id, false)
    }

    /// Closes the buffer `buffer_id` even with unsaved changes; at least one
    /// buffer stays open.
    pub fn delete_buffer_force(&mut self, buffer_id: BufferId) -> (r: Result<(), String>)
        requires
            old(self).wf(),
        ensures
            final(self).wf(),
            final(self)@.buffers.len() >= 1,
            index_of_id(old(self)@.buffers, buffer_id.0 as nat) is None ==> err_is(
                r,
                not_found_msg(buffer_id.0),
            ) && final(self)@ == old(self)@,
            match index_of_id(old(self)@.buffers, buffer_id.0 as nat) {
                Some(i) => old(self)@.buffers.len() > 1 || old(self)@.next_id < usize::MAX ==> r is Ok
                    && closed(old(self)@, final(self)@, i),
                None => true,
            },
    {
        self.close_buffer(buffer_id, true)
    }
}

/// The register a command writes to: the one named, or the unnamed one.
pub open spec fn reg_or_unnamed(r: Option<char>) -> char {
    match r {
        Some(c) => c,
        None => '"',
    }
}

/// The span that an operator with `motion` covers from `c` in `t`: the
/// offsets before and after the motion, ordered, cut at the first line break
/// for the two word motions, and whether the motion went forward.
pub open spec fn motion_span(m: Motion, c: Cursor, t: Seq<char>) -> (int, int, bool) {
    let a = offset_of(c, t);
    let b = pos_of(motion_result(m, c, t), t);
    let lo = min(a, b);
    let hi0 = if a < b { b } else { a };
    let hi = if (m == Motion::WordForward || m == Motion::WordBackward) && !no_nl(t.subrange(lo, hi0)) {
        lo + first_nl(t.subrange(lo, hi0))
    } else {
        hi0
    };
    (lo, hi, a < b)
}

/// The offset of `c`, limited to the end of `t`.
pub open spec fn pos_of(c: Cursor, t: Seq<char>) -> int {
    min(offset_of(c, t), t.len() as int)
}

/// Index of the first line break of `s`.
pub open spec fn first_nl(s: Seq<char>) -> int
    decreases s.len(),
{
    if s.len() == 0 {
        0
    } else if s[0] == '\n' {
        0
    } else {
        1 + first_nl(s.subrange(1, s.len() as int))
    }
}

impl Editor {
    /// The cursor with its column brought within its line.
    fn norm_cursor(&self) -> (r: Cursor)
        requires
            self.wf(),
        ensures
            r == norm(self@.cursor, cur(self@).text),
            on_text(r, cur(self@).text),
            offset_of(r, cur(self@).text) <= cur(self@).text.len(),
            cur(self@).text.len() <= usize::MAX,
    {
        let _total = self.buffers[self.current].len_chars();
        let n = self.buffers[self.current].line_text_chars(self.cursor.line).len();
        let mut c = self.cursor;
        if c.column > n {
            c.column = n;
        }
        proof {
            lemma_line_shape(cur(self@).text, c.line as nat);
        }
        c
    }

    /// The character offset of a cursor on a line of the active buffer,
    /// limited to the end of the text.
    fn pos(&self, c: Cursor) -> (r: usize)
        requires
            self.wf(),
            c.line < line_count(cur(self@).text),
        ensures
            r == pos_of(c, cur(self@).text),
    {
        let b = &self.buffers[self.current];
        let n = b.len_chars();
        proof {
            crate::text::lemma_line_start(b@.text, c.line as nat);
        }
        let s = b.line_to_char(c.line);
        if c.column <= n - s {
            s + c.column
        } else {
            n
        }
    }

    /// Inserts into the active buffer; only the cursor may need fitting afterwards.
    fn buf_insert(&mut self, at: usize, text: &str)
        requires
            old(self).wf(),
        ensures
            shape_ok(final(self)@),
            history_ok(final(self)@.history),
            final(self)@ == (EditorView {
                buffers: old(self)@.buffers.update(
                    old(self)@.current as int,
                    inserted(cur(old(self)@), at as int, text@),
                ),
                ..old(self)@
            }),
    {
        let i = self.current;
        self.buffers[i].insert(at, text);
        proof {
            assert(self@.buffers =~= old(self)@.buffers.update(
                i as int,
                inserted(cur(old(self)@), at as int, text@),
            ));
        }
    }

    fn buf_remove(&mut self, at: usize, len: usize)
        requires
            old(self).wf(),
        ensures
            shape_ok(final(self)@),
            history_ok(final(self)@.history),
            final(self)@ == (EditorView {
                buffers: old(self)@.buffers.update(
                    old(self)@.current as int,
                    removed(cur(old(self)@), at as int, len as int),
                ),
                ..old(self)@
            }),
    {
        let i = self.current;
        self.buffers[i].remove(at, len);
        proof {
            assert(self@.buffers =~= old(self)@.buffers.update(
                i as int,
                removed(cur(old(self)@), at as int, len as int),
            ));
        }
    }

    /// Inserts `text` into the active buffer at `char_idx` (clamped to the
    /// text), keeping the cursor's line within the buffer.
    pub fn insert_into_buffer(&mut self, char_idx: usize, text: &str)
        requires
            old(self).wf(),
        ensures
            final(self).wf(),
            final(self)@ == (EditorView {
                buffers: old(self)@.buffers.update(
                    old(self)@.current as int,
                    inserted(cur(old(self)@), char_idx as int, text@),
                ),
                cursor: fit(old(self)@.cursor, inserted(cur(old(self)@), char_idx as int, text@).text),
                ..old(self)@
            }),
    {
        self.buf_insert(char_idx, text);
        self.fit_cursor();
    }

    /// Runs `edit` at the cursor (its column first brought within its line),
    /// after recording the state for undo. A buffer of the largest possible
    /// size is left alone.
    pub fn execute_edit(&mut self, edit: Edit) -> (r: Option<EditResult>)
        requires
            old(self).wf(),
        ensures
            final(self).wf(),
            final(self)@.current == old(self)@.current,
            final(self)@.buffers.len() == old(self)@.buffers.len(),
            recorded(old(self)@, final(self)@),
            cur(old(self)@).text.len() < usize::MAX ==> exists|c1: Cursor|
                edit_post(edit, norm(old(self)@.cursor, cur(old(self)@).text), cur(old(self)@), c1, cur(final(self)@), r)
                    && final(self)@.cursor == fit(c1, cur(final(self)@).text),
            cur(old(self)@).text.len() == usize::MAX ==> r is None && final(self)@.buffers == old(self)@.buffers,
            final(self)@.buffers.len() == old(self)@.buffers.len(),
            final(self)@.current == old(self)@.current,
            forall|i: int| 0 <= i < old(self)@.buffers.len() && i != old(self)@.current
                ==> final(self)@.buffers[i] == old(self)@.buffers[i],
    {
        self.save_state();
        let c = self.norm_cursor();
        let i = self.current;
        if self.buffers[i].len_chars() == usize::MAX {
            return None;
        }
        let mut c1 = c;
        let ghost before = self@;
        let r = edit.execute(&mut c1, &mut self.buffers[i]);
        proof {
            let b1 = self.buffers@[i as int]@;
            assert(self@.buffers =~= before.buffers.update(i as int, b1));
            assert(b1.id == cur(before).id);
        }
        self.cursor = c1;
        self.fit_cursor();
        r
    }
}

/// The column after pasting `n` characters charwise at `c`, given the new text.
pub open spec fn paste_column(c: Cursor, n: nat, t2: Seq<char>) -> usize {
    min(c.column + n, crate::motion::last_col(crate::cursor::line_len_of(t2, c.line as int)) as int) as usize
}

/// Where a charwise paste inserts: before the cursor, or after it (at the
/// end of the line's text when the cursor is at or past it).
pub open spec fn paste_at(c: Cursor, t: Seq<char>, before: bool) -> int {
    let ls = line_start(t, c.line as nat) as int;
    let n = line_text_at(t, c.line as int).len() as int;
    if before {
        ls + min(c.column as int, n)
    } else if c.column >= n {
        ls + n
    } else {
        ls + c.column + 1
    }
}

/// `a..b` limited to the text and put in order.
pub open spec fn clamped_range(a: usize, b: usize, n: nat) -> (int, int) {
    let x = min(a as int, n as int);
    let y = min(b as int, n as int);
    if x <= y {
        (x, y)
    } else {
        (x, x)
    }
}

impl Editor {
    fn buf_remove_char(&mut self, at: usize) -> (r: Option<char>)
        requires
            old(self).wf(),
        ensures
            shape_ok(final(self)@),
            history_ok(final(self)@.history),
            ({
                let v = cur(old(self)@);
                if at < v.text.len() && !v.read_only {
                    r == Some(v.text[at as int]) && final(self)@ == (EditorView {
                        buffers: old(self)@.buffers.update(old(self)@.current as int, removed(v, at as int, 1)),
                        ..old(self)@
                    })
                } else {
                    r is None && final(self)@ == old(self)@
                }
            }),
    {
        let i = self.current;
        let r = self.buffers[i].remove_char(at);
        proof {
            let v = cur(old(self)@);
            if at < v.text.len() && !v.read_only {
                assert(v.text.remove(at as int) =~= v.text.subrange(0, at as int) + v.text.subrange(
                    at + 1,
                    v.text.len() as int,
                ));
                assert(self@.buffers =~= old(self)@.buffers.update(i as int, removed(v, at as int, 1)));
            } else {
                assert(self@.buffers =~= old(self)@.buffers);
            }
        }
        r
    }

    /// Types `ch` at the cursor in Insert mode; the cursor moves past it.
    pub fn insert_char(&mut self, ch: char)
        requires
            old(self).wf(),
        ensures
            final(self).wf(),
            final(self)@.current == old(self)@.current,
            final(self)@.buffers.len() == old(self)@.buffers.len(),
            !inserting(old(self)@.mode) ==> final(self)@ == old(self)@,
            inserting(old(self)@.mode) ==> ({
                let c = old(self)@.cursor;
                let t = cur(old(self)@).text;
                let at = line_start(t, c.line as nat) + min(c.column as int, crate::cursor::line_len_of(t, c.line as int) as int);
                let b2 = inserted(cur(old(self)@), at, seq![ch]);
                let col = min(c.column + 1, crate::cursor::line_len_of(b2.text, c.line as int) as int) as usize;
                final(self)@ == (EditorView {
                    buffers: old(self)@.buffers.update(old(self)@.current as int, b2),
                    cursor: fit(Cursor { column: col, preferred_column: Some(col), ..c }, b2.text),
                    ..old(self)@
                })
            }),
    {
        if !self.mode.is_insert() {
            return ;
        }
        let line = self.cursor.line;
        let col = self.cursor.column;
        let _total = self.buffers[self.current].len_chars();
        let ls = self.buffers[self.current].line_to_char(line);
        let ll = self.buffers[self.current].line_len(line);
        proof {
            lemma_line_shape(cur(self@).text, line as nat);
        }
        let at = ls + if col < ll {
            col
        } else {
            ll
        };
        let v = vec![ch];
        let s = string_of(v.as_slice());
        proof {
            assert(s@ =~= seq![ch]);
        }
        self.buf_insert(at, s.as_str());
        let nl = self.buffers[self.current].line_len(line);
        let c2 = if col < nl {
            col + 1
        } else {
            nl
        };
        self.cursor.column = c2;
        self.cursor.preferred_column = Some(c2);
        self.fit_cursor();
    }

    /// Enters Insert mode after the character under the cursor (at the end
    /// of the line's text when the cursor is on its last character or past it).
    pub fn enter_append_mode(&mut self)
        requires
            old(self).wf(),
        ensures
            final(self).wf(),
            final(self)@.mode == Mode::Insert,
            ({
                let c = old(self)@.cursor;
                let t = cur(old(self)@).text;
                let n = line_text_at(t, c.line as int).len();
                final(self)@.cursor == if c.column >= crate::motion::last_col(n) {
                    Cursor { column: n as usize, ..c }
                } else {
                    motion_result(Motion::Right, c, t)
                }
            }),
            final(self)@.buffers == old(self)@.buffers,
            old(self)@.mode == Mode::Normal ==> final(self)@.history.undo == old(self)@.history.undo.push(
                snapshot_of(cur(old(self)@), final(self)@.cursor),
            ),
    {
        let n = self.buffers[self.current].line_text_chars(self.cursor.line).len();
        let last = if n > 0 {
            n - 1
        } else {
            0
        };
        proof {
            lemma_line_shape(cur(self@).text, self.cursor.line as nat);
        }
        if self.cursor.column >= last {
            self.cursor.column = n;
        } else {
            self.execute_motion(Motion::Right);
        }
        self.set_mode(Mode::Insert);
    }

    /// Breaks the line at the cursor in Insert mode; the cursor goes to the
    /// start of the new line.
    pub fn insert_newline(&mut self)
        requires
            old(self).wf(),
        ensures
            final(self).wf(),
            final(self)@.current == old(self)@.current,
            final(self)@.buffers.len() == old(self)@.buffers.len(),
            !inserting(old(self)@.mode) ==> final(self)@ == old(self)@,
            inserting(old(self)@.mode) ==> ({
                let c = norm(old(self)@.cursor, cur(old(self)@).text);
                let b2 = inserted(cur(old(self)@), offset_of(c, cur(old(self)@).text), seq!['\n']);
                final(self)@ == (EditorView {
                    buffers: old(self)@.buffers.update(old(self)@.current as int, b2),
                    cursor: fit(Cursor { line: min(c.line + 1, usize::MAX as int) as usize, column: 0, ..c }, b2.text),
                    ..old(self)@
                })
            }),
    {
        if !self.mode.is_insert() {
            return ;
        }
        let c = self.norm_cursor();
        let at = c.to_char_idx(&self.buffers[self.current]);
        self.buf_insert(at, "\n");
        proof {
            reveal_strlit("\n");
            assert("\n"@ =~= seq!['\n']);
        }
        let l = if c.line < usize::MAX {
            c.line + 1
        } else {
            c.line
        };
        self.cursor = Cursor { line: l, column: 0, ..c };
        self.fit_cursor();
    }

    /// Deletes the character before the cursor in Insert mode; at the start
    /// of a line it joins the line to the one above.
    pub fn backspace(&mut self)
        requires
            old(self).wf(),
        ensures
            final(self).wf(),
            final(self)@.current == old(self)@.current,
            final(self)@.buffers.len() == old(self)@.buffers.len(),
            !(inserting(old(self)@.mode) && (old(self)@.cursor.column > 0 || old(self)@.cursor.line > 0))
                ==> final(self)@ == old(self)@,
            inserting(old(self)@.mode) && (old(self)@.cursor.column > 0 || old(self)@.cursor.line > 0)
                ==> recorded(old(self)@, final(self)@) && ({
                let t = cur(old(self)@).text;
                let c = norm(old(self)@.cursor, t);
                let v = cur(old(self)@);
                if c.column > 0 {
                    let at = offset_of(c, t) - 1;
                    let b2 = if !v.read_only { removed(v, at, 1) } else { v };
                    final(self)@.buffers == old(self)@.buffers.update(old(self)@.current as int, b2)
                        && final(self)@.cursor == fit(
                        Cursor { column: (c.column - 1) as usize, preferred_column: Some((c.column - 1) as usize), ..c },
                        b2.text,
                    )
                } else if c.line > 0 {
                    let b2 = removed(v, line_start(t, c.line as nat) - 1, 1);
                    final(self)@.buffers == old(self)@.buffers.update(old(self)@.current as int, b2)
                        && final(self)@.cursor == fit(
                        Cursor {
                            line: (c.line - 1) as usize,
                            column: line_text_at(t, c.line - 1).len() as usize,
                            ..c
                        },
                        b2.text,
                    )
                } else {
                    final(self)@.buffers == old(self)@.buffers && final(self)@.cursor == old(self)@.cursor
                }
            }),
    {
        if !(self.mode.is_insert() && (self.cursor.column > 0 || self.cursor.line > 0)) {
            return ;
        }
        self.save_state();
        let c = self.norm_cursor();
        if c.column > 0 {
            let at = c.to_char_idx(&self.buffers[self.current]);
            proof {
                lemma_line_start_pos(cur(self@).text, c);
            }
            let _ = self.buf_remove_char(at - 1);
            self.cursor = Cursor { column: c.column - 1, preferred_column: Some(c.column - 1), ..c };
            self.fit_cursor();
        } else if c.line > 0 {
            proof {
                crate::text::lemma_line_start(cur(self@).text, c.line as nat);
            }
            let prev_len = self.buffers[self.current].line_text_chars(c.line - 1).len();
            let start = self.buffers[self.current].line_to_char(c.line);
            self.buf_remove(start - 1, 1);
            self.cursor = Cursor { line: c.line - 1, column: prev_len, ..c };
            self.fit_cursor();
        }
    }

    /// Deletes the character under the cursor in Normal mode.
    pub fn delete_char(&mut self)
        requires
            old(self).wf(),
        ensures
            final(self).wf(),
            final(self)@.current == old(self)@.current,
            final(self)@.buffers.len() == old(self)@.buffers.len(),
            old(self)@.mode != Mode::Normal ==> final(self)@ == old(self)@,
            old(self)@.mode == Mode::Normal ==> recorded(old(self)@, final(self)@) && ({
                let t = cur(old(self)@).text;
                let v = cur(old(self)@);
                let at = offset_of(norm(old(self)@.cursor, t), t);
                let b2 = if at < t.len() && !v.read_only { removed(v, at, 1) } else { v };
                let c = old(self)@.cursor;
                let l2 = min(c.line as int, line_count(b2.text) - 1) as usize;
                &&& final(self)@.buffers == old(self)@.buffers.update(old(self)@.current as int, b2)
                &&& final(self)@.cursor == Cursor {
                    line: l2,
                    column: min(c.column as int, max_col(b2.text, l2 as int) as int) as usize,
                    ..c
                }
            }),
    {
        if self.mode != Mode::Normal {
            return ;
        }
        self.save_state();
        let c = self.norm_cursor();
        let at = c.to_char_idx(&self.buffers[self.current]);
        let _ = self.buf_remove_char(at);
        let mut k = self.cursor;
        k.ensure_valid(&self.buffers[self.current]);
        self.cursor = k;
    }

    /// Copies the cursor's line, with a line break, into `register` (the
    /// unnamed one by default) as whole-line content.
    pub fn yank_line(&mut self, register: Option<char>)
        requires
            old(self).wf(),
        ensures
            final(self).wf(),
            final(self)@ == (EditorView {
                registers: after_set(
                    old(self)@.registers,
                    reg_or_unnamed(register),
                    line_text_at(cur(old(self)@).text, old(self)@.cursor.line as int).push('\n'),
                    true,
                ),
                ..old(self)@
            }),
    {
        let mut v = self.buffers[self.current].line_text_chars(self.cursor.line);
        v.push('\n');
        let s = string_of(v.as_slice());
        let reg = match register {
            Some(r) => r,
            None => '"',
        };
        self.registers.set(reg, s.as_str(), true);
    }

    /// Copies characters `start..end` (limited to the text) into `register`.
    pub fn yank(&mut self, start: usize, end: usize, register: Option<char>, linewise: bool)
        requires
            old(self).wf(),
        ensures
            final(self).wf(),
            ({
                let t = cur(old(self)@).text;
                let (a, b) = clamped_range(start, end, t.len());
                final(self)@ == (EditorView {
                    registers: after_set(old(self)@.registers, reg_or_unnamed(register), t.subrange(a, b), linewise),
                    ..old(self)@
                })
            }),
    {
        let n = self.buffers[self.current].len_chars();
        let a = if start < n {
            start
        } else {
            n
        };
        let e = if end < n {
            end
        } else {
            n
        };
        let b = if a <= e {
            e
        } else {
            a
        };
        let s = self.buffers[self.current].slice(a..b);
        let reg = match register {
            Some(r) => r,
            None => '"',
        };
        self.registers.set(reg, s.as_str(), linewise);
    }

    /// Pastes `register` (the unnamed one by default): whole-line content as
    /// new lines above or below the cursor's line, other content before or
    /// after the cursor. An empty or unknown register pastes nothing.
    pub fn paste(&mut self, register: Option<char>, before_cursor: bool)
        requires
            old(self).wf(),
        ensures
            final(self).wf(),
            final(self)@.current == old(self)@.current,
            final(self)@.buffers.len() == old(self)@.buffers.len(),
            match lookup(old(self)@.registers, reg_or_unnamed(register)) {
                Some(rg) => if rg.content.len() == 0 {
                    final(self)@ == old(self)@
                } else {
                    let c = old(self)@.cursor;
                    let t = cur(old(self)@).text;
                    &&& recorded(old(self)@, final(self)@)
                    &&& final(self)@.current == old(self)@.current
                    &&& if rg.linewise {
                        let l = if before_cursor { c.line as int } else { min(c.line + 1, usize::MAX as int) };
                        let b2 = inserted(cur(old(self)@), line_start(t, l as nat) as int, rg.content);
                        final(self)@.buffers == old(self)@.buffers.update(old(self)@.current as int, b2)
                            && final(self)@.cursor == fit(Cursor { line: l as usize, column: 0, ..c }, b2.text)
                    } else {
                        let b2 = inserted(cur(old(self)@), paste_at(c, t, before_cursor), rg.content);
                        final(self)@.buffers == old(self)@.buffers.update(old(self)@.current as int, b2)
                            && final(self)@.cursor == fit(
                            Cursor { column: paste_column(c, rg.content.len(), b2.text), ..c },
                            b2.text,
                        )
                    }
                },
                None => final(self)@ == old(self)@,
            },
    {
        let reg = match register {
            Some(r) => r,
            None => '"',
        };
        let (content, linewise) = match self.registers.get(reg) {
            Some(rg) => {
                if rg.is_empty() {
                    return ;
                }
                (rg.content.clone(), rg.linewise)
            },
            None => {
                return ;
            },
        };
        self.save_state();
        if linewise {
            self.paste_lines(&content, before_cursor);
        } else {
            self.paste_chars(&content, before_cursor);
        }
    }

    fn paste_lines(&mut self, content: &String, before_cursor: bool)
        requires
            old(self).wf(),
        ensures
            final(self).wf(),
            ({
                let c = old(self)@.cursor;
                let t = cur(old(self)@).text;
                let l = if before_cursor { c.line as int } else { min(c.line + 1, usize::MAX as int) };
                let b2 = inserted(cur(old(self)@), line_start(t, l as nat) as int, content@);
                final(self)@ == (EditorView {
                    buffers: old(self)@.buffers.update(old(self)@.current as int, b2),
                    cursor: fit(Cursor { line: l as usize, column: 0, ..c }, b2.text),
                    ..old(self)@
                })
            }),
    {
        let c = self.cursor;
        let _total = self.buffers[self.current].len_chars();
        proof {
            crate::text::lemma_nl_count_bound(cur(self@).text);
        }
        let l = if before_cursor || c.line == usize::MAX {
            c.line
        } else {
            c.line + 1
        };
        let at = self.buffers[self.current].line_to_char(l);
        self.buf_insert(at, content.as_str());
        self.cursor = Cursor { line: l, column: 0, ..c };
        self.fit_cursor();
    }

    fn paste_chars(&mut self, content: &String, before_cursor: bool)
        requires
            old(self).wf(),
        ensures
            final(self).wf(),
            ({
                let c = old(self)@.cursor;
                let t = cur(old(self)@).text;
                let b2 = inserted(cur(old(self)@), paste_at(c, t, before_cursor), content@);
                final(self)@ == (EditorView {
                    buffers: old(self)@.buffers.update(old(self)@.current as int, b2),
                    cursor: fit(Cursor { column: paste_column(c, content@.len(), b2.text), ..c }, b2.text),
                    ..old(self)@
                })
            }),
    {
        let c = self.cursor;
        let _total = self.buffers[self.current].len_chars();
        proof {
            lemma_line_shape(cur(self@).text, c.line as nat);
            crate::text::lemma_line_start(cur(self@).text, c.line as nat);
        }
        let ls = self.buffers[self.current].line_to_char(c.line);
        let n = self.buffers[self.current].line_text_chars(c.line).len();
        let at = if before_cursor {
            ls + if c.column < n {
                c.column
            } else {
                n
            }
        } else if c.column >= n {
            ls + n
        } else {
            ls + c.column + 1
        };
        self.buf_insert(at, content.as_str());
        let k = content.as_str().unicode_len();
        let nl = self.buffers[self.current].line_len(c.line);
        let last = if nl > 0 {
            nl - 1
        } else {
            0
        };
        let col = if c.column <= last && k <= last - c.column {
            c.column + k
        } else {
            last
        };
        self.cursor = Cursor { column: col, ..c };
        self.fit_cursor();
    }

    /// Deletes the cursor's line into `register` (the unnamed one by
    /// default) as whole-line content, and returns it with its line break.
    pub fn delete_line(&mut self, register: Option<char>) -> (r: Option<String>)
        requires
            old(self).wf(),
        ensures
            final(self).wf(),
            final(self)@.current == old(self)@.current,
            final(self)@.buffers.len() == old(self)@.buffers.len(),
            ({
                let c = old(self)@.cursor;
                let t = cur(old(self)@).text;
                let content = line_text_at(t, c.line as int).push('\n');
                let b2 = removed(cur(old(self)@), line_start(t, c.line as nat) as int, line_chars(t, c.line as nat).len() as int);
                &&& r matches Some(s) && s@ == content
                &&& recorded(old(self)@, final(self)@)
                &&& final(self)@.registers == after_set(old(self)@.registers, reg_or_unnamed(register), content, true)
                &&& final(self)@.buffers == old(self)@.buffers.update(old(self)@.current as int, b2)
                &&& final(self)@.cursor == Cursor {
                    line: min(c.line as int, line_count(b2.text) - 1) as usize,
                    column: 0,
                    ..c
                }
            }),
    {
        let mut v = self.buffers[self.current].line_text_chars(self.cursor.line);
        v.push('\n');
        let content = string_of(v.as_slice());
        self.save_state();
        let reg = match register {
            Some(r) => r,
            None => '"',
        };
        self.registers.set(reg, content.as_str(), true);
        let start = self.buffers[self.current].line_to_char(self.cursor.line);
        let len = self.buffers[self.current].line_len(self.cursor.line);
        self.buf_remove(start, len);
        self.fit_cursor();
        self.cursor.column = 0;
        Some(content)
    }

    /// Deletes the character under the cursor into `register` (the unnamed
    /// one by default); `None` when there is no character there.
    pub fn delete_char_to_register(&mut self, register: Option<char>) -> (r: Option<char>)
        requires
            old(self).wf(),
        ensures
            final(self).wf(),
            final(self)@.current == old(self)@.current,
            final(self)@.buffers.len() == old(self)@.buffers.len(),
            recorded(old(self)@, final(self)@),
            ({
                let t = cur(old(self)@).text;
                let v = cur(old(self)@);
                let at = offset_of(norm(old(self)@.cursor, t), t);
                let c = old(self)@.cursor;
                if at < t.len() && !v.read_only {
                    let b2 = removed(v, at, 1);
                    let l2 = min(c.line as int, line_count(b2.text) - 1) as usize;
                    &&& r == Some(t[at])
                    &&& final(self)@.buffers == old(self)@.buffers.update(old(self)@.current as int, b2)
                    &&& final(self)@.registers == after_set(old(self)@.registers, reg_or_unnamed(register), seq![t[at]], false)
                    &&& final(self)@.cursor == Cursor {
                        line: l2,
                        column: min(c.column as int, max_col(b2.text, l2 as int) as int) as usize,
                        ..c
                    }
                } else {
                    r is None && final(self)@.buffers == old(self)@.buffers
                        && final(self)@.registers == old(self)@.registers
                        && final(self)@.cursor == old(self)@.cursor
                }
            }),
    {
        self.save_state();
        let c = self.norm_cursor();
        let at = c.to_char_idx(&self.buffers[self.current]);
        let ch = match self.buf_remove_char(at) {
            Some(ch) => ch,
            None => {
                return None;
            },
        };
        let mut k = self.cursor;
        k.ensure_valid(&self.buffers[self.current]);
        self.cursor = k;
        let v = vec![ch];
        let s = string_of(v.as_slice());
        proof {
            assert(s@ =~= seq![ch]);
        }
        let reg = match register {
            Some(r) => r,
            None => '"',
        };
        self.registers.set(reg, s.as_str(), false);
        Some(ch)
    }
}

/// The cursor after moving to match `idx` (if it names one) of `ms` in `t`.
pub open spec fn at_match(c: Cursor, t: Seq<char>, ms: Seq<usize>, idx: Option<usize>) -> Cursor {
    match idx {
        Some(i) => if i < ms.len() && ms[i as int] <= t.len() {
            cursor_at(t, ms[i as int] as int)
        } else {
            c
        },
        None => c,
    }
}

impl Editor {
    /// Moves to match `idx`, if it names one, and marks it current.
    fn go_to_match(&mut self, idx: Option<usize>)
        requires
            old(self).wf(),
        ensures
            final(self).wf(),
            final(self)@ == (EditorView {
                cursor: at_match(old(self)@.cursor, cur(old(self)@).text, old(self)@.search.matches, idx),
                search: match idx {
                    Some(i) => if i < old(self)@.search.matches.len() {
                        SearchView { current: Some(i), ..old(self)@.search }
                    } else {
                        old(self)@.search
                    },
                    None => old(self)@.search,
                },
                ..old(self)@
            }),
    {
        match idx {
            Some(i) => match self.search.get_match_pos(i) {
                Some(p) => {
                    self.search.set_current_match(i);
                    if p <= self.buffers[self.current].len_chars() {
                        self.cursor = Cursor::from_char_idx(&self.buffers[self.current], p);
                    }
                },
                None => {},
            },
            None => {},
        }
    }

    /// Searches the active buffer for `pattern` and moves to the first match
    /// at or after the cursor (at or before it, searching backward). An empty
    /// pattern does nothing.
    pub fn start_search(&mut self, direction: SearchDirection, pattern: &str)
        requires
            old(self).wf(),
        ensures
            final(self).wf(),
            pattern@.len() == 0 ==> final(self)@ == old(self)@,
            pattern@.len() > 0 ==> ({
                let t = cur(old(self)@).text;
                let ms = match_list(t, pattern@);
                let c = norm(old(self)@.cursor, t);
                let idx = pick(ms, offset_of(c, t), direction == SearchDirection::Forward, false);
                &&& final(self)@.search.pattern == pattern@
                &&& final(self)@.search.direction == direction
                &&& final(self)@.search.matches == ms
                &&& final(self)@.search.current == match idx {
                    Some(i) => if i < ms.len() { Some(i) } else { None::<usize> },
                    None => None::<usize>,
                }
                &&& final(self)@.cursor == at_match(old(self)@.cursor, t, ms, idx)
                &&& final(self)@.registers == (RegistersView {
                    search: crate::register::rv('/', pattern@, false),
                    ..old(self)@.registers
                })
                &&& final(self)@.buffers == old(self)@.buffers
            }),
    {
        if pattern.is_empty() {
            return ;
        }
        self.search.set_pattern(pattern, direction, &self.buffers[self.current]);
        self.registers.set_search(pattern);
        let c = self.norm_cursor();
        let idx = self.search.calc_first_match(&c, &self.buffers[self.current]);
        self.go_to_match(idx);
    }

    /// Moves to the next match in the search direction, wrapping around.
    pub fn search_next(&mut self)
        requires
            old(self).wf(),
        ensures
            final(self).wf(),
            ({
                let t = cur(old(self)@).text;
                let s = old(self)@.search;
                let idx = pick(s.matches, offset_of(norm(old(self)@.cursor, t), t), s.direction == SearchDirection::Forward, true);
                final(self)@.cursor == at_match(old(self)@.cursor, t, s.matches, idx)
                    && final(self)@.buffers == old(self)@.buffers
            }),
    {
        let c = self.norm_cursor();
        let idx = self.search.calc_next_match(&c, &self.buffers[self.current]);
        self.go_to_match(idx);
    }

    /// Moves to the next match against the search direction, wrapping around.
    pub fn search_prev(&mut self)
        requires
            old(self).wf(),
        ensures
            final(self).wf(),
            ({
                let t = cur(old(self)@).text;
                let s = old(self)@.search;
                let idx = pick(s.matches, offset_of(norm(old(self)@.cursor, t), t), s.direction == SearchDirection::Backward, true);
                final(self)@.cursor == at_match(old(self)@.cursor, t, s.matches, idx)
                    && final(self)@.buffers == old(self)@.buffers
            }),
    {
        let c = self.norm_cursor();
        let idx = self.search.calc_prev_match(&c, &self.buffers[self.current]);
        self.go_to_match(idx);
    }

    /// Forgets the search pattern and its matches.
    pub fn clear_search(&mut self)
        requires
            old(self).wf(),
        ensures
            final(self).wf(),
            final(self)@ == (EditorView {
                search: SearchView {
                    pattern: Seq::empty(),
                    matches: Seq::empty(),
                    current: None,
                    ..old(self)@.search
                },
                ..old(self)@
            }),
    {
        self.search.clear();
        proof {
            assert(self@.search.pattern =~= Seq::<char>::empty());
            assert(self@.search.matches =~= Seq::<usize>::empty());
        }
    }

    /// The span `[lo, hi)` that an operator with `motion` covers from the
    /// cursor, and whether the motion went forward.
    fn span(&self, motion: Motion) -> (r: (usize, usize, bool))
        requires
            self.wf(),
        ensures
            ({
                let (lo, hi, fwd) = motion_span(motion, norm(self@.cursor, cur(self@).text), cur(self@).text);
                r.0 == lo && r.1 == hi && r.2 == fwd
            }),
            r.0 <= r.1 <= cur(self@).text.len(),
    {
        let c = self.norm_cursor();
        let ghost t = cur(self@).text;
        let a = c.to_char_idx(&self.buffers[self.current]);
        let mut m = c;
        proof {
            lemma_motion_line(motion, c, t);
        }
        motion.execute(&mut m, &self.buffers[self.current]);
        let b = self.pos(m);
        let lo = if a < b {
            a
        } else {
            b
        };
        let hi0 = if a < b {
            b
        } else {
            a
        };
        let word = match motion {
            Motion::WordForward | Motion::WordBackward => true,
            _ => false,
        };
        let mut hi = hi0;
        if word {
            let text = self.buffers[self.current].chars();
            let mut k: usize = lo;
            while k < hi0 && text[k] != '\n'
                invariant
                    lo <= k <= hi0 <= text@.len(),
                    text@ == t,
                    first_nl(t.subrange(lo as int, hi0 as int)) == (k - lo) + first_nl(t.subrange(k as int, hi0 as int)),
                    no_nl(t.subrange(lo as int, hi0 as int)) == no_nl(t.subrange(k as int, hi0 as int)),
                decreases hi0 - k,
            {
                proof {
                    let a2 = t.subrange(k as int, hi0 as int);
                    assert(a2.subrange(1, a2.len() as int) =~= t.subrange(k + 1, hi0 as int));
                    if no_nl(t.subrange(k + 1, hi0 as int)) {
                        assert forall|j: int| 0 <= j < a2.len() implies a2[j] != '\n' by {
                            if j > 0 {
                                assert(a2[j] == t.subrange(k + 1, hi0 as int)[j - 1]);
                            }
                        }
                    }
                    let b2 = t.subrange(k + 1, hi0 as int);
                    if no_nl(a2) {
                        assert forall|j: int| 0 <= j < b2.len() implies #[trigger] b2[j] != '\n' by {
                            assert(b2[j] == a2[j + 1]);
                        }
                    }
                }
                k = k + 1;
            }
            proof {
                let a2 = t.subrange(k as int, hi0 as int);
                if k < hi0 {
                    assert(a2[0] == '\n');
                    assert(!no_nl(a2));
                } else {
                    assert(a2.len() == 0);
                }
            }
            if k < hi0 {
                hi = k;
            }
        }
        (lo, hi, a < b)
    }

    /// Deletes from the cursor to where `motion` goes, into the unnamed
    /// register (shifting the numbered ones) and into `register` if given.
    /// Returns the deleted text; `None`, changing nothing, when the span is empty.
    pub fn delete_to_motion_with_register(&mut self, motion: Motion, register: Option<char>) -> (r: Option<String>)
        requires
            old(self).wf(),
        ensures
            final(self).wf(),
            final(self)@.current == old(self)@.current,
            final(self)@.buffers.len() == old(self)@.buffers.len(),
            ({
                let t = cur(old(self)@).text;
                let c = norm(old(self)@.cursor, t);
                let (lo, hi, fwd) = motion_span(motion, c, t);
                if lo == hi {
                    r is None && final(self)@ == old(self)@
                } else {
                    let d = t.subrange(lo, hi);
                    let b2 = removed(cur(old(self)@), lo, hi - lo);
                    let regs = match register {
                        Some(x) => after_set(old(self)@.registers, x, d, false),
                        None => old(self)@.registers,
                    };
                    &&& r matches Some(s) && s@ == d
                    &&& recorded(old(self)@, final(self)@)
                    &&& final(self)@.buffers == old(self)@.buffers.update(old(self)@.current as int, b2)
                    &&& final(self)@.registers == after_delete(regs, d, false)
                    &&& final(self)@.cursor == fit(if fwd { c } else { cursor_at(b2.text, lo) }, b2.text)
                }
            }),
    {
        let (lo, hi, fwd) = self.span(motion);
        if lo == hi {
            return None;
        }
        self.save_state();
        let c = self.norm_cursor();
        let deleted = self.buffers[self.current].slice(lo..hi);
        self.buf_remove(lo, hi - lo);
        match register {
            Some(x) => self.registers.set(x, deleted.as_str(), false),
            None => {},
        }
        self.registers.set_unnamed_delete(deleted.as_str(), false);
        if fwd {
            self.cursor = c;
        } else {
            let n = self.buffers[self.current].len_chars();
            let at = if lo <= n {
                lo
            } else {
                n
            };
            self.cursor = Cursor::from_char_idx(&self.buffers[self.current], at);
        }
        self.fit_cursor();
        Some(deleted)
    }

    /// `delete_to_motion_with_register` with no named register.
    pub fn delete_to_motion(&mut self, motion: Motion) -> (r: Option<String>)
        requires
            old(self).wf(),
        ensures
            final(self).wf(),
            final(self)@.current == old(self)@.current,
            final(self)@.buffers.len() == old(self)@.buffers.len(),
            ({
                let t = cur(old(self)@).text;
                let c = norm(old(self)@.cursor, t);
                let (lo, hi, fwd) = motion_span(motion, c, t);
                if lo == hi {
                    r is None && final(self)@ == old(self)@
                } else {
                    let d = t.subrange(lo, hi);
                    let b2 = removed(cur(old(self)@), lo, hi - lo);
                    &&& r matches Some(s) && s@ == d
                    &&& recorded(old(self)@, final(self)@)
                    &&& final(self)@.buffers == old(self)@.buffers.update(old(self)@.current as int, b2)
                    &&& final(self)@.registers == after_delete(old(self)@.registers, d, false)
                    &&& final(self)@.cursor == fit(if fwd { c } else { cursor_at(b2.text, lo) }, b2.text)
                }
            }),
    {
        self.delete_to_motion_with_register(motion, None)
    }

    /// Copies from the cursor to where `motion` goes into the unnamed
    /// register (and register 0), and into `register` if given.
    pub fn yank_to_motion_with_register(&mut self, motion: Motion, register: Option<char>)
        requires
            old(self).wf(),
        ensures
            final(self).wf(),
            ({
                let t = cur(old(self)@).text;
                let (lo, hi, fwd) = motion_span(motion, norm(old(self)@.cursor, t), t);
                if lo == hi {
                    final(self)@ == old(self)@
                } else {
                    let d = t.subrange(lo, hi);
                    let regs = match register {
                        Some(x) => after_set(old(self)@.registers, x, d, false),
                        None => old(self)@.registers,
                    };
                    final(self)@ == (EditorView { registers: after_yank(regs, d, false), ..old(self)@ })
                }
            }),
    {
        let (lo, hi, fwd) = self.span(motion);
        if lo == hi {
            return ;
        }
        let yanked = self.buffers[self.current].slice(lo..hi);
        match register {
            Some(x) => self.registers.set(x, yanked.as_str(), false),
            None => {},
        }
        self.registers.set_unnamed_yank(yanked.as_str(), false);
    }

    /// `yank_to_motion_with_register` with no named register.
    pub fn yank_to_motion(&mut self, motion: Motion)
        requires
            old(self).wf(),
        ensures
            final(self).wf(),
            ({
                let t = cur(old(self)@).text;
                let (lo, hi, fwd) = motion_span(motion, norm(old(self)@.cursor, t), t);
                if lo == hi {
                    final(self)@ == old(self)@
                } else {
                    final(self)@ == (EditorView {
                        registers: after_yank(old(self)@.registers, t.subrange(lo, hi), false),
                        ..old(self)@
                    })
                }
            }),
    {
        self.yank_to_motion_with_register(motion, None)
    }

    /// Deletes the range of `obj` at the cursor into the unnamed register
    /// (shifting the numbered ones); the cursor goes to its start.
    pub fn delete_text_object(&mut self, obj: TextObject) -> (r: Option<String>)
        requires
            old(self).wf(),
        ensures
            final(self).wf(),
            final(self)@.current == old(self)@.current,
            final(self)@.buffers.len() == old(self)@.buffers.len(),
            recorded(old(self)@, final(self)@),
            match object_range(obj, old(self)@.cursor, cur(old(self)@).text) {
                Some((a, e)) => {
                    let t = cur(old(self)@).text;
                    let d = t.subrange(a as int, e as int);
                    let b2 = removed(cur(old(self)@), a as int, e - a);
                    &&& r matches Some(s) && s@ == d
                    &&& final(self)@.buffers == old(self)@.buffers.update(old(self)@.current as int, b2)
                    &&& final(self)@.registers == after_delete(old(self)@.registers, d, false)
                    &&& final(self)@.cursor == fit(cursor_at(b2.text, min(a as int, b2.text.len() as int)), b2.text)
                },
                None => r is None && final(self)@.buffers == old(self)@.buffers && final(self)@.cursor
                    == old(self)@.cursor && final(self)@.registers == old(self)@.registers,
            },
    {
        self.save_state();
        let (a, e) = match obj.get_range(&self.cursor, &self.buffers[self.current]) {
            Some(x) => x,
            None => {
                return None;
            },
        };
        let deleted = self.buffers[self.current].slice(a..e);
        self.buf_remove(a, e - a);
        self.registers.set_unnamed_delete(deleted.as_str(), false);
        let n = self.buffers[self.current].len_chars();
        let at = if a <= n {
            a
        } else {
            n
        };
        self.cursor = Cursor::from_char_idx(&self.buffers[self.current], at);
        self.fit_cursor();
        Some(deleted)
    }

    /// Copies the range of `obj` at the cursor into the unnamed register.
    pub fn yank_text_object(&mut self, obj: TextObject) -> (r: Option<String>)
        requires
            old(self).wf(),
        ensures
            final(self).wf(),
            match object_range(obj, old(self)@.cursor, cur(old(self)@).text) {
                Some((a, e)) => {
                    let d = cur(old(self)@).text.subrange(a as int, e as int);
                    &&& r matches Some(s) && s@ == d
                    &&& final(self)@ == (EditorView { registers: after_yank(old(self)@.registers, d, false), ..old(self)@ })
                },
                None => r is None && final(self)@ == old(self)@,
            },
    {
        let (a, e) = match obj.get_range(&self.cursor, &self.buffers[self.current]) {
            Some(x) => x,
            None => {
                return None;
            },
        };
        let yanked = self.buffers[self.current].slice(a..e);
        self.registers.set_unnamed_yank(yanked.as_str(), false);
        Some(yanked)
    }

    /// Line `line_idx` of the active buffer without its line break.
    pub fn get_line_text(&self, line_idx: usize) -> (r: Option<String>)
        requires
            self.wf(),
        ensures
            line_idx < line_count(cur(self@).text) ==> (r matches Some(s) && s@ == line_text_at(cur(self@).text, line_idx as int)),
            line_idx >= line_count(cur(self@).text) ==> r is None,
    {
        if line_idx < self.buffers[self.current].len_lines() {
            let v = self.buffers[self.current].line_text_chars(line_idx);
            Some(string_of(v.as_slice()))
        } else {
            None
        }
    }

    /// The lines shown in a view of `viewport_height` lines starting at
    /// line `scroll_offset`, each with its index.
    pub fn visible_lines(&self, viewport_height: usize, scroll_offset: usize) -> (r: Vec<(usize, String)>)
        requires
            self.wf(),
        ensures
            r@.len() == if min(scroll_offset + viewport_height, line_count(cur(self@).text) as int)
                > scroll_offset {
                min(scroll_offset + viewport_height, line_count(cur(self@).text) as int) - scroll_offset
            } else {
                0
            },
            forall|k: int|
                #![trigger r@[k]]
                0 <= k < r@.len() ==> r@[k].0 == scroll_offset + k && r@[k].1@ == line_text_at(
                    cur(self@).text,
                    scroll_offset + k,
                ),
    {
        let n = self.buffers[self.current].len_lines();
        let end = if viewport_height <= n && scroll_offset <= n - viewport_height {
            scroll_offset + viewport_height
        } else {
            n
        };
        let mut out: Vec<(usize, String)> = Vec::new();
        let mut l = scroll_offset;
        while l < end
            invariant
                self.wf(),
                n == line_count(cur(self@).text),
                end <= n,
                l <= end || l == scroll_offset,
                l >= scroll_offset,
                out@.len() == l - scroll_offset,
                forall|k: int|
                    #![trigger out@[k]]
                    0 <= k < out@.len() ==> out@[k].0 == scroll_offset + k && out@[k].1@ == line_text_at(
                        cur(self@).text,
                        scroll_offset + k,
                    ),
            decreases end - l,
        {
            let v = self.buffers[self.current].line_text_chars(l);
            out.push((l, string_of(v.as_slice())));
            l = l + 1;
        }
        proof {
            let m = line_count(cur(self@).text) as int;
            assert(end as int == min(scroll_offset + viewport_height, m));
            assert(out@.len() == if end > scroll_offset { end - scroll_offset } else { 0 });
        }
        out
    }
}

/// What a colon-command asks of the caller once the editor has done its part.
#[derive(Debug, Clone, PartialEq, Eq)]
pub enum CommandOutcome {
    /// Nothing more to do.
    Done,
    /// Leave the editor.
    Quit,
    /// Save the active buffer (to `path` if given, which then becomes its
    /// path), then leave if `quit`.
    Write { path: Option<String>, quit: bool },
    /// Open the file at this path in a new buffer.
    Open(String),
}

/// The options and status message that `set <name>` gives, if it knows the name.
pub open spec fn option_update(o: EditorOptions, w: Seq<char>) -> Option<(EditorOptions, Seq<char>)> {
    if w == "nu"@ || w == "number"@ {
        Some((EditorOptions { number: true, ..o }, "Enabled line numbers"@))
    } else if w == "nonu"@ || w == "nonumber"@ {
        Some((EditorOptions { number: false, ..o }, "Disabled line numbers"@))
    } else if w == "rnu"@ || w == "relativenumber"@ {
        Some((EditorOptions { relativenumber: true, ..o }, "Enabled relative line numbers"@))
    } else if w == "nornu"@ || w == "norelativenumber"@ {
        Some((EditorOptions { relativenumber: false, ..o }, "Disabled relative line numbers"@))
    } else if w == "cursorline"@ {
        Some((EditorOptions { cursorline: true, ..o }, "Enabled cursor line highlighting"@))
    } else if w == "nocursorline"@ {
        Some((EditorOptions { cursorline: false, ..o }, "Disabled cursor line highlighting"@))
    } else {
        None
    }
}

pub open spec fn outcome_view(r: Result<CommandOutcome, String>) -> Result<(int, Option<Seq<char>>, bool), Seq<char>> {
    match r {
        Ok(CommandOutcome::Done) => Ok((0, None, false)),
        Ok(CommandOutcome::Quit) => Ok((1, None, true)),
        Ok(CommandOutcome::Write { path, quit }) => Ok((2, opt_seq(path), quit)),
        Ok(CommandOutcome::Open(p)) => Ok((3, Some(p@), false)),
        Err(e) => Err(e@),
    }
}

/// A word that starts a substitute command.
pub open spec fn starts_substitute(w: Seq<char>) -> bool {
    (w.len() >= "s/"@.len() && w.subrange(0, "s/"@.len() as int) == "s/"@) || (w.len() >= "%s/"@.len()
        && w.subrange(0, "%s/"@.len() as int) == "%s/"@)
}

/// The colon-commands, told apart by their first word.
#[derive(Debug, Clone, Copy, PartialEq, Eq, Structural)]
pub enum CommandKind {
    Quit,
    ForceQuit,
    Write,
    WriteQuit,
    Edit,
    Registers,
    Buffers,
    SetOption,
    Buffer,
    New,
    Next,
    Prev,
    Delete,
    ForceDelete,
    Substitute,
    Unknown,
}

/// The command that word `w` names.
pub open spec fn kind_of(w: Seq<char>) -> CommandKind {
    if w == "q"@ || w == "quit"@ {
        CommandKind::Quit
    } else if w == "q!"@ || w == "qa"@ {
        CommandKind::ForceQuit
    } else if w == "w"@ || w == "write"@ {
        CommandKind::Write
    } else if w == "wq"@ {
        CommandKind::WriteQuit
    } else if w == "e"@ || w == "edit"@ {
        CommandKind::Edit
    } else if w == "reg"@ || w == "registers"@ {
        CommandKind::Registers
    } else if w == "ls"@ || w == "buffers"@ {
        CommandKind::Buffers
    } else if w == "set"@ {
        CommandKind::SetOption
    } else if w == "b"@ || w == "buffer"@ {
        CommandKind::Buffer
    } else if w == "new"@ {
        CommandKind::New
    } else if w == "bn"@ || w == "bnext"@ || w == "next"@ {
        CommandKind::Next
    } else if w == "bp"@ || w == "bprev"@ || w == "bprevious"@ || w == "prev"@ {
        CommandKind::Prev
    } else if w == "bd"@ || w == "bdelete"@ {
        CommandKind::Delete
    } else if w == "bd!"@ || w == "bdelete!"@ {
        CommandKind::ForceDelete
    } else if starts_substitute(w) {
        CommandKind::Substitute
    } else {
        CommandKind::Unknown
    }
}

fn starts_with_str(w: &Vec<char>, p: &str) -> (r: bool)
    ensures
        r == (w@.len() >= p@.len() && w@.subrange(0, p@.len() as int) == p@),
{
    let q = chars_of(p);
    if w.len() < q.len() {
        return false;
    }
    let mut i: usize = 0;
    while i < q.len()
        invariant
            i <= q@.len() <= w@.len(),
            q@ == p@,
            forall|j: int| 0 <= j < i ==> w@[j] == q@[j],
        decreases q@.len() - i,
    {
        if w[i] != q[i] {
            proof {
                assert(w@.subrange(0, q@.len() as int)[i as int] != q@[i as int]);
            }
            return false;
        }
        i = i + 1;
    }
    proof {
        assert(w@.subrange(0, q@.len() as int) =~= q@);
    }
    true
}

/// The command that word `w` names.
pub fn classify(w: &Vec<char>) -> (r: CommandKind)
    ensures
        r == kind_of(w@),
{
    if same_chars(w, "q") || same_chars(w, "quit") {
        CommandKind::Quit
    } else if same_chars(w, "q!") || same_chars(w, "qa") {
        CommandKind::ForceQuit
    } else if same_chars(w, "w") || same_chars(w, "write") {
        CommandKind::Write
    } else if same_chars(w, "wq") {
        CommandKind::WriteQuit
    } else if same_chars(w, "e") || same_chars(w, "edit") {
        CommandKind::Edit
    } else if same_chars(w, "reg") || same_chars(w, "registers") {
        CommandKind::Registers
    } else if same_chars(w, "ls") || same_chars(w, "buffers") {
        CommandKind::Buffers
    } else if same_chars(w, "set") {
        CommandKind::SetOption
    } else if same_chars(w, "b") || same_chars(w, "buffer") {
        CommandKind::Buffer
    } else if same_chars(w, "new") {
        CommandKind::New
    } else if same_chars(w, "bn") || same_chars(w, "bnext") || same_chars(w, "next") {
        CommandKind::Next
    } else if same_chars(w, "bp") || same_chars(w, "bprev") || same_chars(w, "bprevious") || same_chars(w, "prev") {
        CommandKind::Prev
    } else if same_chars(w, "bd") || same_chars(w, "bdelete") {
        CommandKind::Delete
    } else if same_chars(w, "bd!") || same_chars(w, "bdelete!") {
        CommandKind::ForceDelete
    } else if starts_with_str(w, "s/") || starts_with_str(w, "%s/") {
        CommandKind::Substitute
    } else {
        CommandKind::Unknown
    }
}


impl Editor {
    fn msg_number(prefix: &str, n: usize) -> (r: String)
        ensures
            r@ == prefix@ + dec(n as nat),
    {
        let mut v: Vec<char> = Vec::new();
        extend_str(&mut v, prefix);
        let d = decimal(n);
        extend_chars(&mut v, &d);
        string_of(v.as_slice())
    }

    /// `:b <id>`.
    fn cmd_buffer(&mut self, arg: Option<&Vec<char>>) -> (r: Result<(), String>)
        requires
            old(self).wf(),
        ensures
            final(self).wf(),
            ({
                let o = old(self)@;
                match arg {
                    None => err_is(r, "Buffer ID required"@) && final(self)@ == o,
                    Some(a) => match parse_dec(a@) {
                        None => err_is(r, "Invalid buffer ID"@) && final(self)@ == o,
                        Some(n) => match index_of_id(o.buffers, n as nat) {
                            None => err_is(r, not_found_msg(n)) && final(self)@ == o,
                            Some(i) => r is Ok && final(self)@ == (EditorView {
                                message: Some("Switched to buffer "@ + dec(n as nat)),
                                show_buffer_list: false,
                                ..switched(o, i)
                            }),
                        },
                    },
                }
            }),
    {
        let a = match arg {
            Some(a) => a,
            None => {
                return Err("Buffer ID required".to_owned());
            },
        };
        let n = match parse_usize(a) {
            Some(n) => n,
            None => {
                return Err("Invalid buffer ID".to_owned());
            },
        };
        match self.switch_buffer(BufferId::new(n)) {
            Ok(()) => {},
            Err(e) => {
                return Err(e);
            },
        }
        let m = Editor::msg_number("Switched to buffer ", n);
        self.set_message(m.as_str());
        self.show_buffer_list = false;
        Ok(())
    }

    /// `:bn` or `:bp`; with a single open buffer there is nowhere to go.
    fn cmd_cycle(&mut self, next: bool) -> (r: Result<(), String>)
        requires
            old(self).wf(),
        ensures
            final(self).wf(),
            old(self)@.buffers.len() <= 1 ==> err_is(r, no_other_msg()) && final(self)@ == old(self)@,
            old(self)@.buffers.len() > 1 ==> r is Ok && ({
                let o = old(self)@;
                let i = if next {
                    (o.current + 1) % (o.buffers.len() as int)
                } else if o.current == 0 {
                    o.buffers.len() - 1
                } else {
                    o.current - 1
                };
                final(self)@ == (EditorView {
                    message: Some("Switched to buffer "@ + dec(o.buffers[i].id)),
                    show_buffer_list: false,
                    ..switched(o, i)
                })
            }),
    {
        let n = self.buffers.len();
        if n <= 1 {
            return Err("没有其他缓冲区".to_owned());
        }
        let i = if next {
            (self.current + 1) % n
        } else if self.current == 0 {
            n - 1
        } else {
            self.current - 1
        };
        let id = self.buffers[i].id().as_usize();
        self.activate(i);
        let m = Editor::msg_number("Switched to buffer ", id);
        self.set_message(m.as_str());
        self.show_buffer_list = false;
        Ok(())
    }

    /// `:bd [id]` or `:bd! [id]`.
    fn cmd_delete(&mut self, arg: Option<&Vec<char>>, force: bool) -> (r: Result<(), String>)
        requires
            old(self).wf(),
        ensures
            final(self).wf(),
            ({
                let o = old(self)@;
                let parsed = match arg {
                    Some(a) => parse_dec(a@),
                    None => Some(cur(o).id as usize),
                };
                match parsed {
                    None => err_is(r, "Invalid buffer ID"@) && final(self)@ == o,
                    Some(n) => match index_of_id(o.buffers, n as nat) {
                        None => err_is(r, not_found_msg(n)) && final(self)@ == o,
                        Some(i) => {
                            &&& !force && o.buffers[i].modified ==> err_is(r, unsaved_msg(n)) && final(self)@ == o
                            &&& (force || !o.buffers[i].modified) && (o.buffers.len() > 1 || o.next_id < usize::MAX)
                                ==> r is Ok && closed(o, final(self)@, i)
                                && final(self)@.message == Some("Deleted buffer "@ + dec(n as nat))
                        },
                    },
                }
            }),
    {
        let id = match arg {
            Some(a) => match parse_usize(a) {
                Some(n) => n,
                None => {
                    return Err("Invalid buffer ID".to_owned());
                },
            },
            None => self.buffers[self.current].id().as_usize(),
        };
        let res = if force {
            self.delete_buffer_force(BufferId::new(id))
        } else {
            self.delete_buffer(BufferId::new(id))
        };
        match res {
            Ok(()) => {
                let m = Editor::msg_number("Deleted buffer ", id);
                self.set_message(m.as_str());
                Ok(())
            },
            Err(e) => Err(e),
        }
    }

    /// `:new`.
    fn cmd_new(&mut self)
        requires
            old(self).wf(),
        ensures
            final(self).wf(),
            old(self)@.next_id < usize::MAX ==> final(self)@ == (EditorView {
                message: Some("Created new buffer "@ + dec(old(self)@.next_id as nat)),
                ..with_new_buffer(old(self)@)
            }),
            old(self)@.next_id == usize::MAX ==> final(self)@ == (EditorView {
                message: Some("Created new buffer "@ + dec(cur(old(self)@).id)),
                ..old(self)@
            }),
    {
        let next = self.next_buffer_id;
        let id = if next < usize::MAX {
            self.create_new_buffer();
            proof {
                assert(self@ == with_new_buffer(old(self)@));
            }
            next
        } else {
            self.buffers[self.current].id().as_usize()
        };
        let m = Editor::msg_number("Created new buffer ", id);
        self.set_message(m.as_str());
    }
}

impl Editor {
    fn msg_with_number(prefix: &str, n: usize, suffix: &str) -> (r: String)
        ensures
            r@ == prefix@ + dec(n as nat) + suffix@,
    {
        let mut v: Vec<char> = Vec::new();
        extend_str(&mut v, prefix);
        let d = decimal(n);
        extend_chars(&mut v, &d);
        extend_str(&mut v, suffix);
        string_of(v.as_slice())
    }

    /// Applies `set <name>`.
    fn set_option(&mut self, name: &Vec<char>) -> (r: Result<(), String>)
        requires
            old(self).wf(),
        ensures
            final(self).wf(),
            match option_update(old(self)@.options, name@) {
                Some((o, m)) => r is Ok && final(self)@ == (EditorView { options: o, message: Some(m), ..old(self)@ }),
                None => r matches Err(e) && e@ == "Unknown option: "@ + name@ && final(self)@ == old(self)@,
            },
    {
        if same_chars(name, "nu") || same_chars(name, "number") {
            self.options.number = true;
            self.set_message("Enabled line numbers");
        } else if same_chars(name, "nonu") || same_chars(name, "nonumber") {
            self.options.number = false;
            self.set_message("Disabled line numbers");
        } else if same_chars(name, "rnu") || same_chars(name, "relativenumber") {
            self.options.relativenumber = true;
            self.set_message("Enabled relative line numbers");
        } else if same_chars(name, "nornu") || same_chars(name, "norelativenumber") {
            self.options.relativenumber = false;
            self.set_message("Disabled relative line numbers");
        } else if same_chars(name, "cursorline") {
            self.options.cursorline = true;
            self.set_message("Enabled cursor line highlighting");
        } else if same_chars(name, "nocursorline") {
            self.options.cursorline = false;
            self.set_message("Disabled cursor line highlighting");
        } else {
            let mut v: Vec<char> = Vec::new();
            extend_str(&mut v, "Unknown option: ");
            extend_chars(&mut v, name);
            return Err(string_of(v.as_slice()));
        }
        Ok(())
    }

    /// Runs a substitute command on the active buffer, recording the state for undo.
    fn substitute(&mut self, command: &str) -> (r: Result<(), String>)
        requires
            old(self).wf(),
        ensures
            final(self).wf(),
            match parse_sub(command@) {
                None => r matches Err(e) && e@ == "Invalid substitute command"@ && final(self)@ == old(self)@,
                Some((p, rep, g, full)) => {
                    let t = cur(old(self)@).text;
                    let l = old(self)@.cursor.line;
                    let range = if full {
                        None
                    } else {
                        Some((l, min(l + 1, usize::MAX as int) as usize))
                    };
                    let res = substitution(t, p, rep, g, range);
                    &&& r is Ok
                    &&& recorded(old(self)@, final(self)@)
                    &&& final(self)@.current == old(self)@.current
                    &&& final(self)@.message == Some("Replaced "@ + dec(res.1 as nat) + " occurrence(s)"@)
                    &&& p.len() > 0 && !cur(old(self)@).read_only ==> final(self)@.buffers == old(self)@.buffers.update(
                        old(self)@.current as int,
                        BufferView { text: res.0, modified: true, ..cur(old(self)@) },
                    )
                    &&& (p.len() == 0 || cur(old(self)@).read_only) ==> final(self)@.buffers == old(self)@.buffers
                },
            },
    {
        let (pattern, replacement, global, full) = match parse_substitute_command(command) {
            Some(x) => x,
            None => {
                return Err("Invalid substitute command".to_owned());
            },
        };
        self.save_state();
        let l = self.cursor.line;
        let range = if full {
            None
        } else {
            Some((l, if l < usize::MAX { l + 1 } else { l }))
        };
        let i = self.current;
        let res = replace_in_buffer(&mut self.buffers[i], pattern.as_str(), replacement.as_str(), global, range);
        proof {
            let b1 = self.buffers@[i as int]@;
            assert(self@.buffers =~= old(self)@.buffers.update(i as int, b1));
        }
        self.fit_cursor();
        let m = Editor::msg_with_number("Replaced ", res.count, " occurrence(s)");
        self.set_message(m.as_str());
        Ok(())
    }

    /// The buffer id named by the word at `k`, or the active one when there is none.
    fn id_argument(&self, ws: &Vec<Vec<char>>, k: usize) -> (r: Result<usize, String>)
        requires
            self.wf(),
        ensures
            ws@.len() > k ==> match parse_dec(ws@[k as int]@) {
                Some(n) => r == Ok::<usize, String>(n),
                None => r matches Err(e) && e@ == "Invalid buffer ID"@,
            },
            ws@.len() <= k ==> r == Ok::<usize, String>(cur(self@).id as usize),
    {
        if ws.len() > k {
            match parse_usize(&ws[k]) {
                Some(n) => Ok(n),
                None => Err("Invalid buffer ID".to_owned()),
            }
        } else {
            Ok(self.buffers[self.current].id().as_usize())
        }
    }

    /// Runs a colon-command (without its leading `:`). The editor does its
    /// part; the outcome says what is left to the caller (saving, opening a
    /// file, leaving). Unknown commands and bad arguments give an error.
    pub fn execute_command(&mut self, command: &str) -> (r: Result<CommandOutcome, String>)
        requires
            old(self).wf(),
        ensures
            final(self).wf(),
            ({
                let ws = words(command@);
                let o = old(self)@;
                if ws.len() == 0 {
                    r == Ok::<CommandOutcome, String>(CommandOutcome::Done) && final(self)@ == o
                } else {
                    let w = ws[0];
                    match kind_of(w) {
                        CommandKind::Quit => final(self)@ == o && if cur(o).modified {
                            outcome_view(r) == Err::<(int, Option<Seq<char>>, bool), Seq<char>>("No write since last change (add ! to override)"@)
                        } else {
                            r == Ok::<CommandOutcome, String>(CommandOutcome::Quit)
                        },
                        CommandKind::ForceQuit => final(self)@ == o && r == Ok::<CommandOutcome, String>(CommandOutcome::Quit),
                        CommandKind::Write => final(self)@ == o && outcome_view(r) == Ok::<(int, Option<Seq<char>>, bool), Seq<char>>(
                            (2, if ws.len() > 1 { Some(ws[1]) } else { None }, false)),
                        CommandKind::WriteQuit => final(self)@ == o && outcome_view(r) == Ok::<(int, Option<Seq<char>>, bool), Seq<char>>((2, None, true)),
                        CommandKind::Edit => final(self)@ == o && outcome_view(r) == if ws.len() > 1 {
                            Ok::<(int, Option<Seq<char>>, bool), Seq<char>>((3, Some(ws[1]), false))
                        } else {
                            Err::<(int, Option<Seq<char>>, bool), Seq<char>>("Filename required"@)
                        },
                        CommandKind::Registers => r == Ok::<CommandOutcome, String>(CommandOutcome::Done)
                            && final(self)@ == (EditorView { show_registers_panel: true, ..o }),
                        CommandKind::Buffers => r == Ok::<CommandOutcome, String>(CommandOutcome::Done)
                            && final(self)@ == (EditorView { show_buffer_list: true, ..o }),
                        CommandKind::SetOption => if ws.len() > 1 {
                            match option_update(o.options, ws[1]) {
                                Some((opts, m)) => r == Ok::<CommandOutcome, String>(CommandOutcome::Done)
                                    && final(self)@ == (EditorView { options: opts, message: Some(m), ..o }),
                                None => outcome_view(r) == Err::<(int, Option<Seq<char>>, bool), Seq<char>>("Unknown option: "@ + ws[1])
                                    && final(self)@ == o,
                            }
                        } else {
                            r == Ok::<CommandOutcome, String>(CommandOutcome::Done) && final(self)@ == o
                        },
                        CommandKind::Buffer => if ws.len() <= 1 {
                            outcome_view(r) == Err::<(int, Option<Seq<char>>, bool), Seq<char>>("Buffer ID required"@) && final(self)@ == o
                        } else {
                            match parse_dec(ws[1]) {
                                None => outcome_view(r) == Err::<(int, Option<Seq<char>>, bool), Seq<char>>("Invalid buffer ID"@) && final(self)@ == o,
                                Some(n) => match index_of_id(o.buffers, n as nat) {
                                    None => outcome_view(r) == Err::<(int, Option<Seq<char>>, bool), Seq<char>>(not_found_msg(n)) && final(self)@ == o,
                                    Some(i) => r == Ok::<CommandOutcome, String>(CommandOutcome::Done) && final(self)@ == (EditorView {
                                        message: Some("Switched to buffer "@ + dec(n as nat)),
                                        show_buffer_list: false,
                                        ..switched(o, i)
                                    }),
                                },
                            }
                        },
                        CommandKind::New => r == Ok::<CommandOutcome, String>(CommandOutcome::Done) && if o.next_id
                            < usize::MAX {
                            final(self)@ == (EditorView {
                                message: Some("Created new buffer "@ + dec(o.next_id as nat)),
                                ..with_new_buffer(o)
                            })
                        } else {
                            final(self)@ == (EditorView {
                                message: Some("Created new buffer "@ + dec(cur(o).id)),
                                ..o
                            })
                        },
                        CommandKind::Next | CommandKind::Prev => (o.buffers.len() <= 1 ==> outcome_view(r)
                            == Err::<(int, Option<Seq<char>>, bool), Seq<char>>(no_other_msg()) && final(self)@ == o)
                            && (o.buffers.len() > 1 ==> r == Ok::<CommandOutcome, String>(CommandOutcome::Done) && ({
                                let i = if kind_of(w) == CommandKind::Next {
                                    (o.current + 1) % (o.buffers.len() as int)
                                } else if o.current == 0 {
                                    o.buffers.len() - 1
                                } else {
                                    o.current - 1
                                };
                                final(self)@ == (EditorView {
                                    message: Some("Switched to buffer "@ + dec(o.buffers[i].id)),
                                    show_buffer_list: false,
                                    ..switched(o, i)
                                })
                            })),
                        CommandKind::Delete | CommandKind::ForceDelete => {
                            let force = kind_of(w) == CommandKind::ForceDelete;
                            let arg = if ws.len() > 1 { parse_dec(ws[1]) } else { Some(cur(o).id as usize) };
                            match arg {
                                None => outcome_view(r) == Err::<(int, Option<Seq<char>>, bool), Seq<char>>("Invalid buffer ID"@) && final(self)@ == o,
                                Some(n) => match index_of_id(o.buffers, n as nat) {
                                    None => outcome_view(r) == Err::<(int, Option<Seq<char>>, bool), Seq<char>>(not_found_msg(n)) && final(self)@ == o,
                                    Some(i) => {
                                        &&& !force && o.buffers[i].modified ==> outcome_view(r) == Err::<(int, Option<Seq<char>>, bool), Seq<char>>(unsaved_msg(n))
                                            && final(self)@ == o
                                        &&& (force || !o.buffers[i].modified) && (o.buffers.len() > 1 || o.next_id < usize::MAX)
                                            ==> r == Ok::<CommandOutcome, String>(CommandOutcome::Done)
                                            && closed(o, final(self)@, i)
                                            && final(self)@.message == Some("Deleted buffer "@ + dec(n as nat))
                                    },
                                },
                            }
                        },
                        CommandKind::Substitute => match parse_sub(command@) {
                            None => outcome_view(r) == Err::<(int, Option<Seq<char>>, bool), Seq<char>>("Invalid substitute command"@)
                                && final(self)@ == o,
                            Some((p, rep, g, full)) => {
                                let l = o.cursor.line;
                                let range = if full {
                                    None
                                } else {
                                    Some((l, min(l + 1, usize::MAX as int) as usize))
                                };
                                let res = substitution(cur(o).text, p, rep, g, range);
                                &&& r == Ok::<CommandOutcome, String>(CommandOutcome::Done)
                                &&& recorded(o, final(self)@)
                                &&& final(self)@.current == o.current
                                &&& final(self)@.message == Some("Replaced "@ + dec(res.1 as nat) + " occurrence(s)"@)
                                &&& p.len() > 0 && !cur(o).read_only ==> final(self)@.buffers == o.buffers.update(
                                    o.current as int,
                                    BufferView { text: res.0, modified: true, ..cur(o) },
                                )
                                &&& (p.len() == 0 || cur(o).read_only) ==> final(self)@.buffers == o.buffers
                            },
                        },
                        CommandKind::Unknown => outcome_view(r) == Err::<(int, Option<Seq<char>>, bool), Seq<char>>("Unknown command: "@ + w)
                            && final(self)@ == o,
                    }
                }
            }),
    {
        let text = chars_of(command);
        let ws = split_words(&text);
        if ws.len() == 0 {
            return Ok(CommandOutcome::Done);
        }
        let w = &ws[0];
        let kind = classify(w);
        if kind == CommandKind::Quit {
            if self.buffers[self.current].is_modified() {
                return Err("No write since last change (add ! to override)".to_owned());
            }
            return Ok(CommandOutcome::Quit);
        }
        if kind == CommandKind::ForceQuit {
            return Ok(CommandOutcome::Quit);
        }
        if kind == CommandKind::Write {
            let path = if ws.len() > 1 {
                Some(string_of(ws[1].as_slice()))
            } else {
                None
            };
            return Ok(CommandOutcome::Write { path, quit: false });
        }
        if kind == CommandKind::WriteQuit {
            return Ok(CommandOutcome::Write { path: None, quit: true });
        }
        if kind == CommandKind::Edit {
            if ws.len() > 1 {
                return Ok(CommandOutcome::Open(string_of(ws[1].as_slice())));
            }
            return Err("Filename required".to_owned());
        }
        if kind == CommandKind::Registers {
            self.show_registers_panel = true;
            return Ok(CommandOutcome::Done);
        }
        if kind == CommandKind::Buffers {
            self.show_buffer_list = true;
            return Ok(CommandOutcome::Done);
        }
        if kind == CommandKind::SetOption {
            if ws.len() > 1 {
                match self.set_option(&ws[1]) {
                    Ok(()) => {},
                    Err(e) => {
                        return Err(e);
                    },
                }
            }
            return Ok(CommandOutcome::Done);
        }
        if kind == CommandKind::Buffer {
            let arg = if ws.len() > 1 {
                Some(&ws[1])
            } else {
                None
            };
            return match self.cmd_buffer(arg) {
                Ok(()) => Ok(CommandOutcome::Done),
                Err(e) => Err(e),
            };
        }
        if kind == CommandKind::Next || kind == CommandKind::Prev {
            return match self.cmd_cycle(kind == CommandKind::Next) {
                Ok(()) => Ok(CommandOutcome::Done),
                Err(e) => Err(e),
            };
        }
        if kind == CommandKind::Delete || kind == CommandKind::ForceDelete {
            let arg = if ws.len() > 1 {
                Some(&ws[1])
            } else {
                None
            };
            return match self.cmd_delete(arg, kind == CommandKind::ForceDelete) {
                Ok(()) => Ok(CommandOutcome::Done),
                Err(e) => Err(e),
            };
        }
        if kind == CommandKind::New {
            self.cmd_new();
            return Ok(CommandOutcome::Done);
        }
        if kind == CommandKind::Substitute {
            match self.substitute(command) {
                Ok(()) => {},
                Err(e) => {
                    return Err(e);
                },
            }
            return Ok(CommandOutcome::Done);
        }
        let mut v: Vec<char> = Vec::new();
        extend_str(&mut v, "Unknown command: ");
        extend_chars(&mut v, w);
        Err(string_of(v.as_slice()))
    }
}

/// How a register's content is shown: at most 80 characters (then `...`),
/// with line breaks and tabs made visible.
pub open spec fn shown(content: Seq<char>) -> Seq<char> {
    let t = if content.len() > 80 {
        content.subrange(0, 80) + "..."@
    } else {
        content
    };
    t.map_values(|c: char| show_char(c))
}

pub open spec fn show_char(c: char) -> char {
    if c == '\n' {
        '↵'
    } else if c == '\t' {
        '→'
    } else {
        c
    }
}

/// The line listing register `r`.
pub open spec fn register_line(r: RegisterView) -> Seq<char> {
    seq!['"', r.name] + "   "@ + shown(r.content) + (if r.linewise { " (linewise)"@ } else { ""@ }) + "\n"@
}

pub open spec fn register_lines(rs: Seq<RegisterView>) -> Seq<char>
    decreases rs.len(),
{
    if rs.len() == 0 {
        Seq::empty()
    } else {
        register_lines(rs.drop_last()) + register_line(rs.last())
    }
}

/// The listing of every non-empty register.
pub open spec fn registers_text(m: RegistersView) -> Seq<char> {
    let rs = nonempty(listing(m));
    if rs.len() == 0 {
        "No registers"@
    } else {
        "Registers:\n----------\n"@ + register_lines(rs)
    }
}

/// The name shown for buffer `b`: its file name, or `[缓冲区 <id>]`.
pub open spec fn buffer_name(b: BufferView) -> Seq<char> {
    match b.path {
        Some(p) => match file_name(p) {
            Some(n) => n,
            None => "[缓冲区 "@ + dec(b.id) + "]"@,
        },
        None => "[缓冲区 "@ + dec(b.id) + "]"@,
    }
}

/// The line listing buffer `i`.
pub open spec fn buffer_line(v: EditorView, i: int) -> Seq<char> {
    let b = v.buffers[i];
    seq![if i == v.current { '%' } else { ' ' }, if b.modified { '+' } else { ' ' }] + "  "@ + dec(b.id)
        + "  "@ + buffer_name(b) + "\n"@
}

pub open spec fn buffer_lines(v: EditorView, n: int) -> Seq<char>
    decreases n,
{
    if n <= 0 {
        Seq::empty()
    } else {
        buffer_lines(v, n - 1) + buffer_line(v, n - 1)
    }
}

fn show_content(c: &Vec<char>) -> (r: Vec<char>)
    ensures
        r@ == shown(c@),
{
    let mut t: Vec<char> = Vec::new();
    let n = if c.len() > 80 {
        80
    } else {
        c.len()
    };
    let mut i: usize = 0;
    while i < n
        invariant
            n <= c@.len(),
            i <= n,
            t@ == c@.subrange(0, i as int),
        decreases n - i,
    {
        t.push(c[i]);
        proof {
            assert(c@.subrange(0, i + 1) =~= c@.subrange(0, i as int).push(c@[i as int]));
        }
        i = i + 1;
    }
    if c.len() > 80 {
        extend_str(&mut t, "...");
    } else {
        proof {
            assert(c@.subrange(0, c@.len() as int) =~= c@);
        }
    }
    let ghost tt = t@;
    let mut out: Vec<char> = Vec::new();
    let mut k: usize = 0;
    while k < t.len()
        invariant
            t@ == tt,
            k <= t@.len(),
            out@ == tt.subrange(0, k as int).map_values(|x: char| show_char(x)),
        decreases t@.len() - k,
    {
        let x = t[k];
        let y = if x == '\n' {
            '↵'
        } else if x == '\t' {
            '→'
        } else {
            x
        };
        out.push(y);
        proof {
            assert(tt.subrange(0, k + 1).map_values(|x: char| show_char(x)) =~= tt.subrange(0, k as int).map_values(
                |x: char| show_char(x),
            ).push(show_char(x)));
        }
        k = k + 1;
    }
    proof {
        assert(tt.subrange(0, tt.len() as int) =~= tt);
    }
    out
}

/// The file name of `p`, when it names one.
fn file_name_of(p: &Vec<char>) -> (r: Option<Vec<char>>)
    ensures
        match file_name(p@) {
            Some(n) => r matches Some(x) && x@ == n,
            None => r is None,
        },
{
    let mut e = p.len();
    proof {
        assert(p@.subrange(0, e as int) =~= p@);
    }
    while e > 0 && p[e - 1] == '/'
        invariant
            e <= p@.len(),
            trim_slashes(p@.subrange(0, e as int)) == trim_slashes(p@),
        decreases e,
    {
        proof {
            assert(p@.subrange(0, e as int).drop_last() =~= p@.subrange(0, e - 1));
        }
        e = e - 1;
    }
    let mut q: Vec<char> = Vec::new();
    let mut i: usize = 0;
    while i < e
        invariant
            e <= p@.len(),
            i <= e,
            q@ == p@.subrange(0, i as int),
        decreases e - i,
    {
        q.push(p[i]);
        proof {
            assert(p@.subrange(0, i + 1) =~= p@.subrange(0, i as int).push(p@[i as int]));
        }
        i = i + 1;
    }
    proof {
        let pe = p@.subrange(0, e as int);
        assert(q@ == pe);
        if e > 0 {
            assert(pe.last() != '/');
        }
        assert(trim_slashes(pe) == pe);
    }
    let a = skip_backward(&q, q.len(), CharClass::NotSlash);
    let mut comp: Vec<char> = Vec::new();
    let mut j: usize = a;
    while j < q.len()
        invariant
            a <= j <= q@.len(),
            comp@ == q@.subrange(a as int, j as int),
        decreases q@.len() - j,
    {
        comp.push(q[j]);
        proof {
            assert(q@.subrange(a as int, j + 1) =~= q@.subrange(a as int, j as int).push(q@[j as int]));
        }
        j = j + 1;
    }
    let n = comp.len();
    let dot = n == 1 && comp[0] == '.';
    let dotdot = n == 2 && comp[0] == '.' && comp[1] == '.';
    proof {
        if n == 1 {
            assert(dot == (comp@ == seq!['.'])) by {
                if comp@[0] == '.' {
                    assert(comp@ =~= seq!['.']);
                }
            }
        } else {
            assert(comp@ != seq!['.']);
        }
        if n == 2 {
            assert(dotdot == (comp@ == seq!['.', '.'])) by {
                if comp@[0] == '.' && comp@[1] == '.' {
                    assert(comp@ =~= seq!['.', '.']);
                }
            }
        } else {
            assert(comp@ != seq!['.', '.']);
        }
    }
    if n == 0 || dot || dotdot {
        None
    } else {
        Some(comp)
    }
}

impl Editor {
    /// The listing of every non-empty register, one per line.
    pub fn format_registers(&self) -> (r: String)
        requires
            self.wf(),
        ensures
            r@ == registers_text(self@.registers),
    {
        let regs = self.registers.get_all_registers();
        if regs.len() == 0 {
            return "No registers".to_owned();
        }
        let mut out: Vec<char> = Vec::new();
        extend_str(&mut out, "Registers:\n----------\n");
        let ghost rs = nonempty(listing(self@.registers));
        let ghost head = out@;
        let mut i: usize = 0;
        proof {
            assert(rs.subrange(0, 0) =~= Seq::<RegisterView>::empty());
            assert(out@ =~= head + register_lines(rs.subrange(0, 0)));
        }
        while i < regs.len()
            invariant
                regs@.len() == rs.len(),
                forall|j: int| 0 <= j < regs@.len() ==> #[trigger] regs@[j]@ == rs[j],
                i <= regs@.len(),
                out@ == head + register_lines(rs.subrange(0, i as int)),
            decreases regs@.len() - i,
        {
            let r = &regs[i];
            out.push('"');
            out.push(r.name);
            extend_str(&mut out, "   ");
            let c = chars_of(r.content.as_str());
            let shown_c = show_content(&c);
            extend_chars(&mut out, &shown_c);
            if r.linewise {
                extend_str(&mut out, " (linewise)");
            } else {
                extend_str(&mut out, "");
            }
            extend_str(&mut out, "\n");
            proof {
                assert(rs.subrange(0, i + 1).drop_last() =~= rs.subrange(0, i as int));
                assert(rs.subrange(0, i + 1).last() == r@);
                assert(out@ =~= head + register_lines(rs.subrange(0, i + 1)));
            }
            i = i + 1;
        }
        proof {
            assert(rs.subrange(0, rs.len() as int) =~= rs);
        }
        string_of(out.as_slice())
    }

    fn name_of(&self, i: usize) -> (r: Vec<char>)
        requires
            self.wf(),
            i < self@.buffers.len(),
        ensures
            r@ == buffer_name(self@.buffers[i as int]),
    {
        let b = &self.buffers[i];
        let found = match b.file_path() {
            Some(p) => {
                let pc = chars_of(p.as_str());
                file_name_of(&pc)
            },
            None => None,
        };
        match found {
            Some(n) => n,
            None => {
                let mut v: Vec<char> = Vec::new();
                extend_str(&mut v, "[缓冲区 ");
                let d = decimal(b.id().as_usize());
                extend_chars(&mut v, &d);
                extend_str(&mut v, "]");
                v
            },
        }
    }

    /// Each open buffer, in id order: its id, its name, and whether it is active.
    pub fn list_buffers(&self) -> (r: Vec<(BufferId, String, bool)>)
        requires
            self.wf(),
        ensures
            r@.len() == self@.buffers.len(),
            forall|i: int|
                #![trigger r@[i]]
                0 <= i < r@.len() ==> r@[i].0.0 == self@.buffers[i].id && r@[i].1@ == buffer_name(self@.buffers[i])
                    && r@[i].2 == (i == self@.current),
    {
        let mut out: Vec<(BufferId, String, bool)> = Vec::new();
        let mut i: usize = 0;
        while i < self.buffers.len()
            invariant
                self.wf(),
                i <= self@.buffers.len(),
                out@.len() == i,
                forall|k: int|
                    #![trigger out@[k]]
                    0 <= k < i ==> out@[k].0.0 == self@.buffers[k].id && out@[k].1@ == buffer_name(self@.buffers[k])
                        && out@[k].2 == (k == self@.current),
            decreases self@.buffers.len() - i,
        {
            let n = self.name_of(i);
            out.push((self.buffers[i].id(), string_of(n.as_slice()), i == self.current));
            i = i + 1;
        }
        out
    }

    /// The buffer list as shown by `:ls`.
    pub fn format_buffer_list(&self) -> (r: String)
        requires
            self.wf(),
        ensures
            r@ == "缓冲区列表:\n"@ + Seq::new(40, |i: int| '-') + "\n"@ + buffer_lines(self@, self@.buffers.len() as int),
    {
        let mut out: Vec<char> = Vec::new();
        extend_str(&mut out, "缓冲区列表:\n");
        let ghost h0 = out@;
        let mut k: usize = 0;
        while k < 40
            invariant
                k <= 40,
                out@ == h0 + Seq::new(k as nat, |i: int| '-'),
            decreases 40 - k,
        {
            out.push('-');
            proof {
                assert(h0 + Seq::new((k + 1) as nat, |i: int| '-') =~= (h0 + Seq::new(k as nat, |i: int| '-')).push('-'));
            }
            k = k + 1;
        }
        extend_str(&mut out, "\n");
        let ghost head = out@;
        let mut i: usize = 0;
        proof {
            assert(out@ =~= head + buffer_lines(self@, 0));
        }
        while i < self.buffers.len()
            invariant
                self.wf(),
                i <= self@.buffers.len(),
                out@ == head + buffer_lines(self@, i as int),
            decreases self@.buffers.len() - i,
        {
            out.push(if i == self.current {
                '%'
            } else {
                ' '
            });
            out.push(if self.buffers[i].is_modified() {
                '+'
            } else {
                ' '
            });
            extend_str(&mut out, "  ");
            let d = decimal(self.buffers[i].id().as_usize());
            extend_chars(&mut out, &d);
            extend_str(&mut out, "  ");
            let n = self.name_of(i);
            extend_chars(&mut out, &n);
            extend_str(&mut out, "\n");
            proof {
                assert(out@ =~= head + buffer_lines(self@, i + 1));
            }
            i = i + 1;
        }
        string_of(out.as_slice())
    }
}

impl Default for Editor {
    fn default() -> (r: Editor)
        ensures
            r.wf(),
            r@.buffers.len() == 1,
    {
        Editor::new()
    }
}

/// Undo right after a command that recorded its starting state brings back
/// that state's text, path and cursor in the same buffer; redo then brings
/// back the text, path and cursor that the command left.
pub proof fn lemma_undo_redo(before: EditorView, after: EditorView, undone: EditorView, redone: EditorView)
    requires
        editor_wf(before),
        recorded(before, after),
        after.current == before.current,
        after.buffers.len() == before.buffers.len(),
        undo_step(after, undone),
        redo_step(undone, redone),
    ensures
        cur(undone).text == cur(before).text,
        cur(undone).path == cur(before).path,
        undone.cursor == before.cursor,
        cur(redone).text == cur(after).text,
        cur(redone).path == cur(after).path,
        redone.cursor == after.cursor,
{
    assert(after.history.undo.last() == snapshot_of(cur(before), before.cursor));
    assert(undone.history.redo.last() == snapshot_of(cur(after), after.cursor));
}

impl Editor {
    /// Sets the path that the active buffer is saved to.
    pub fn set_current_file_path(&mut self, path: &str)
        requires
            old(self).wf(),
        ensures
            final(self).wf(),
            final(self)@ == (EditorView {
                buffers: old(self)@.buffers.update(
                    old(self)@.current as int,
                    BufferView { path: Some(path@), ..cur(old(self)@) },
                ),
                ..old(self)@
            }),
    {
        let i = self.current;
        self.buffers[i].set_file_path(path.to_owned());
        proof {
            assert(self@.buffers =~= old(self)@.buffers.update(
                i as int,
                BufferView { path: Some(path@), ..cur(old(self)@) },
            ));
        }
    }

    /// Records that the active buffer has been written to its file.
    pub fn mark_current_saved(&mut self)
        requires
            old(self).wf(),
        ensures
            final(self).wf(),
            final(self)@ == (EditorView {
                buffers: old(self)@.buffers.update(
                    old(self)@.current as int,
                    BufferView { modified: false, ..cur(old(self)@) },
                ),
                ..old(self)@
            }),
    {
        let i = self.current;
        self.buffers[i].mark_saved();
        proof {
            assert(self@.buffers =~= old(self)@.buffers.update(
                i as int,
                BufferView { modified: false, ..cur(old(self)@) },
            ));
        }
    }
}

/// An offset one past the start of a cursor with a positive column is still
/// past the start of its line.
proof fn lemma_line_start_pos(t: Seq<char>, c: Cursor)
    requires
        c.line < line_count(t),
        c.column > 0,
    ensures
        offset_of(c, t) >= 1,
{
}

proof fn lemma_rank_prefix(bs: Seq<BufferView>, id: nat, k: int, j: int)
    requires
        0 <= k <= j <= bs.len(),
        rank(bs.subrange(0, k), id) == k,
        forall|x: int| k <= x < bs.len() ==> #[trigger] bs[x].id >= id,
    ensures
        rank(bs.subrange(0, j), id) == k,
    decreases j,
{
    if j > k {
        assert(bs.subrange(0, j).drop_last() =~= bs.subrange(0, j - 1));
        lemma_rank_prefix(bs, id, k, j - 1);
    }
}

proof fn lemma_rank_split(bs: Seq<BufferView>, id: nat, k: int)
    requires
        0 <= k <= bs.len(),
        rank(bs.subrange(0, k), id) == k,
        forall|x: int| k <= x < bs.len() ==> #[trigger] bs[x].id >= id,
    ensures
        rank(bs, id) == k,
{
    lemma_rank_prefix(bs, id, k, bs.len() as int);
    assert(bs.subrange(0, bs.len() as int) =~= bs);
}

} // verus!
