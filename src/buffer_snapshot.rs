//! Whole-buffer snapshots and the undo and redo stacks built from them.
use vstd::prelude::*;
use crate::buffer::{Buffer, BufferId, BufferView, opt_view};
use crate::cursor::Cursor;

verus! {

#[derive(Debug, Clone)]
pub struct BufferSnapshot {
    pub content: String,
    pub cursor: Cursor,
    pub file_path: Option<String>,
    pub modified: bool,
}

pub ghost struct SnapshotView {
    pub content: Seq<char>,
    pub cursor: Cursor,
    pub path: Option<Seq<char>>,
    pub modified: bool,
}

impl View for BufferSnapshot {
    type V = SnapshotView;

    open spec fn view(&self) -> SnapshotView {
        SnapshotView {
            content: self.content@,
            cursor: self.cursor,
            path: opt_view(self.file_path),
            modified: self.modified,
        }
    }
}

/// The snapshot of buffer `v` with cursor `c`.
pub open spec fn snapshot_of(v: BufferView, c: Cursor) -> SnapshotView {
    SnapshotView { content: v.text, cursor: c, path: v.path, modified: v.modified }
}

/// Buffer `v` rebuilt from snapshot `s`: same id, the snapshot's text and
/// path, counted as modified, not read-only.
pub open spec fn restored(v: BufferView, s: SnapshotView) -> BufferView {
    BufferView { id: v.id, text: s.content, path: s.path, modified: true, read_only: false }
}

impl BufferSnapshot {
    pub fn from_buffer(buffer: &Buffer, cursor: &Cursor) -> (r: BufferSnapshot)
        ensures
            r@ == snapshot_of(buffer@, *cursor),
    {
        BufferSnapshot {
            content: buffer.to_string(),
            cursor: *cursor,
            file_path: buffer.file_path(),
            modified: buffer.is_modified(),
        }
    }

    /// Rebuilds `buffer` from this snapshot and puts the cursor back.
    pub fn apply_to_buffer(&self, buffer: &mut Buffer, cursor: &mut Cursor)
        ensures
            final(buffer)@ == restored(old(buffer)@, self@),
            *final(cursor) == self.cursor,
    {
        let id = buffer.id();
        let mut fresh = Buffer::new(BufferId::new(id.as_usize()));
        fresh.insert(0, self.content.as_str());
        match &self.file_path {
            Some(p) => fresh.set_file_path(p.clone()),
            None => {},
        }
        proof {
            assert(fresh@.text =~= self@.content);
        }
        *buffer = fresh;
        *cursor = self.cursor;
    }

    fn duplicate(&self) -> (r: BufferSnapshot)
        ensures
            r@ == self@,
    {
        BufferSnapshot {
            content: self.content.clone(),
            cursor: self.cursor,
            file_path: match &self.file_path {
                Some(p) => Some(p.clone()),
                None => None,
            },
            modified: self.modified,
        }
    }
}

pub struct SnapshotManager {
    undo_stack: Vec<BufferSnapshot>,
    redo_stack: Vec<BufferSnapshot>,
}

pub ghost struct HistoryView {
    pub undo: Seq<SnapshotView>,
    pub redo: Seq<SnapshotView>,
}

impl View for SnapshotManager {
    type V = HistoryView;

    closed spec fn view(&self) -> HistoryView {
        HistoryView {
            undo: self.undo_stack@.map_values(|s: BufferSnapshot| s@),
            redo: self.redo_stack@.map_values(|s: BufferSnapshot| s@),
        }
    }
}

impl SnapshotManager {
    pub fn new() -> (r: SnapshotManager)
        ensures
            r@.undo.len() == 0,
            r@.redo.len() == 0,
    {
        let r = SnapshotManager { undo_stack: Vec::new(), redo_stack: Vec::new() };
        proof {
            assert(r@.undo =~= Seq::<SnapshotView>::empty());
            assert(r@.redo =~= Seq::<SnapshotView>::empty());
        }
        r
    }

    /// Pushes the current state onto the undo stack and forgets what could be redone.
    pub fn save(&mut self, buffer: &Buffer, cursor: &Cursor)
        ensures
            final(self)@.undo == old(self)@.undo.push(snapshot_of(buffer@, *cursor)),
            final(self)@.redo.len() == 0,
    {
        let snap = BufferSnapshot::from_buffer(buffer, cursor);
        self.undo_stack.push(snap);
        self.redo_stack = Vec::new();
        proof {
            assert(self@.undo =~= old(self)@.undo.push(snapshot_of(buffer@, *cursor)));
            assert(self@.redo =~= Seq::<SnapshotView>::empty());
        }
    }

    /// Restores the newest saved state, keeping the current one for redo.
    /// Returns whether there was anything to undo.
    pub fn undo(&mut self, buffer: &mut Buffer, cursor: &mut Cursor) -> (r: bool)
        ensures
            r == (old(self)@.undo.len() > 0),
            r ==> final(self)@.undo == old(self)@.undo.drop_last() && final(self)@.redo == old(
                self,
            )@.redo.push(snapshot_of(old(buffer)@, *old(cursor))) && final(buffer)@ == restored(
                old(buffer)@,
                old(self)@.undo.last(),
            ) && *final(cursor) == old(self)@.undo.last().cursor,
            !r ==> final(self)@ == old(self)@ && final(buffer)@ == old(buffer)@ && *final(cursor)
                == *old(cursor),
    {
        match self.undo_stack.pop() {
            Some(snap) => {
                let current = BufferSnapshot::from_buffer(buffer, cursor);
                self.redo_stack.push(current);
                snap.apply_to_buffer(buffer, cursor);
                proof {
                    assert(self@.undo =~= old(self)@.undo.drop_last());
                    assert(self@.redo =~= old(self)@.redo.push(snapshot_of(old(buffer)@, *old(cursor))));
                }
                true
            },
            None => false,
        }
    }

    /// Restores the newest undone state, keeping the current one for undo.
    /// Returns whether there was anything to redo.
    pub fn redo(&mut self, buffer: &mut Buffer, cursor: &mut Cursor) -> (r: bool)
        ensures
            r == (old(self)@.redo.len() > 0),
            r ==> final(self)@.redo == old(self)@.redo.drop_last() && final(self)@.undo == old(
                self,
            )@.undo.push(snapshot_of(old(buffer)@, *old(cursor))) && final(buffer)@ == restored(
                old(buffer)@,
                old(self)@.redo.last(),
            ) && *final(cursor) == old(self)@.redo.last().cursor,
            !r ==> final(self)@ == old(self)@ && final(buffer)@ == old(buffer)@ && *final(cursor)
                == *old(cursor),
    {
        match self.redo_stack.pop() {
            Some(snap) => {
                let current = BufferSnapshot::from_buffer(buffer, cursor);
                self.undo_stack.push(current);
                snap.apply_to_buffer(buffer, cursor);
                proof {
                    assert(self@.redo =~= old(self)@.redo.drop_last());
                    assert(self@.undo =~= old(self)@.undo.push(snapshot_of(old(buffer)@, *old(cursor))));
                }
                true
            },
            None => false,
        }
    }

    pub fn can_undo(&self) -> (r: bool)
        ensures
            r == (self@.undo.len() > 0),
    {
        self.undo_stack.len() > 0
    }

    pub fn can_redo(&self) -> (r: bool)
        ensures
            r == (self@.redo.len() > 0),
    {
        self.redo_stack.len() > 0
    }

    /// Forgets all history.
    pub fn clear(&mut self)
        ensures
            final(self)@.undo.len() == 0,
            final(self)@.redo.len() == 0,
    {
        self.undo_stack = Vec::new();
        self.redo_stack = Vec::new();
        proof {
            assert(self@.undo =~= Seq::<SnapshotView>::empty());
            assert(self@.redo =~= Seq::<SnapshotView>::empty());
        }
    }
}

impl Default for SnapshotManager {
    fn default() -> (r: SnapshotManager)
        ensures
            r@.undo.len() == 0,
            r@.redo.len() == 0,
    {
        SnapshotManager::new()
    }
}

} // verus!
