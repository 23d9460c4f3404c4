//! Windows: views onto buffers, each with its own cursor and scroll offset,
//! and the list of windows with the one that has focus.
use vstd::prelude::*;
use crate::buffer::BufferId;
use crate::cursor::Cursor;

verus! {

#[derive(Debug, Clone, Copy, PartialEq, Eq, Hash)]
pub struct WindowId(pub usize);

impl WindowId {
    pub fn new(id: usize) -> (r: WindowId)
        ensures
            r.0 == id,
    {
        WindowId(id)
    }

    pub fn as_usize(&self) -> (r: usize)
        ensures
            r == self.0,
    {
        self.0
    }
}

#[derive(Debug, Clone)]
pub struct Window {
    id: WindowId,
    buffer_id: BufferId,
    cursor: Cursor,
    scroll_offset: usize,
}

pub ghost struct WindowView {
    pub id: usize,
    pub buffer_id: usize,
    pub cursor: Cursor,
    pub scroll_offset: usize,
}

impl View for Window {
    type V = WindowView;

    closed spec fn view(&self) -> WindowView {
        WindowView {
            id: self.id.0,
            buffer_id: self.buffer_id.0,
            cursor: self.cursor,
            scroll_offset: self.scroll_offset,
        }
    }
}

impl Window {
    /// A window on `buffer_id` with the cursor at the origin, not scrolled.
    pub fn new(id: WindowId, buffer_id: BufferId) -> (r: Window)
        ensures
            r@ == (WindowView {
                id: id.0,
                buffer_id: buffer_id.0,
                cursor: Cursor { line: 0, column: 0, preferred_column: None },
                scroll_offset: 0,
            }),
    {
        Window { id, buffer_id, cursor: Cursor::at_origin(), scroll_offset: 0 }
    }

    pub fn id(&self) -> (r: WindowId)
        ensures
            r.0 == self@.id,
    {
        self.id
    }

    pub fn buffer_id(&self) -> (r: BufferId)
        ensures
            r.0 == self@.buffer_id,
    {
        self.buffer_id
    }

    pub fn set_buffer(&mut self, buffer_id: BufferId)
        ensures
            final(self)@ == (WindowView { buffer_id: buffer_id.0, ..old(self)@ }),
    {
        self.buffer_id = buffer_id;
    }

    pub fn cursor(&self) -> (r: &Cursor)
        ensures
            *r == self@.cursor,
    {
        &self.cursor
    }

    /// Replaces the window's cursor.
    pub fn set_cursor(&mut self, cursor: Cursor)
        ensures
            final(self)@ == (WindowView { cursor, ..old(self)@ }),
    {
        self.cursor = cursor;
    }

    pub fn scroll_offset(&self) -> (r: usize)
        ensures
            r == self@.scroll_offset,
    {
        self.scroll_offset
    }

    pub fn set_scroll_offset(&mut self, offset: usize)
        ensures
            final(self)@ == (WindowView { scroll_offset: offset, ..old(self)@ }),
    {
        self.scroll_offset = offset;
    }
}

#[derive(Debug, Clone, Copy, PartialEq, Eq, Structural)]
pub enum SplitDirection {
    Horizontal,
    Vertical,
}

#[derive(Debug)]
pub struct WindowManager {
    windows: Vec<Window>,
    current_window_idx: usize,
    next_window_id: usize,
}

pub ghost struct WindowsView {
    pub windows: Seq<WindowView>,
    pub current: usize,
    pub next_id: usize,
}

impl View for WindowManager {
    type V = WindowsView;

    closed spec fn view(&self) -> WindowsView {
        WindowsView {
            windows: self.windows@.map_values(|w: Window| w@),
            current: self.current_window_idx,
            next_id: self.next_window_id,
        }
    }
}

/// The focused window is one of the windows, when there are any, and every
/// window's id is below the next one to hand out.
pub open spec fn windows_wf(v: WindowsView) -> bool {
    &&& v.windows.len() == 0 || v.current < v.windows.len()
    &&& forall|i: int| 0 <= i < v.windows.len() ==> #[trigger] v.windows[i].id < v.next_id
}

impl WindowManager {
    pub fn new() -> (r: WindowManager)
        ensures
            r@.windows.len() == 0,
            r@.current == 0,
            r@.next_id == 0,
    {
        let r = WindowManager { windows: Vec::new(), current_window_idx: 0, next_window_id: 0 };
        proof {
            assert(r@.windows =~= Seq::<WindowView>::empty());
        }
        r
    }

    fn take_id(&mut self) -> (r: WindowId)
        requires
            old(self)@.next_id < usize::MAX,
        ensures
            r.0 == old(self)@.next_id,
            final(self)@ == (WindowsView { next_id: (old(self)@.next_id + 1) as usize, ..old(self)@ }),
    {
        let id = WindowId::new(self.next_window_id);
        self.next_window_id = self.next_window_id + 1;
        id
    }

    /// Adds a window on `buffer_id` and gives it focus at index 0; some id
    /// must be left to hand out.
    pub fn create_initial_window(&mut self, buffer_id: BufferId) -> (r: WindowId)
        requires
            windows_wf(old(self)@),
            old(self)@.next_id < usize::MAX,
        ensures
            windows_wf(final(self)@),
            forall|i: int| 0 <= i < old(self)@.windows.len() ==> #[trigger] old(self)@.windows[i].id != r.0,
            r.0 == old(self)@.next_id,
            final(self)@.next_id == old(self)@.next_id + 1,
            final(self)@.windows == old(self)@.windows.push(
                WindowView {
                    id: r.0,
                    buffer_id: buffer_id.0,
                    cursor: Cursor { line: 0, column: 0, preferred_column: None },
                    scroll_offset: 0,
                },
            ),
            final(self)@.current == 0,
    {
        let id = self.take_id();
        let w = Window::new(id, buffer_id);
        self.windows.push(w);
        self.current_window_idx = 0;
        proof {
            assert(self@.windows =~= old(self)@.windows.push(w@));
        }
        id
    }

    /// Opens a window on `buffer_id` right after the focused one and focuses
    /// it; `None` when there is no window to split or every id is used.
    pub fn split_current(&mut self, direction: SplitDirection, buffer_id: BufferId) -> (r: Option<WindowId>)
        requires
            windows_wf(old(self)@),
        ensures
            windows_wf(final(self)@),
            old(self)@.windows.len() == 0 || old(self)@.next_id == usize::MAX ==> r is None && final(self)@
                == old(self)@,
            old(self)@.windows.len() > 0 && old(self)@.next_id < usize::MAX ==> r == Some(
                WindowId(old(self)@.next_id),
            ) && (forall|i: int|
                0 <= i < old(self)@.windows.len() ==> #[trigger] old(self)@.windows[i].id != old(self)@.next_id)
                && final(self)@.windows == old(self)@.windows.insert(
                old(self)@.current + 1,
                WindowView {
                    id: old(self)@.next_id,
                    buffer_id: buffer_id.0,
                    cursor: Cursor { line: 0, column: 0, preferred_column: None },
                    scroll_offset: 0,
                },
            ) && final(self)@.current == old(self)@.current + 1 && final(self)@.next_id == old(self)@.next_id + 1,
    {
        if self.windows.len() == 0 || self.next_window_id == usize::MAX {
            return None;
        }
        let id = self.take_id();
        let w = Window::new(id, buffer_id);
        let at = self.current_window_idx + 1;
        self.windows.insert(at, w);
        self.current_window_idx = at;
        proof {
            assert(self@.windows =~= old(self)@.windows.insert(at as int, w@));
        }
        Some(id)
    }

    /// Closes the focused window unless it is the only one; focus stays at
    /// the same index, or moves to the last window.
    pub fn close_current(&mut self) -> (r: bool)
        requires
            windows_wf(old(self)@),
        ensures
            windows_wf(final(self)@),
            r == (old(self)@.windows.len() > 1),
            !r ==> final(self)@ == old(self)@,
            r ==> final(self)@.windows == old(self)@.windows.remove(old(self)@.current as int)
                && final(self)@.current == (if old(self)@.current < old(self)@.windows.len() - 1 {
                old(self)@.current
            } else {
                (old(self)@.windows.len() - 2) as usize
            }) && final(self)@.next_id == old(self)@.next_id,
    {
        if self.windows.len() <= 1 {
            return false;
        }
        self.windows.remove(self.current_window_idx);
        if self.current_window_idx >= self.windows.len() {
            self.current_window_idx = self.windows.len() - 1;
        }
        proof {
            assert(self@.windows =~= old(self)@.windows.remove(old(self)@.current as int));
        }
        true
    }

    pub fn current_window(&self) -> (r: &Window)
        requires
            windows_wf(self@),
            self@.windows.len() > 0,
        ensures
            r@ == self@.windows[self@.current as int],
    {
        &self.windows[self.current_window_idx]
    }

    pub fn current_window_idx(&self) -> (r: usize)
        ensures
            r == self@.current,
    {
        self.current_window_idx
    }

    pub fn window_count(&self) -> (r: usize)
        ensures
            r == self@.windows.len(),
    {
        self.windows.len()
    }

    pub fn get_window(&self, idx: usize) -> (r: Option<&Window>)
        ensures
            idx < self@.windows.len() ==> (r matches Some(w) && w@ == self@.windows[idx as int]),
            idx >= self@.windows.len() ==> r is None,
    {
        if idx < self.windows.len() {
            Some(&self.windows[idx])
        } else {
            None
        }
    }

    /// Replaces the cursor of window `idx`; returns whether there is such a window.
    pub fn set_window_cursor(&mut self, idx: usize, cursor: Cursor) -> (r: bool)
        ensures
            r == (idx < old(self)@.windows.len()),
            r ==> final(self)@ == (WindowsView {
                windows: old(self)@.windows.update(
                    idx as int,
                    WindowView { cursor, ..old(self)@.windows[idx as int] },
                ),
                ..old(self)@
            }),
            !r ==> final(self)@ == old(self)@,
    {
        if idx >= self.windows.len() {
            return false;
        }
        let mut w = self.windows[idx].clone_window();
        w.set_cursor(cursor);
        self.windows.set(idx, w);
        proof {
            assert(self@.windows =~= old(self)@.windows.update(
                idx as int,
                WindowView { cursor, ..old(self)@.windows[idx as int] },
            ));
        }
        true
    }

    /// Focuses window `idx`; returns whether there is such a window.
    pub fn switch_to_window(&mut self, idx: usize) -> (r: bool)
        ensures
            r == (idx < old(self)@.windows.len()),
            r ==> final(self)@ == (WindowsView { current: idx, ..old(self)@ }),
            !r ==> final(self)@ == old(self)@,
    {
        if idx < self.windows.len() {
            self.current_window_idx = idx;
            true
        } else {
            false
        }
    }

    /// Focuses the next window, wrapping around.
    pub fn next_window(&mut self)
        requires
            windows_wf(old(self)@),
            old(self)@.windows.len() > 0,
        ensures
            final(self)@ == (WindowsView {
                current: ((old(self)@.current + 1) % (old(self)@.windows.len() as int)) as usize,
                ..old(self)@
            }),
    {
        let n = self.windows.len();
        let i = self.current_window_idx;
        proof {
            assert(self@.windows.len() == n);
            assert(i < n);
        }
        self.current_window_idx = (i + 1) % n;
    }

    /// Focuses the previous window, wrapping around.
    pub fn prev_window(&mut self)
        requires
            windows_wf(old(self)@),
            old(self)@.windows.len() > 0,
        ensures
            final(self)@ == (WindowsView {
                current: if old(self)@.current == 0 {
                    (old(self)@.windows.len() - 1) as usize
                } else {
                    (old(self)@.current - 1) as usize
                },
                ..old(self)@
            }),
    {
        if self.current_window_idx == 0 {
            self.current_window_idx = self.windows.len() - 1;
        } else {
            self.current_window_idx = self.current_window_idx - 1;
        }
    }

    /// All windows, in order.
    pub fn windows(&self) -> (r: &[Window])
        ensures
            r@.map_values(|w: Window| w@) == self@.windows,
    {
        self.windows.as_slice()
    }
}

impl Window {
    fn clone_window(&self) -> (r: Window)
        ensures
            r@ == self@,
    {
        Window {
            id: self.id,
            buffer_id: self.buffer_id,
            cursor: self.cursor,
            scroll_offset: self.scroll_offset,
        }
    }
}

impl Default for WindowManager {
    fn default() -> (r: WindowManager)
        ensures
            r@.windows.len() == 0,
            r@.current == 0,
            r@.next_id == 0,
    {
        WindowManager::new()
    }
}

} // verus!
