//! Editing modes.
use vstd::prelude::*;

verus! {

#[derive(Debug, Clone, Copy, PartialEq, Eq, Structural)]
pub enum Mode {
    Normal,
    Insert,
    Visual,
    Command,
    Replace,
    SearchForward,
    SearchBackward,
}

/// Text is typed into the buffer in mode `m`.
pub open spec fn inserting(m: Mode) -> bool {
    m == Mode::Insert || m == Mode::Replace
}

impl Mode {
    /// The name shown in the status line.
    pub fn name(&self) -> (r: &'static str)
        ensures
            r@ == match *self {
                Mode::Normal => "NORMAL"@,
                Mode::Insert => "INSERT"@,
                Mode::Visual => "VISUAL"@,
                Mode::Command => "COMMAND"@,
                Mode::Replace => "REPLACE"@,
                Mode::SearchForward | Mode::SearchBackward => "SEARCH"@,
            },
    {
        match self {
            Mode::Normal => "NORMAL",
            Mode::Insert => "INSERT",
            Mode::Visual => "VISUAL",
            Mode::Command => "COMMAND",
            Mode::Replace => "REPLACE",
            Mode::SearchForward => "SEARCH",
            Mode::SearchBackward => "SEARCH",
        }
    }

    /// Text is typed into the buffer in this mode.
    pub fn is_insert(&self) -> (r: bool)
        ensures
            r == inserting(*self),
    {
        match self {
            Mode::Insert | Mode::Replace => true,
            _ => false,
        }
    }

    pub fn is_visual(&self) -> (r: bool)
        ensures
            r == (*self == Mode::Visual),
    {
        match self {
            Mode::Visual => true,
            _ => false,
        }
    }

    pub fn is_command(&self) -> (r: bool)
        ensures
            r == (*self == Mode::Command),
    {
        match self {
            Mode::Command => true,
            _ => false,
        }
    }

    pub fn is_search(&self) -> (r: bool)
        ensures
            r == (*self == Mode::SearchForward || *self == Mode::SearchBackward),
    {
        match self {
            Mode::SearchForward | Mode::SearchBackward => true,
            _ => false,
        }
    }
}

impl Default for Mode {
    fn default() -> (r: Mode)
        ensures
            r == Mode::Normal,
    {
        Mode::Normal
    }
}

} // verus!
