//! Pending operators in Normal mode, the register indicator shown while one
//! is pending, and the scroll offset that keeps the cursor in view.
use vstd::prelude::*;
use crate::text::string_of;

verus! {

#[derive(Debug, Clone, Copy, PartialEq, Eq, Structural)]
pub enum TextObjectOperator {
    Delete,
    Yank,
    Change,
}

#[derive(Debug, Clone, Copy, PartialEq, Eq, Structural)]
pub enum OperatorState {
    Idle,
    Delete { register: Option<char> },
    Yank { register: Option<char> },
    Change { register: Option<char> },
    G,
    TextObject { operator: TextObjectOperator, around: bool, register: Option<char> },
    RegisterPending(Option<char>),
}

/// The register named in a pending state, if any.
pub open spec fn named_register(s: OperatorState) -> Option<char> {
    match s {
        OperatorState::Delete { register } => register,
        OperatorState::Yank { register } => register,
        OperatorState::Change { register } => register,
        OperatorState::TextObject { register, .. } => register,
        OperatorState::RegisterPending(r) => r,
        _ => None,
    }
}

/// The indicator text: `"x` for a chosen register `x`, `"?` while a register
/// name is awaited, and nothing otherwise.
pub open spec fn register_info(s: OperatorState) -> Seq<char> {
    match named_register(s) {
        Some(c) => seq!['"', c],
        None => if s == OperatorState::RegisterPending(None) {
            seq!['"', '?']
        } else {
            Seq::empty()
        },
    }
}

pub fn get_register_info(state: OperatorState) -> (r: String)
    ensures
        r@ == register_info(state),
{
    let reg = match state {
        OperatorState::Delete { register } => register,
        OperatorState::Yank { register } => register,
        OperatorState::Change { register } => register,
        OperatorState::TextObject { register, .. } => register,
        OperatorState::RegisterPending(r) => r,
        _ => None,
    };
    let v: Vec<char> = match reg {
        Some(c) => vec!['"', c],
        None => match state {
            OperatorState::RegisterPending(None) => vec!['"', '?'],
            _ => Vec::new(),
        },
    };
    proof {
        assert(v@ =~= register_info(state));
    }
    string_of(v.as_slice())
}

/// The first visible line after scrolling just enough to show `cursor_line`
/// in a view of `viewport_height` lines that starts at `current_offset`.
pub open spec fn scroll_offset_for(cursor_line: int, viewport_height: int, current_offset: int) -> int {
    if cursor_line < current_offset {
        cursor_line
    } else if cursor_line >= current_offset + viewport_height {
        cursor_line - (viewport_height - 1)
    } else {
        current_offset
    }
}

pub fn calculate_scroll_offset(cursor_line: usize, viewport_height: usize, current_offset: usize) -> (r: usize)
    requires
        viewport_height >= 1,
    ensures
        r == scroll_offset_for(cursor_line as int, viewport_height as int, current_offset as int),
{
    if cursor_line < current_offset {
        cursor_line
    } else if cursor_line - current_offset >= viewport_height {
        cursor_line - (viewport_height - 1)
    } else {
        current_offset
    }
}

} // verus!
