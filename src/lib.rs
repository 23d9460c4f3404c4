//! A modal, Vim-style text-editing engine: buffers, cursors, motions, edits,
//! registers, search, text objects, substitution and undo.
pub mod text;
pub mod buffer;
pub mod cursor;
pub mod motion;
pub mod text_object;
pub mod edit;
pub mod register;
pub mod search;
pub mod replace;
pub mod buffer_snapshot;
pub mod mode;
pub mod window;
pub mod operator;
pub mod editor;

pub use buffer::Buffer;
pub use buffer_snapshot::{BufferSnapshot, SnapshotManager};
pub use cursor::Cursor;
pub use editor::Editor;
pub use mode::Mode;
pub use register::{Register, RegisterManager};
pub use replace::{ReplaceResult, parse_substitute_command, replace_in_buffer};
pub use search::{SearchDirection, SearchState};
pub use text_object::{TextObject, parse_text_object};
