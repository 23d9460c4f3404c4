#[allow(unused_imports)]
use aivim::buffer::{Buffer, BufferId};
#[allow(unused_imports)]
use aivim::buffer_snapshot::{BufferSnapshot, SnapshotManager};
#[allow(unused_imports)]
use aivim::cursor::Cursor;
#[allow(unused_imports)]
use aivim::edit::{Edit, EditResult};
#[allow(unused_imports)]
use aivim::editor::Editor;
#[allow(unused_imports)]
use aivim::motion::Motion;
#[allow(unused_imports)]
use aivim::operator::{OperatorState, TextObjectOperator, get_register_info};
#[allow(unused_imports)]
use aivim::register::{Register, RegisterManager};
#[allow(unused_imports)]
use aivim::replace::{parse_substitute_command, replace_in_buffer};
#[allow(unused_imports)]
use aivim::search::{SearchDirection, SearchState};
#[allow(unused_imports)]
use aivim::text_object::{TextObject, parse_text_object};
#[allow(unused_imports)]
use aivim::window::{SplitDirection, WindowManager};


#[test]
fn cursor_test_cursor_movement() {
    let mut buffer = Buffer::new(BufferId::new(0));
    buffer.insert(0, "Line 1\nLine 2\nLine 3");
    
    let mut cursor = Cursor::at_origin();
    assert_eq!(cursor.line, 0);
    assert_eq!(cursor.column, 0);
    
    cursor.move_down(&buffer, 1);
    assert_eq!(cursor.line, 1);
    assert_eq!(cursor.column, 0);
    
    cursor.move_right(&buffer, 3);
    assert_eq!(cursor.column, 3);
    
    cursor.move_up(&buffer, 1);
    assert_eq!(cursor.line, 0);
    assert_eq!(cursor.column, 3);
}

#[test]
fn cursor_test_cursor_line_start_end() {
    let mut buffer = Buffer::new(BufferId::new(0));
    buffer.insert(0, "Hello, World!");
    
    let mut cursor = Cursor::new(0, 5);
    
    cursor.move_to_line_end(&buffer);
    assert_eq!(cursor.column, 12);
    
    cursor.move_to_line_start();
    assert_eq!(cursor.column, 0);
}

#[test]
fn cursor_test_cursor_char_idx_conversion() {
    let mut buffer = Buffer::new(BufferId::new(0));
    buffer.insert(0, "Line 1\nLine 2\nLine 3");
    
    let cursor = Cursor::new(1, 2);
    let char_idx = cursor.to_char_idx(&buffer);
    assert_eq!(char_idx, 9);
    
    let cursor2 = Cursor::from_char_idx(&buffer, char_idx);
    assert_eq!(cursor2.line, 1);
    assert_eq!(cursor2.column, 2);
}
