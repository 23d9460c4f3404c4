#[allow(unused_imports)]
use aivim::buffer::{Buffer, BufferId};
#[allow(unused_imports)]
use aivim::buffer_snapshot::{BufferSnapshot, SnapshotManager};
#[allow(unused_imports)]
use aivim::cursor::Cursor;
#[allow(unused_imports)]
use aivim::edit::{Edit, EditResult};
#[allow(unused_imports)]
use aivim::editor::Editor;
#[allow(unused_imports)]
use aivim::motion::Motion;
#[allow(unused_imports)]
use aivim::operator::{OperatorState, TextObjectOperator, get_register_info};
#[allow(unused_imports)]
use aivim::register::{Register, RegisterManager};
#[allow(unused_imports)]
use aivim::replace::{parse_substitute_command, replace_in_buffer};
#[allow(unused_imports)]
use aivim::search::{SearchDirection, SearchState};
#[allow(unused_imports)]
use aivim::text_object::{TextObject, parse_text_object};
#[allow(unused_imports)]
use aivim::window::{SplitDirection, WindowManager};


#[test]
fn buffer_snapshot_test_snapshot_basic() {
    let mut buffer = Buffer::new(BufferId::new(0));
    buffer.insert(0, "hello world\n");
    
    let cursor = Cursor::at_origin();
    let snapshot = BufferSnapshot::from_buffer(&buffer, &cursor);
    
    assert_eq!(snapshot.content, "hello world\n");
    assert_eq!(snapshot.cursor.line, 0);
    assert_eq!(snapshot.cursor.column, 0);
}

#[test]
fn buffer_snapshot_test_snapshot_file_path() {
    let mut buffer = Buffer::new(BufferId::new(0));
    buffer.insert(0, "test");
    buffer.set_file_path("/tmp/test.txt".to_string());
    
    let cursor = Cursor::at_origin();
    let snapshot = BufferSnapshot::from_buffer(&buffer, &cursor);
    
    assert_eq!(snapshot.file_path, Some("/tmp/test.txt".to_string()));
}
