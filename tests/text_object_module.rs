#[allow(unused_imports)]
use aivim::buffer::{Buffer, BufferId};
#[allow(unused_imports)]
use aivim::buffer_snapshot::{BufferSnapshot, SnapshotManager};
#[allow(unused_imports)]
use aivim::cursor::Cursor;
#[allow(unused_imports)]
use aivim::edit::{Edit, EditResult};
#[allow(unused_imports)]
use aivim::editor::Editor;
#[allow(unused_imports)]
use aivim::motion::Motion;
#[allow(unused_imports)]
use aivim::operator::{OperatorState, TextObjectOperator, get_register_info};
#[allow(unused_imports)]
use aivim::register::{Register, RegisterManager};
#[allow(unused_imports)]
use aivim::replace::{parse_substitute_command, replace_in_buffer};
#[allow(unused_imports)]
use aivim::search::{SearchDirection, SearchState};
#[allow(unused_imports)]
use aivim::text_object::{TextObject, parse_text_object};
#[allow(unused_imports)]
use aivim::window::{SplitDirection, WindowManager};


#[test]
fn test_inner_word() {
    let mut buffer = Buffer::new(BufferId::new(0));
    buffer.insert(0, "hello world vim\n");

    // 光标在 "world" 上
    let cursor = Cursor::new(0, 6);
    let range = TextObject::InnerWord.get_range(&cursor, &buffer);

    assert_eq!(range, Some((6, 11)));  // "world"
}

#[test]
fn text_object_test_around_word_with_space() {
    let mut buffer = Buffer::new(BufferId::new(0));
    buffer.insert(0, "hello world vim\n");

    // 光标在 "world" 上
    let cursor = Cursor::new(0, 6);
    let range = TextObject::AroundWord.get_range(&cursor, &buffer);

    assert_eq!(range, Some((6, 12)));  // "world "（包含后面的空格）
}

#[test]
fn text_object_test_around_word_at_end() {
    let mut buffer = Buffer::new(BufferId::new(0));
    buffer.insert(0, "hello world\n");

    // 光标在最后一个单词 "world" 上
    let cursor = Cursor::new(0, 6);
    let range = TextObject::AroundWord.get_range(&cursor, &buffer);

    assert_eq!(range, Some((6, 11)));  // "world"（没有后面的空格）
}
