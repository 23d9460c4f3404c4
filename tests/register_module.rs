#[allow(unused_imports)]
use aivim::buffer::{Buffer, BufferId};
#[allow(unused_imports)]
use aivim::buffer_snapshot::{BufferSnapshot, SnapshotManager};
#[allow(unused_imports)]
use aivim::cursor::Cursor;
#[allow(unused_imports)]
use aivim::edit::{Edit, EditResult};
#[allow(unused_imports)]
use aivim::editor::Editor;
#[allow(unused_imports)]
use aivim::motion::Motion;
#[allow(unused_imports)]
use aivim::operator::{OperatorState, TextObjectOperator, get_register_info};
#[allow(unused_imports)]
use aivim::register::{Register, RegisterManager};
#[allow(unused_imports)]
use aivim::replace::{parse_substitute_command, replace_in_buffer};
#[allow(unused_imports)]
use aivim::search::{SearchDirection, SearchState};
#[allow(unused_imports)]
use aivim::text_object::{TextObject, parse_text_object};
#[allow(unused_imports)]
use aivim::window::{SplitDirection, WindowManager};


#[test]
fn test_unnamed_register() {
    let mut manager = RegisterManager::new();
    manager.set_unnamed("hello", false);

    assert_eq!(manager.get('"').unwrap().content, "hello");
    assert_eq!(manager.get('0').unwrap().content, "hello");
}

#[test]
fn test_numbered_registers() {
    let mut manager = RegisterManager::new();

    manager.set_unnamed("first", false);
    manager.set_unnamed("second", false);
    manager.set_unnamed("third", false);

    // 0号应该是最新的
    assert_eq!(manager.get('0').unwrap().content, "third");
    // 1号应该是上一个
    assert_eq!(manager.get('1').unwrap().content, "second");
    // 2号应该是第一个
    assert_eq!(manager.get('2').unwrap().content, "first");
}

#[test]
fn register_test_named_registers() {
    let mut manager = RegisterManager::new();

    manager.set('a', "content a", false);
    assert_eq!(manager.get('a').unwrap().content, "content a");

    // 大写表示追加
    manager.set('A', " appended", false);
    assert_eq!(manager.get('a').unwrap().content, "content a appended");
}

#[test]
fn register_test_search_register() {
    let mut manager = RegisterManager::new();

    manager.set_search("pattern");
    assert_eq!(manager.get_search(), "pattern");
    assert_eq!(manager.get('/').unwrap().content, "pattern");
}
