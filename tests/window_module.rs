#[allow(unused_imports)]
use aivim::buffer::{Buffer, BufferId};
#[allow(unused_imports)]
use aivim::buffer_snapshot::{BufferSnapshot, SnapshotManager};
#[allow(unused_imports)]
use aivim::cursor::Cursor;
#[allow(unused_imports)]
use aivim::edit::{Edit, EditResult};
#[allow(unused_imports)]
use aivim::editor::Editor;
#[allow(unused_imports)]
use aivim::motion::Motion;
#[allow(unused_imports)]
use aivim::operator::{OperatorState, TextObjectOperator, get_register_info};
#[allow(unused_imports)]
use aivim::register::{Register, RegisterManager};
#[allow(unused_imports)]
use aivim::replace::{parse_substitute_command, replace_in_buffer};
#[allow(unused_imports)]
use aivim::search::{SearchDirection, SearchState};
#[allow(unused_imports)]
use aivim::text_object::{TextObject, parse_text_object};
#[allow(unused_imports)]
use aivim::window::{SplitDirection, WindowManager};


#[test]
fn test_window_creation() {
    let mut wm = WindowManager::new();
    let buffer_id = BufferId::new(0);

    let window_id = wm.create_initial_window(buffer_id);
    assert_eq!(wm.window_count(), 1);
    assert_eq!(wm.current_window().id(), window_id);
}

#[test]
fn test_window_split() {
    let mut wm = WindowManager::new();
    let buffer_id = BufferId::new(0);

    wm.create_initial_window(buffer_id);
    let new_window_id = wm.split_current(SplitDirection::Horizontal, buffer_id);

    assert!(new_window_id.is_some());
    assert_eq!(wm.window_count(), 2);
}

#[test]
fn test_window_navigation() {
    let mut wm = WindowManager::new();
    let buffer_id = BufferId::new(0);

    wm.create_initial_window(buffer_id);
    wm.split_current(SplitDirection::Horizontal, buffer_id);
    wm.split_current(SplitDirection::Horizontal, buffer_id);

    assert_eq!(wm.window_count(), 3);

    // split_current 会切换到新窗口，所以当前应该是最后一个（索引 2）
    assert_eq!(wm.current_window_idx(), 2);

    // 测试循环切换
    wm.next_window();
    assert_eq!(wm.current_window_idx(), 0); // 循环到第一个

    wm.next_window();
    assert_eq!(wm.current_window_idx(), 1);

    wm.next_window();
    assert_eq!(wm.current_window_idx(), 2); // 回到最后一个

    // 测试 prev_window
    wm.prev_window();
    assert_eq!(wm.current_window_idx(), 1);

    wm.prev_window();
    assert_eq!(wm.current_window_idx(), 0);

    wm.prev_window();
    assert_eq!(wm.current_window_idx(), 2); // 循环到最后一个
}

#[test]
fn test_window_close() {
    let mut wm = WindowManager::new();
    let buffer_id = BufferId::new(0);

    wm.create_initial_window(buffer_id);
    wm.split_current(SplitDirection::Horizontal, buffer_id);

    assert_eq!(wm.window_count(), 2);

    // 关闭当前窗口
    assert!(wm.close_current());
    assert_eq!(wm.window_count(), 1);

    // 不能再关闭最后一个窗口
    assert!(!wm.close_current());
}
