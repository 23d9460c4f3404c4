#[allow(unused_imports)]
use aivim::buffer::{Buffer, BufferId};
#[allow(unused_imports)]
use aivim::buffer_snapshot::{BufferSnapshot, SnapshotManager};
#[allow(unused_imports)]
use aivim::cursor::Cursor;
#[allow(unused_imports)]
use aivim::edit::{Edit, EditResult};
#[allow(unused_imports)]
use aivim::editor::Editor;
#[allow(unused_imports)]
use aivim::motion::Motion;
#[allow(unused_imports)]
use aivim::operator::{OperatorState, TextObjectOperator, get_register_info};
#[allow(unused_imports)]
use aivim::register::{Register, RegisterManager};
#[allow(unused_imports)]
use aivim::replace::{parse_substitute_command, replace_in_buffer};
#[allow(unused_imports)]
use aivim::search::{SearchDirection, SearchState};
#[allow(unused_imports)]
use aivim::text_object::{TextObject, parse_text_object};
#[allow(unused_imports)]
use aivim::window::{SplitDirection, WindowManager};


#[test]
fn test_register_info_none() {
    // 没有操作符状态，不显示寄存器
    let info = get_register_info(OperatorState::Idle);
    assert_eq!(info, "");
}

#[test]
fn test_register_info_pending_none() {
    // 刚按下 "，等待寄存器名
    let info = get_register_info(OperatorState::RegisterPending(None));
    assert_eq!(info, "\"?");
}

#[test]
fn test_register_info_pending_some() {
    // 已选择寄存器 a，等待操作符
    let info = get_register_info(OperatorState::RegisterPending(Some('a')));
    assert_eq!(info, "\"a");
}

#[test]
fn test_register_info_delete_with_register() {
    // 删除操作符，指定了寄存器 b
    let info = get_register_info(OperatorState::Delete { register: Some('b') });
    assert_eq!(info, "\"b");
}

#[test]
fn test_register_info_delete_without_register() {
    // 删除操作符，未指定寄存器
    let info = get_register_info(OperatorState::Delete { register: None });
    assert_eq!(info, "");
}

#[test]
fn test_register_info_yank_with_register() {
    // 复制操作符，指定了寄存器 c
    let info = get_register_info(OperatorState::Yank { register: Some('c') });
    assert_eq!(info, "\"c");
}

#[test]
fn test_register_info_change_with_register() {
    // 修改操作符，指定了寄存器 d
    let info = get_register_info(OperatorState::Change { register: Some('d') });
    assert_eq!(info, "\"d");
}

#[test]
fn test_register_info_text_object_with_register() {
    // 文本对象操作符，指定了寄存器 x
    let info = get_register_info(OperatorState::TextObject {
        operator: TextObjectOperator::Delete,
        around: true,
        register: Some('x'),
    });
    assert_eq!(info, "\"x");
}

#[test]
fn test_register_info_g() {
    // G 操作符，不显示寄存器
    let info = get_register_info(OperatorState::G);
    assert_eq!(info, "");
}
