#[allow(unused_imports)]
use aivim::buffer::{Buffer, BufferId};
#[allow(unused_imports)]
use aivim::buffer_snapshot::{BufferSnapshot, SnapshotManager};
#[allow(unused_imports)]
use aivim::cursor::Cursor;
#[allow(unused_imports)]
use aivim::edit::{Edit, EditResult};
#[allow(unused_imports)]
use aivim::editor::Editor;
#[allow(unused_imports)]
use aivim::motion::Motion;
#[allow(unused_imports)]
use aivim::operator::{OperatorState, TextObjectOperator, get_register_info};
#[allow(unused_imports)]
use aivim::register::{Register, RegisterManager};
#[allow(unused_imports)]
use aivim::replace::{parse_substitute_command, replace_in_buffer};
#[allow(unused_imports)]
use aivim::search::{SearchDirection, SearchState};
#[allow(unused_imports)]
use aivim::text_object::{TextObject, parse_text_object};
#[allow(unused_imports)]
use aivim::window::{SplitDirection, WindowManager};


#[test]
fn buffer_test_test_buffer_creation() {
    let buffer = Buffer::new(BufferId::new(0));
    assert!(buffer.is_empty());
    assert!(!buffer.is_modified());
    assert_eq!(buffer.len_chars(), 0);
    assert_eq!(buffer.len_lines(), 1); // 空缓冲区也有一行
}

#[test]
fn test_buffer_id() {
    let buffer = Buffer::new(BufferId::new(42));
    assert_eq!(buffer.id().as_usize(), 42);
}

#[test]
fn buffer_test_test_buffer_insert() {
    let mut buffer = Buffer::new(BufferId::new(0));
    buffer.insert(0, "Hello, World!");
    assert_eq!(buffer.to_string(), "Hello, World!");
    assert!(buffer.is_modified());
    assert_eq!(buffer.len_chars(), 13);
}

#[test]
fn test_buffer_insert_at_middle() {
    let mut buffer = Buffer::new(BufferId::new(0));
    buffer.insert(0, "Hello World!");
    buffer.insert(6, "Beautiful ");
    assert_eq!(buffer.to_string(), "Hello Beautiful World!");
}

#[test]
fn test_buffer_insert_char() {
    let mut buffer = Buffer::new(BufferId::new(0));
    buffer.insert(0, "Hell World!");
    buffer.insert_char(4, 'o');
    assert_eq!(buffer.to_string(), "Hello World!");
}

#[test]
fn buffer_test_test_buffer_remove() {
    let mut buffer = Buffer::new(BufferId::new(0));
    buffer.insert(0, "Hello, World!");
    buffer.remove(7, 5);
    assert_eq!(buffer.to_string(), "Hello, !");
}

#[test]
fn test_buffer_remove_char() {
    let mut buffer = Buffer::new(BufferId::new(0));
    buffer.insert(0, "Helo World!");
    let removed = buffer.remove_char(2);
    assert_eq!(removed, Some('l'));
    assert_eq!(buffer.to_string(), "Heo World!");
}

#[test]
fn test_buffer_remove_char_out_of_bounds() {
    let mut buffer = Buffer::new(BufferId::new(0));
    buffer.insert(0, "Hello");
    let removed = buffer.remove_char(10);
    assert_eq!(removed, None);
}

#[test]
fn buffer_test_test_buffer_line_operations() {
    let mut buffer = Buffer::new(BufferId::new(0));
    buffer.insert(0, "Line 1\nLine 2\nLine 3");
    assert_eq!(buffer.len_lines(), 3);
    
    let line0 = buffer.line(0).unwrap();
    assert_eq!(line0.to_string(), "Line 1\n");
    
    let line1 = buffer.line(1).unwrap();
    assert_eq!(line1.to_string(), "Line 2\n");
    
    let line2 = buffer.line(2).unwrap();
    assert_eq!(line2.to_string(), "Line 3");
}

#[test]
fn test_buffer_line_out_of_bounds() {
    let buffer = Buffer::new(BufferId::new(0));
    assert!(buffer.line(100).is_none());
}

#[test]
fn test_buffer_line_len() {
    let mut buffer = Buffer::new(BufferId::new(0));
    buffer.insert(0, "Hello\nWorld!");
    assert_eq!(buffer.line_len(0), 6); // "Hello\n"
    assert_eq!(buffer.line_len(1), 6); // "World!"
}

#[test]
fn test_buffer_line_to_char() {
    let mut buffer = Buffer::new(BufferId::new(0));
    buffer.insert(0, "Line 1\nLine 2\nLine 3");
    
    assert_eq!(buffer.line_to_char(0), 0);
    assert_eq!(buffer.line_to_char(1), 7); // "Line 1\n"
    assert_eq!(buffer.line_to_char(2), 14); // "Line 1\nLine 2\n"
}

#[test]
fn test_buffer_char_to_line() {
    let mut buffer = Buffer::new(BufferId::new(0));
    buffer.insert(0, "Line 1\nLine 2\nLine 3");
    
    assert_eq!(buffer.char_to_line(0), 0);
    assert_eq!(buffer.char_to_line(6), 0);
    assert_eq!(buffer.char_to_line(7), 1);
    assert_eq!(buffer.char_to_line(10), 1);
}

#[test]
fn test_buffer_char_access() {
    let mut buffer = Buffer::new(BufferId::new(0));
    buffer.insert(0, "Hello");
    
    assert_eq!(buffer.char(0), 'H');
    assert_eq!(buffer.char(4), 'o');
}

#[test]
fn test_buffer_slice() {
    let mut buffer = Buffer::new(BufferId::new(0));
    buffer.insert(0, "Hello, World!");
    
    let slice = buffer.slice(0..5);
    assert_eq!(slice.to_string(), "Hello");
    
    let slice = buffer.slice(7..12);
    assert_eq!(slice.to_string(), "World");
}

#[test]
fn test_buffer_read_only_remove() {
    let mut buffer = Buffer::new(BufferId::new(0));
    buffer.insert(0, "Hello World");
    buffer.set_read_only(true);
    
    buffer.remove(0, 5);
    assert_eq!(buffer.to_string(), "Hello World"); // 不应该改变
}

#[test]
fn test_buffer_file_path() {
    let mut buffer = Buffer::new(BufferId::new(0));
    assert!(buffer.file_path().is_none());
    
    let path = "/tmp/test.txt".to_string();
    buffer.set_file_path(path.clone());
    assert_eq!(buffer.file_path(), Some(path.clone()));
}

#[test]
fn test_buffer_new_with_path() {
    let path = "/tmp/test.txt".to_string();
    let buffer = Buffer::new_with_path(BufferId::new(0), &path);
    assert_eq!(buffer.file_path(), Some(path.clone()));
    assert!(buffer.is_empty());
}

#[test]
fn test_buffer_empty_operations() {
    let mut buffer = Buffer::new(BufferId::new(0));
    
    // 空缓冲区操作
    assert!(buffer.is_empty());
    assert_eq!(buffer.len_chars(), 0);
    assert_eq!(buffer.len_lines(), 1);
    
    // 在空缓冲区中删除
    buffer.remove(0, 10);
    assert!(buffer.is_empty());
}

#[test]
fn test_buffer_single_line() {
    let mut buffer = Buffer::new(BufferId::new(0));
    buffer.insert(0, "Single line");
    
    assert_eq!(buffer.len_lines(), 1);
    assert_eq!(buffer.line(0).unwrap().to_string(), "Single line");
}

#[test]
fn test_buffer_multiple_inserts() {
    let mut buffer = Buffer::new(BufferId::new(0));
    
    buffer.insert(0, "Hello");
    buffer.insert(5, " ");
    buffer.insert(6, "World");
    buffer.insert(11, "!");
    
    assert_eq!(buffer.to_string(), "Hello World!");
}

#[test]
fn test_buffer_large_content() {
    let mut buffer = Buffer::new(BufferId::new(0));
    let large_text = "a".repeat(10000);
    buffer.insert(0, &large_text);
    
    assert_eq!(buffer.len_chars(), 10000);
    assert!(!buffer.is_empty());
}

#[test]
fn test_buffer_unicode() {
    let mut buffer = Buffer::new(BufferId::new(0));
    buffer.insert(0, "Hello 世界! 🌍");
    
    assert_eq!(buffer.to_string(), "Hello 世界! 🌍");
    assert_eq!(buffer.len_chars(), 11); // 字符数，不是字节数
}
