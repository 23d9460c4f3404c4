#[allow(unused_imports)]
use aivim::buffer::{Buffer, BufferId};
#[allow(unused_imports)]
use aivim::buffer_snapshot::{BufferSnapshot, SnapshotManager};
#[allow(unused_imports)]
use aivim::cursor::Cursor;
#[allow(unused_imports)]
use aivim::edit::{Edit, EditResult};
#[allow(unused_imports)]
use aivim::editor::Editor;
#[allow(unused_imports)]
use aivim::motion::Motion;
#[allow(unused_imports)]
use aivim::operator::{OperatorState, TextObjectOperator, get_register_info};
#[allow(unused_imports)]
use aivim::register::{Register, RegisterManager};
#[allow(unused_imports)]
use aivim::replace::{parse_substitute_command, replace_in_buffer};
#[allow(unused_imports)]
use aivim::search::{SearchDirection, SearchState};
#[allow(unused_imports)]
use aivim::text_object::{TextObject, parse_text_object};
#[allow(unused_imports)]
use aivim::window::{SplitDirection, WindowManager};


#[test]
fn test_parse_text_object_word() {
    assert_eq!(parse_text_object('w'), Some(TextObject::AroundWord));
    assert_eq!(parse_text_object('W'), Some(TextObject::InnerWord));
}

#[test]
fn test_parse_text_object_sentence() {
    assert_eq!(parse_text_object('s'), Some(TextObject::AroundSentence));
    assert_eq!(parse_text_object('S'), Some(TextObject::InnerSentence));
}

#[test]
fn test_parse_text_object_paragraph() {
    assert_eq!(parse_text_object('p'), Some(TextObject::AroundParagraph));
    assert_eq!(parse_text_object('P'), Some(TextObject::InnerParagraph));
}

#[test]
fn test_parse_text_object_invalid() {
    assert_eq!(parse_text_object('x'), None);
    assert_eq!(parse_text_object('a'), None);
    assert_eq!(parse_text_object('1'), None);
}

#[test]
fn test_inner_word_basic() {
    let mut buffer = Buffer::new(BufferId::new(0));
    buffer.insert(0, "hello world vim\n");

    // 光标在 "world" 上
    let cursor = Cursor::new(0, 6);
    let range = TextObject::InnerWord.get_range(&cursor, &buffer);

    assert_eq!(range, Some((6, 11))); // "world"
}

#[test]
fn test_inner_word_at_start() {
    let mut buffer = Buffer::new(BufferId::new(0));
    buffer.insert(0, "hello world");

    let cursor = Cursor::new(0, 0);
    let range = TextObject::InnerWord.get_range(&cursor, &buffer);

    assert_eq!(range, Some((0, 5))); // "hello"
}

#[test]
fn test_inner_word_at_end() {
    let mut buffer = Buffer::new(BufferId::new(0));
    buffer.insert(0, "hello world");

    let cursor = Cursor::new(0, 10);
    let range = TextObject::InnerWord.get_range(&cursor, &buffer);

    assert_eq!(range, Some((6, 11))); // "world"
}

#[test]
fn test_inner_word_single_char() {
    let mut buffer = Buffer::new(BufferId::new(0));
    buffer.insert(0, "a b c");

    let cursor = Cursor::new(0, 2);
    let range = TextObject::InnerWord.get_range(&cursor, &buffer);

    assert_eq!(range, Some((2, 3))); // "b"
}

#[test]
fn test_inner_word_with_underscore() {
    let mut buffer = Buffer::new(BufferId::new(0));
    buffer.insert(0, "hello_world test");

    let cursor = Cursor::new(0, 5);
    let range = TextObject::InnerWord.get_range(&cursor, &buffer);

    assert_eq!(range, Some((0, 11))); // "hello_world"
}

#[test]
fn test_inner_word_on_whitespace() {
    let mut buffer = Buffer::new(BufferId::new(0));
    buffer.insert(0, "hello   world");

    // 光标在空白字符上
    let cursor = Cursor::new(0, 5);
    let range = TextObject::InnerWord.get_range(&cursor, &buffer);

    // 应该找到下一个单词
    assert_eq!(range, Some((8, 13))); // "world"
}

#[test]
fn text_object_test_test_around_word_with_space() {
    let mut buffer = Buffer::new(BufferId::new(0));
    buffer.insert(0, "hello world vim\n");

    // 光标在 "world" 上
    let cursor = Cursor::new(0, 6);
    let range = TextObject::AroundWord.get_range(&cursor, &buffer);

    assert_eq!(range, Some((6, 12))); // "world "（包含后面的空格）
}

#[test]
fn text_object_test_test_around_word_at_end() {
    let mut buffer = Buffer::new(BufferId::new(0));
    buffer.insert(0, "hello world\n");

    // 光标在最后一个单词 "world" 上
    let cursor = Cursor::new(0, 6);
    let range = TextObject::AroundWord.get_range(&cursor, &buffer);

    assert_eq!(range, Some((6, 11))); // "world"（没有后面的空格）
}

#[test]
fn test_around_word_at_start() {
    let mut buffer = Buffer::new(BufferId::new(0));
    buffer.insert(0, "hello world");

    let cursor = Cursor::new(0, 0);
    let range = TextObject::AroundWord.get_range(&cursor, &buffer);

    assert_eq!(range, Some((0, 6))); // "hello "（包含后面的空格）
}

#[test]
fn test_around_word_single_word() {
    let mut buffer = Buffer::new(BufferId::new(0));
    buffer.insert(0, "hello");

    let cursor = Cursor::new(0, 0);
    let range = TextObject::AroundWord.get_range(&cursor, &buffer);

    assert_eq!(range, Some((0, 5))); // "hello"（没有后面的空格）
}

#[test]
fn test_inner_sentence_not_implemented() {
    let mut buffer = Buffer::new(BufferId::new(0));
    buffer.insert(0, "Hello world. This is a test.");

    let cursor = Cursor::new(0, 0);
    let range = TextObject::InnerSentence.get_range(&cursor, &buffer);

    assert_eq!(range, None);
}

#[test]
fn test_around_sentence_not_implemented() {
    let mut buffer = Buffer::new(BufferId::new(0));
    buffer.insert(0, "Hello world. This is a test.");

    let cursor = Cursor::new(0, 0);
    let range = TextObject::AroundSentence.get_range(&cursor, &buffer);

    assert_eq!(range, None);
}

#[test]
fn test_inner_paragraph_not_implemented() {
    let mut buffer = Buffer::new(BufferId::new(0));
    buffer.insert(0, "Paragraph 1\n\nParagraph 2");

    let cursor = Cursor::new(0, 0);
    let range = TextObject::InnerParagraph.get_range(&cursor, &buffer);

    assert_eq!(range, None);
}

#[test]
fn test_around_paragraph_not_implemented() {
    let mut buffer = Buffer::new(BufferId::new(0));
    buffer.insert(0, "Paragraph 1\n\nParagraph 2");

    let cursor = Cursor::new(0, 0);
    let range = TextObject::AroundParagraph.get_range(&cursor, &buffer);

    assert_eq!(range, None);
}

#[test]
fn test_word_with_numbers() {
    let mut buffer = Buffer::new(BufferId::new(0));
    buffer.insert(0, "hello123 world456");

    let cursor = Cursor::new(0, 3);
    let range = TextObject::InnerWord.get_range(&cursor, &buffer);

    assert_eq!(range, Some((0, 8))); // "hello123"
}

#[test]
fn test_word_with_punctuation() {
    let mut buffer = Buffer::new(BufferId::new(0));
    buffer.insert(0, "hello, world!");

    let cursor = Cursor::new(0, 7);
    let range = TextObject::InnerWord.get_range(&cursor, &buffer);

    assert_eq!(range, Some((7, 12))); // "world"（不包括标点）
}

#[test]
fn test_multiline_word() {
    let mut buffer = Buffer::new(BufferId::new(0));
    buffer.insert(0, "hello\nworld");

    let cursor = Cursor::new(1, 0);
    let range = TextObject::InnerWord.get_range(&cursor, &buffer);

    assert_eq!(range, Some((6, 11))); // "world"
}

#[test]
fn test_unicode_word() {
    let mut buffer = Buffer::new(BufferId::new(0));
    buffer.insert(0, "hello 世界 test");

    let cursor = Cursor::new(0, 8);
    let range = TextObject::InnerWord.get_range(&cursor, &buffer);

    // Unicode 字符被视为非单词字符
    // 所以 "世界" 可能不会被识别为一个单词
    // 这个测试验证代码不会 panic
    assert!(range.is_some());
}
