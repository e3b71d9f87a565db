use editor::config::BufferConfig;
use editor::text::buffer::Buffer;

fn text_of(b: &Buffer) -> String {
    b.get_text().to_string()
}

#[test]
fn undo_after_insert_restores_text() {
    let mut b = Buffer::from_string(&"abc".to_string());
    let n = b.insert_char(1, 'x');
    assert_eq!(n, 1);
    assert_eq!(text_of(&b), "axbc");
    b.undo();
    assert_eq!(text_of(&b), "abc");
    b.redo();
    assert_eq!(text_of(&b), "axbc");
    b.undo();
    b.undo();
    assert_eq!(text_of(&b), "abc");
}

#[test]
fn edit_after_undo_forgets_redo() {
    let mut b = Buffer::from_string(&"abc".to_string());
    b.insert_char(0, '1');
    b.undo();
    b.insert_char(0, '2');
    b.redo();
    assert_eq!(text_of(&b), "2abc");
}

#[test]
fn tab_and_line_end_are_typed_by_config() {
    let mut b = Buffer::from_string(&"ab".to_string());
    assert_eq!(b.get_config(), BufferConfig::default());
    let n = b.insert_char(1, '\t');
    assert_eq!(n, 4);
    assert_eq!(text_of(&b), "a    b");
    let n = b.insert_char(0, '\n');
    assert_eq!(n, 1);
    assert_eq!(text_of(&b), "\na    b");
    let n = b.insert_char(0, 'é');
    assert_eq!(n, 2);
}

#[test]
fn insert_string_counts_bytes() {
    let mut b = Buffer::from_string(&"".to_string());
    let n = b.insert_string(0, "地球");
    assert_eq!(n, 6);
    assert_eq!(text_of(&b), "地球");
}

#[test]
fn remove_range_is_cut_to_the_text() {
    let mut b = Buffer::from_string(&"abcdef".to_string());
    b.remove_range(2, 100);
    assert_eq!(text_of(&b), "ab");
    b.remove_range(5, 9);
    assert_eq!(text_of(&b), "ab");
    b.undo();
    assert_eq!(text_of(&b), "abcdef");
}

#[test]
fn remove_char_takes_the_one_before() {
    let mut b = Buffer::from_string(&"abc".to_string());
    b.remove_char(0);
    assert_eq!(text_of(&b), "abc");
    b.remove_char(2);
    assert_eq!(text_of(&b), "ac");
}

#[test]
fn join_line_removes_line_ends() {
    let mut b = Buffer::from_string(&"ab\r\ncd\nef".to_string());
    b.join_line(0);
    assert_eq!(text_of(&b), "abcd\nef");
    b.join_line(0);
    assert_eq!(text_of(&b), "abcdef");
    b.join_line(0);
    assert_eq!(text_of(&b), "abcdef");
}

#[test]
fn delete_line_range_removes_whole_lines() {
    let mut b = Buffer::from_string(&"a\nb\nc\n".to_string());
    b.delete_line_range(1, 2);
    assert_eq!(text_of(&b), "a\nc\n");
    b.delete_line_range(1, 1);
    assert_eq!(text_of(&b), "a\nc\n");
    b.undo();
    assert_eq!(text_of(&b), "a\nb\nc\n");
}

#[test]
fn replace_text_and_path() {
    let mut b = Buffer::from_string(&"old".to_string());
    b.replace_text("new text");
    assert_eq!(text_of(&b), "new text");
    b.set_path("/tmp/x");
    assert_eq!(b.get_path(), "/tmp/x");
    b.undo();
    assert_eq!(text_of(&b), "old");
}

#[test]
fn undo_with_no_history_changes_nothing() {
    let mut b = Buffer::from_string(&"abc".to_string());
    b.undo();
    b.redo();
    assert_eq!(text_of(&b), "abc");
}

#[test]
fn config_indent_and_line_sep() {
    assert_eq!(BufferConfig::config_tabs().indent(), "\t");
    assert_eq!(BufferConfig::config_spaces(2).indent(), "  ");
    assert_eq!(BufferConfig::default().line_sep(), "\n");
}

#[test]
fn removing_what_was_inserted_restores_the_text() {
    let mut b = Buffer::from_string(&"hello world".to_string());
    let n = b.insert_string(5, ", dear");
    assert_eq!(n, 6);
    assert_eq!(text_of(&b), "hello, dear world");
    b.remove_range(5, 11);
    assert_eq!(text_of(&b), "hello world");
    b.insert_char(0, 'x');
    b.remove_char(1);
    assert_eq!(text_of(&b), "hello world");
}
