use editor::text::bufferview::ViewCursor;
use editor::text::smart::SmartBuffer;
use editor::text::viewport::ViewPort;
use editor::text::viewspec::ViewSpec;

#[test]
fn char_to_wrap_cuts_rows() {
    let b = SmartBuffer::from_str("0123456789\nab");
    let w = b.char_to_wrap(4, 5).unwrap();
    assert_eq!((w.lc0, w.lc1), (0, 11));
    assert_eq!((w.c0, w.c1), (4, 8));
    assert_eq!(w.offset, 1);
    assert_eq!(w.wrap0, 1);
    assert_eq!(w.wraps, 3);
    assert_eq!(w.line0, 0);
    let last = b.char_to_wrap(4, 100).unwrap();
    assert_eq!(last.line0, 1);
    assert_eq!(last.c0, 11);
}

#[test]
fn tabs_count_as_four_bytes_for_rows() {
    let b = SmartBuffer::from_str("\t\tx");
    let w = b.char_to_wrap(4, 0).unwrap();
    // "...-...-x" takes nine bytes, so three rows of four
    assert_eq!(w.wraps, 3);
    assert_eq!(b.to_string(0, 3, true), "...-...-x");
    let c = SmartBuffer::from_str("a\tb");
    let w = c.char_to_wrap(10, 0).unwrap();
    assert_eq!(c.wrap_to_string(&w, true), "a...|b");
    assert_eq!(c.wrap_to_string(&w, false), "a\tb");
}

#[test]
fn next_and_prev_wrap_walk_rows() {
    let b = SmartBuffer::from_str("abcdef\ngh");
    let w0 = b.char_to_wrap(3, 0).unwrap();
    let w1 = b.next_wrap(3, &w0).unwrap();
    assert_eq!(w1.c0, 3);
    let w2 = b.next_wrap(3, &w1).unwrap();
    assert_eq!(w2.c0, 6);
    let back = b.prev_wrap(3, &w1).unwrap();
    assert_eq!(back, w0);
    assert_eq!(b.prev_wrap(3, &w0), None);
    let d = b.delta_wrap(3, 0, 100);
    assert_eq!(d.line0, 1);
    let u = b.delta_wrap(3, 8, -100);
    assert_eq!(u.c0, 0);
}

#[test]
fn wrap_window_collects_rows_around() {
    let b = SmartBuffer::from_str("a\nb\nc\nd\ne");
    let out = b.wrap_window(10, 4, 3, false);
    assert_eq!(out.len(), 3);
    assert_eq!(out[0].line0, 2);
    assert_eq!(out[2].line0, 4);
    let rev = b.wrap_window(10, 4, 3, true);
    assert_eq!(rev.len(), 3);
    assert_eq!(rev[0].line0, 0);
    assert_eq!(rev[2].line0, 2);
    assert_eq!(b.wrap_window(10, 4, 0, false).len(), 0);
}

#[test]
fn line_moves_and_jumps() {
    let mut b = SmartBuffer::from_str("abc\ndefg\nh");
    assert_eq!(b.line_move(10, 5, -1), 8);
    assert_eq!(b.line_move(10, 5, 100), 8);
    assert_eq!(b.line_move(10, 5, 1), 5);
    assert_eq!(b.jump_to_line(1), 4);
    assert_eq!(b.jump_to_line(-1), 4);
    assert_eq!(b.jump_to_line(99), 9);
}

#[test]
fn cursor_moves_in_x_and_y() {
    let mut b = SmartBuffer::from_str("abc\ndefg\nh");
    assert_eq!(b.move_cursor_x(10, 1, 100), (10, 1));
    assert_eq!(b._move_cursor_x(10, 1, 100, true), (3, 3));
    let mut cursor = ViewCursor::new();
    cursor.set_x_hint(2);
    assert_eq!(b.move_cursor_y(10, 0, &cursor, 1), 6);
    let spec = ViewSpec::new(20, 10, 0, 0);
    let port = ViewPort::default();
    assert_eq!(b.scroll(&spec, &port, 1), 4);
}

#[test]
fn insert_char_changes_text() {
    let mut b = SmartBuffer::from_str("ac");
    b.insert_char(1, 'b');
    assert_eq!(b.to_string(0, 3, false), "abc");
}
