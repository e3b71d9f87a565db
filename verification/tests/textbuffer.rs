use editor::text::display::DrawCommand;
use editor::text::textbuffer::TextBuffer;

fn buf(s: &str, vsx: u16) -> TextBuffer {
    let mut b = TextBuffer::from_str(s);
    b.view.vsx = vsx;
    b
}

#[test]
fn char_to_wrap_cuts_lines_by_characters() {
    let b = buf("0123456789\nab", 4);
    let w = b.char_to_wrap(5).unwrap();
    assert_eq!((w.lc0, w.lc1), (0, 11));
    assert_eq!((w.c0, w.c1), (4, 8));
    assert_eq!((w.wrap0, w.wrap1, w.wraps), (1, 2, 3));
    let last = b.char_to_wrap(9).unwrap();
    assert_eq!((last.c0, last.c1, last.wrap1), (8, 11, 0));
    assert_eq!(b.char_to_wrap(13), None);
    assert_eq!(w.to_string(&b), "4567");
}

#[test]
fn next_and_prev_wrap_round_trip() {
    let b = buf("test\nline2\n0stst estst estst", 10);
    let w0 = b.char_to_wrap(0).unwrap();
    let w1 = b.next_wrap(&w0).unwrap();
    let w2 = b.prev_wrap(&w1).unwrap();
    assert_eq!(w0, w2);
    assert_eq!(b.prev_wrap(&w2), None);
    let l2 = b.line_to_wrap(2).unwrap();
    assert_eq!(l2.c0, 11);
    let up = b.prev_wrap(&l2).unwrap();
    assert_eq!(up.line0, 1);
    assert_eq!(b.line_to_wrap(3), None);
}

#[test]
fn wrap_window_fills_forward_then_back() {
    let b = buf("a\nb\nc\nd\ne", 10);
    assert_eq!(b.wrap_window(0, 0).len(), 0);
    assert_eq!(b.wrap_window(0, 1).len(), 1);
    let w = b.wrap_window(6, 4);
    assert_eq!(w.len(), 4);
    assert_eq!(w[0].line0, 1);
    assert_eq!(w[3].line0, 4);
    assert_eq!(b.wrap_window(0, 100).len(), 5);
}

#[test]
fn delta_wrap_moves_from_window_start() {
    let mut b = buf("abcdef\ngh", 3);
    b.char_start = 0;
    assert_eq!(b.delta_wrap(1).c0, 3);
    assert_eq!(b.delta_wrap(100).line0, 1);
    b.char_start = 7;
    assert_eq!(b.delta_wrap(-1).c0, 6);
    assert_eq!(b.delta_wrap(-100).c0, 0);
    assert_eq!(b.get_wrap().c0, 7);
}

#[test]
fn text_buffer_basics() {
    let mut b = TextBuffer::from_str("xyz");
    assert_eq!(b.pos(), (0, 0));
    b.set_cursor(2, 3);
    assert_eq!(b.cursor(), (2, 3));
    assert_eq!(b.size(), (0, 0));
    assert!(!b.dirty);
}

#[test]
fn render_view_draws_rows_then_status_lines() {
    let mut b = buf("0123456789\nab\n", 4);
    b.view.vsy = 5;
    b.view.r_info = 5;
    b.view.r_command = 6;
    b.view.cursor = (1, 2);
    b.view.debug = "x".to_string();
    let w0 = b.char_to_wrap(0).unwrap();
    let w1 = b.next_wrap(&w0).unwrap();
    let w3 = b.char_to_wrap(11).unwrap();
    b.view.wraps = vec![w0, w1, w3];
    let out = b.render_view();
    assert_eq!(out.len(), 8);
    assert!(matches!(&out[0], DrawCommand::Line(0, 1, s) if s == "0123"));
    assert!(matches!(&out[1], DrawCommand::Line(1, 0, s) if s == "4567"));
    assert!(matches!(&out[2], DrawCommand::Line(2, 2, s) if s == "ab."));
    assert!(matches!(&out[3], DrawCommand::Status(3, s) if s == ";"));
    assert!(matches!(&out[4], DrawCommand::Status(4, s) if s == ";"));
    assert!(matches!(&out[5], DrawCommand::Status(5, s) if s == "I: x"));
    assert!(matches!(&out[6], DrawCommand::Status(6, s) if s.is_empty()));
    assert!(matches!(&out[7], DrawCommand::Cursor(7, 2)));
}

#[test]
fn cursor_cell_of_a_character() {
    let mut b = buf("0123456789\nab\n", 4);
    let w0 = b.char_to_wrap(0).unwrap();
    let w1 = b.next_wrap(&w0).unwrap();
    let w3 = b.char_to_wrap(11).unwrap();
    b.view.wraps = vec![w0, w1, w3];
    assert_eq!(b.cursor_from_char(5), (1, 1));
    assert_eq!(b.cursor_from_char(12), (1, 2));
    assert_eq!(b.cursor_from_char(0), (0, 0));
}

#[test]
fn test_linewrap_2() {
    let mut text = ropey::Rope::from_str("1234");
    text.insert_char(1, 'a');
    let mut text2 = text.clone();
    text2.insert_char(2, 'b');
    println!("{:?}", (&text, &text2));
    assert_eq!(text.to_string(), "1a234");
    assert_eq!(text2.to_string(), "1ab234");
}
