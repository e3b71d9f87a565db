use editor::text::cursor::{
    cursor_char_backward, cursor_char_forward, cursor_eof, cursor_from_char, cursor_from_line,
    cursor_from_line_wrapped, cursor_line_relative, cursor_move_to_lc, cursor_move_to_word,
    cursor_move_to_x, cursor_start, cursor_to_line_relative, cursor_to_row,
    cursor_visual_next_line, cursor_visual_prev_line, string_to_elements, Cursor,
};
use editor::text::lineworker::LineWorker;
use editor::text::rowiter::{LineIter, RowIter};
use editor::text::ViewChar;
use ropey::Rope;

#[test]
fn cursor_test_cursor_next_visual_line() {
    let text = Rope::from_str("a\nb\nc");
    let (sx, _sy) = (10, 10);
    let c = cursor_start(&text, sx);
    let c_next = cursor_visual_next_line(&text, sx, &c);
    let n = c_next.unwrap();
    assert_eq!(n.line_inx, 1);
    assert_eq!(n.c, 2);
}

#[test]
fn cursor_test_cursor_visual() {
    let text = Rope::from_str("123456789\nabcdefghijk\na\nb\nc");
    let (sx, _sy) = (5, 3);
    let c0 = cursor_from_char(&text, sx, 10, 0);
    assert_eq!(c0.line_inx, 1);
    let mut c = cursor_start(&text, sx);
    let mut i = 0;
    let mut down = vec![(c.line_inx, c.wrap0)];
    loop {
        match cursor_visual_next_line(&text, sx, &c) {
            Some(x) => {
                c = x;
                down.push((c.line_inx, c.wrap0));
                i += 1;
            }
            None => break,
        }
    }
    // the rows of every line but the last, which the cursor never reaches going down
    assert_eq!(down, vec![(0, 0), (0, 1), (1, 0), (1, 1), (1, 2), (2, 0), (3, 0)]);
    let mut up = vec![(c.line_inx, c.wrap0)];
    loop {
        match cursor_visual_prev_line(&text, sx, &c) {
            Some(x) => {
                c = x;
                up.push((c.line_inx, c.wrap0));
                i += 1;
            }
            None => break,
        }
    }
    up.reverse();
    assert_eq!(up, down);
    assert_eq!(i, 12);
}

#[test]
fn cursor_test_cursor_r_to_c() {
    let text = Rope::from_str("a\n12345\nc");
    let (sx, _sy) = (3, 10);
    let mut cursor = cursor_start(&text, sx);
    for _i in 0..20 {
        let r = cursor.lc_to_r(cursor.c - cursor.lc0);
        let c = cursor.r_to_c(cursor.r);
        assert_eq!(cursor.c, c);
        assert_eq!(cursor.r, r);
        cursor = cursor_char_forward(&text, sx, &cursor, 1);
    }
    assert_eq!(cursor.c, 8);
}

#[test]
fn cursor_test_cursor_backward() {
    let mut s = (0..10).map(|_| '\t').collect::<String>();
    s.push('\n');
    let text = Rope::from_str(&s);
    let (sx, _sy) = (6, 10);
    let mut cursor = cursor_eof(&text, sx);
    assert_eq!((cursor.line_inx, cursor.c, cursor.r), (1, 11, 0));
    cursor = cursor_char_backward(&text, sx, &cursor, 1);
    assert_eq!((cursor.line_inx, cursor.c, cursor.r, cursor.wrap0), (0, 10, 40, 6));
    for _i in 0..20 {
        cursor = cursor_char_backward(&text, sx, &cursor, 1);
    }
    assert_eq!((cursor.c, cursor.r), (0, 0));
}

#[test]
fn lineworker_test_lineworker_1() {
    let text = Rope::from_str("a\nb\nc");
    let (sx, sy) = (10, 10);
    let c = cursor_start(&text, sx);
    let mut start = c.clone();
    let c = cursor_eof(&text, sx);
    let (cx, cy, rows) = LineWorker::screen_from_cursor(&text, sx, sy, &start, &c);
    assert_eq!((cx, cy, rows.len()), (1, 2, 3));
    start = rows[0].cursor.clone();
    assert_eq!(start.c, 0);

    let c = cursor_from_line(&text, sx, text.len_lines());
    let (cx, cy, rows) = LineWorker::screen_from_cursor(&text, sx, sy, &start, &c);
    assert_eq!((cx, cy, rows.len()), (1, 2, 3));
    assert_eq!(rows[2].to_string(), "c");
}

#[test]
fn cells_of_tabs_and_line_ends() {
    let v = string_to_elements(&"a\tb\n".to_string());
    assert_eq!(
        v,
        vec![
            ViewChar::Char('a'),
            ViewChar::NOP,
            ViewChar::NOP,
            ViewChar::NOP,
            ViewChar::Tab,
            ViewChar::Char('b'),
            ViewChar::NL
        ]
    );
    assert_eq!(Cursor::line_lc_to_r(&"a\tb\n".to_string(), 2), 5);
    assert_eq!(Cursor::line_lc_to_r(&"a\tb\n".to_string(), 99), 7);
    assert_eq!(Cursor::line_r_to_lc(&v, 3), 1);
    assert_eq!(Cursor::line_r_to_lc(&v, 5), 2);
}

#[test]
fn cursor_fields_from_a_position() {
    let text = Rope::from_str("ab\n\tcd\n");
    let c = cursor_from_char(&text, 3, 5, 7);
    assert_eq!((c.line_inx, c.lc0, c.lc1, c.c), (1, 3, 7, 5));
    // the tab takes four columns, `c` one more
    assert_eq!((c.r, c.wrap0, c.wraps, c.x_hint), (5, 1, 3, 0));
    assert_eq!(c.line, "\tcd\n");
    assert_eq!(c.simple_format(), "(Line:1,rx:5,dc:2,xh:0)");
    assert_eq!(c.rx(3), 2);
    let row = cursor_to_row(&c, 3);
    assert_eq!(row.elements, vec![ViewChar::Tab, ViewChar::Char('c'), ViewChar::Char('d')]);
    assert_eq!(row.to_string(), "^cd");
    assert_eq!(c.to_elements(3).len(), 3);
    let mut h = c.clone();
    h.save_x_hint(3);
    assert_eq!(h.x_hint, 2);
}

#[test]
fn lines_counted_from_either_end() {
    let text = Rope::from_str("a\nb\nc");
    assert_eq!(cursor_from_line_wrapped(&text, 4, 1).c, 2);
    assert_eq!(cursor_from_line_wrapped(&text, 4, -1).c, 2);
    assert_eq!(cursor_from_line_wrapped(&text, 4, -2).c, 0);
    assert!(cursor_line_relative(&text, 4, 3, 0, 0).is_none());
    let c = cursor_line_relative(&text, 4, 1, 0, 3).unwrap();
    // kept on the line's last cell, its line end
    assert_eq!((c.c, c.r), (3, 1));
}

#[test]
fn moves_within_a_line_wrap_around() {
    let text = Rope::from_str("abc\ndef\n");
    let c = cursor_from_char(&text, 10, 5, 0);
    assert_eq!(cursor_move_to_lc(&text, 10, &c, 1).c, 5);
    assert_eq!(cursor_move_to_lc(&text, 10, &c, -1).c, 7);
    assert_eq!(cursor_move_to_lc(&text, 10, &c, 6).c, 6);
    let r = cursor_to_line_relative(&text, 2, &c, 1, 1);
    assert_eq!((r.r, r.wrap0, r.c), (3, 1, 7));
}

#[test]
fn moves_by_characters_stop_at_the_ends() {
    let text = Rope::from_str("abc");
    let c = cursor_from_char(&text, 10, 1, 0);
    assert_eq!(cursor_move_to_x(&text, 10, &c, -5).c, 0);
    assert_eq!(cursor_move_to_x(&text, 10, &c, 5).c, 2);
    assert_eq!(cursor_move_to_x(&text, 10, &c, 1).c, 2);
    assert_eq!(cursor_move_to_x(&text, 10, &c, 0).c, 1);
}

#[test]
fn word_motions_skip_words_and_blanks() {
    let text = Rope::from_str("foo bar(baz) qux\n");
    let c = cursor_start(&text, 40);
    let w = cursor_move_to_word(&text, 40, &c, 1, false);
    assert_eq!(w.c, 4);
    let w2 = cursor_move_to_word(&text, 40, &c, 2, false);
    assert_eq!(w2.c, 13);
    let cap = cursor_move_to_word(&text, 40, &c, 2, true);
    assert_eq!(cap.c, 13);
    let back = cursor_move_to_word(&text, 40, &w2, -1, false);
    assert_eq!(back.c, 4);
    let end = cursor_move_to_word(&text, 40, &w2, 5, false);
    assert_eq!(end.c, 16);
    assert_eq!(cursor_move_to_word(&text, 40, &w2, 0, false).c, 13);
}

#[test]
fn cursors_are_ordered_by_line_then_position() {
    let text = Rope::from_str("ab\ncd");
    let a = cursor_from_char(&text, 10, 1, 0);
    let b = cursor_from_char(&text, 10, 3, 0);
    assert!(a < b);
    assert!(a == a.clone());
    assert!(b > a);
}

#[test]
fn screen_from_start_fills_the_rows() {
    let text = Rope::from_str("abcdef\ngh\nij\n");
    let start = cursor_start(&text, 4);
    let rows = LineWorker::screen_from_start(&text, 4, 3, &start, &start);
    assert_eq!(rows.len(), 3);
    assert_eq!(rows[0].to_string(), "abcd");
    assert_eq!(rows[1].to_string(), "efv");
    assert_eq!(rows[2].to_string(), "ghv");
    let all = LineWorker::screen_from_start(&text, 4, 10, &start, &start);
    assert_eq!(all.len(), 4);
}

#[test]
fn row_iterators_hand_out_the_cursor_row() {
    let text = Rope::from_str("abcdef\ngh\n");
    let c = cursor_from_char(&text, 4, 5, 0);
    let es = string_to_elements(&"abcdef\n".to_string());
    let mut it = RowIter::new(text.clone(), 4, c.clone());
    assert_eq!(it.next(&es).unwrap().to_string(), "efv");
    assert_eq!(it.prev(&es).unwrap().to_string(), "abcd");
    assert!(it.next(&vec![]).is_none());
    let mut lines = LineIter::new(text.clone(), 4, c.clone());
    assert_eq!(lines.next().unwrap().to_string(), "efv");
    assert_eq!(lines.prev().unwrap().to_string(), "abcd");
    let start = cursor_start(&text, 4);
    let mut first = LineIter::new(text.clone(), 4, start);
    assert!(first.prev().is_none());
}
