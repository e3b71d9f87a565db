use editor::config::BufferConfig;
use editor::tui::cursor::{
    cursor_char_backward, cursor_char_forward, cursor_eof, cursor_from_char, cursor_from_line,
    cursor_from_line_wrapped, cursor_line_relative, cursor_move_to_char, cursor_move_to_lc,
    cursor_move_to_word, cursor_move_to_x, cursor_move_to_y, cursor_start, cursor_to_line_relative,
    cursor_visual_next_line, cursor_visual_prev_line,
};
use editor::tui::lineworker::LineWorker;
use ropey::Rope;
use unicode_segmentation::GraphemeCursor;

/// The character position `n` grapheme boundaries after `c`.
fn next_boundary(text: &Rope, c: usize, n: usize) -> usize {
    let s = text.to_string();
    let mut byte = s.char_indices().nth(c).map(|(b, _)| b).unwrap_or(s.len());
    for _ in 0..n {
        let mut gc = GraphemeCursor::new(byte, s.len(), true);
        match gc.next_boundary(&s, 0).unwrap() {
            Some(b) => byte = b,
            None => break,
        }
    }
    s[..byte].chars().count()
}

/// The character position `n` grapheme boundaries before `c`.
fn prev_boundary(text: &Rope, c: usize, n: usize) -> usize {
    let s = text.to_string();
    let mut byte = s.char_indices().nth(c).map(|(b, _)| b).unwrap_or(s.len());
    for _ in 0..n {
        let mut gc = GraphemeCursor::new(byte, s.len(), true);
        match gc.prev_boundary(&s, 0).unwrap() {
            Some(b) => byte = b,
            None => break,
        }
    }
    s[..byte].chars().count()
}

#[test]
fn test_cursor_next_visual_line() {
    let config = BufferConfig::config_for(None);
    let text = Rope::from_str("a\nb\nc");
    let (sx, _sy) = (10, 10);
    let c = cursor_start(&text, sx, &config);
    let c_next = cursor_visual_next_line(&text, sx, &c);
    println!("r2:{:?}", (&c, &c_next));
}

#[test]
fn visual_rows_of_a_wrapped_line() {
    let config = BufferConfig::config_for(None);
    let text = Rope::from_str("1234\nab");
    let sx = 5;
    // "1234" and its line end take five columns and the column past the end a sixth: two rows
    let c = cursor_start(&text, sx, &config);
    assert_eq!(c.wraps, 2);
    let mut rows = vec![(c.line_inx, c.wrap0)];
    let mut cur = c;
    for _ in 0..10 {
        match cursor_visual_next_line(&text, sx, &cur) {
            Some(x) => {
                rows.push((x.line_inx, x.wrap0));
                cur = x;
            }
            None => break,
        }
    }
    // the second row of the first line starts past its last column, so the cursor stays on
    // the first row of it
    assert_eq!(rows[0], (0, 0));
    assert_eq!(rows[1], (0, 0));
}

#[test]
fn test_cursor_r_to_c() {
    let config = BufferConfig::config_for(None);
    let text = Rope::from_str("a\n12345\nc\n地球\nasdf\n");
    let (sx, _sy) = (3, 10);
    let mut cursor = cursor_start(&text, sx, &config);
    for i in 0..20 {
        let r = cursor.lc_to_r(cursor.c - cursor.lc0);
        let c = cursor.r_to_c(cursor.r);
        println!(
            "c:{:?}",
            (i, cursor.r, r, cursor.c, c, cursor.lc0, &cursor.line, text.chars_at(cursor.c).next())
        );
        assert_eq!(cursor.c, c);
        assert_eq!(cursor.r, r);
        let next = next_boundary(&text, cursor.c, 1);
        cursor = cursor_char_forward(&text, sx, &cursor, next);
    }
}

#[test]
fn test_cursor_backward() {
    let config = BufferConfig::config_for(None);
    let mut s = (0..10).map(|_| '\t').collect::<String>();
    s.push('\n');
    let text = Rope::from_str(&s);
    let (sx, _sy) = (6, 10);
    let mut cursor = cursor_eof(&text, sx, &config);
    for i in 0..20 {
        println!("c:{:?}", (i, cursor.r, cursor.c));
        let prev = prev_boundary(&text, cursor.c, 1);
        cursor = cursor_char_backward(&text, sx, &cursor, prev);
    }
}

#[test]
fn test_cursor_move_y() {
    let config = BufferConfig::config_for(None);
    let text = Rope::from_str("123456789\nabcdefghijk\na\nb\nc");
    let (sx, sy) = (5, 3);
    let mut c = cursor_start(&text, sx, &config);
    let mut start = c.clone();
    for i in 0..8 {
        let (cx, cy, rows) = LineWorker::screen_from_cursor(&text, sx, sy, &start, &c);
        start = rows[0].clone();
        println!("current:{:?}", (i, cx, cy, &start, &c));
        c = cursor_move_to_y(&text, sx, &c, 1);
    }
    for i in 0..8 {
        let (cx, cy, rows) = LineWorker::screen_from_cursor(&text, sx, sy, &start, &c);
        start = rows[0].clone();
        println!("current:{:?}", (i, cx, cy, &start, &c));
        c = cursor_move_to_y(&text, sx, &c, -1);
    }
}

#[test]
fn test_cursor_move_y_2() {
    let config = BufferConfig::config_for(None);
    let text = Rope::from_str("a\nb\nc");
    let (sx, sy) = (10, 10);
    let mut c = cursor_start(&text, sx, &config);
    let mut start = c.clone();

    let (_, _, rows) = LineWorker::screen_from_cursor(&text, sx, sy, &start, &c);
    start = rows[0].clone();
    println!("r0:{:?}", (&c, &start));

    c = cursor_move_to_y(&text, sx, &c, 1);
    let (_, _, rows) = LineWorker::screen_from_cursor(&text, sx, sy, &start, &c);
    start = rows[0].clone();
    println!("r1:{:?}", (&c, &start));
    assert_eq!((c.line_inx, c.c), (1, 2));

    c = cursor_move_to_y(&text, sx, &c, -1);
    let (_, _, rows) = LineWorker::screen_from_cursor(&text, sx, sy, &start, &c);
    start = rows[0].clone();
    println!("r2:{:?}", (&c, &start));
    assert_eq!((c.line_inx, c.c), (0, 0));
    assert_eq!(start.c, 0);
}

#[test]
fn test_cursor_move_x_utf() {
    let config = BufferConfig::default();
    let s = "地球".to_string();
    let text = Rope::from_str(&s);
    let (sx, _sy) = (10, 10);
    let c0 = cursor_start(&text, sx, &config);
    println!("0:{:?}", (&c0));
    let target = next_boundary(&text, c0.c, 1);
    let c1 = cursor_move_to_x(&text, sx, &c0, 1, target);
    println!("0:{:?}", (&c1));
}

#[test]
fn test_cursor_move_x_control() {
    let config = BufferConfig::default();
    let mut s = String::from("");
    s.push(char::from_u32(13).unwrap());
    s.push(char::from_u32(13).unwrap());
    let text = Rope::from_str(&s);
    let (sx, _sy) = (10, 10);
    let c0 = cursor_start(&text, sx, &config);
    println!("0:{:?}", (&c0));
    let target = next_boundary(&text, c0.c, 1);
    let c1 = cursor_move_to_x(&text, sx, &c0, 1, target);
    println!("0:{:?}", (&c1));
}

#[test]
fn test_lineworker_1() {
    let config = BufferConfig::config_for(None);
    let text = Rope::from_str("a\nb\nc");
    let (sx, sy) = (10, 10);
    let c = cursor_start(&text, sx, &config);
    let mut start = c.clone();
    let _lines: usize = text.len_lines() - 1;
    let c = cursor_eof(&text, sx, &config);
    let (_cx, _cy, rows) = LineWorker::screen_from_cursor(&text, sx, sy, &start, &c);
    start = rows[0].clone();
    println!("r2:{:?}", (&c, &start));

    let c = cursor_from_line(&text, sx, &config, text.len_lines());
    let (_cx, _cy, rows) = LineWorker::screen_from_cursor(&text, sx, sy, &start, &c);
    start = rows[0].clone();
    println!("r2:{:?}", (&c, &start));
}

#[test]
fn cursor_from_char_fields() {
    let config = BufferConfig::config_for(None);
    let text = Rope::from_str("ab\ncdef\n");
    let c = cursor_from_char(&text, 3, &config, 5, 7);
    assert_eq!(c.line_inx, 1);
    assert_eq!(c.lc0, 3);
    assert_eq!(c.lc1, 8);
    assert_eq!(c.c, 5);
    assert_eq!(c.r, 2);
    assert_eq!(c.wrap0, 0);
    assert_eq!(c.x_hint, 7);
    assert_eq!(c.line, "cdef\n");
    assert_eq!(c.line_len, 5);
    // four letters and the line end, one column each, and one column past the end
    assert_eq!(c.unicode_width, 5);
    assert_eq!(c.wraps, 2);
}

#[test]
fn cursor_from_char_past_end_is_cut() {
    let config = BufferConfig::config_for(None);
    let text = Rope::from_str("ab");
    let c = cursor_from_char(&text, 10, &config, 99, 0);
    assert_eq!(c.c, 2);
    assert_eq!(c.line_inx, 0);
    assert_eq!(c.r, 0);
}

#[test]
fn cursor_moves_by_rows_and_lines() {
    let config = BufferConfig::config_for(None);
    let text = Rope::from_str("12345678\nab");
    let sx = 5;
    let c = cursor_start(&text, sx, &config);
    assert_eq!(c.wraps, 2);
    let down = cursor_visual_next_line(&text, sx, &c).unwrap();
    assert_eq!(down.line_inx, 0);
    assert_eq!(down.wrap0, 1);
    assert_eq!(down.c, 5);
    let down2 = cursor_visual_next_line(&text, sx, &down).unwrap();
    assert_eq!(down2.line_inx, 1);
    assert_eq!(down2.c, 9);
    assert!(cursor_visual_next_line(&text, sx, &down2).is_none());
    let up = cursor_visual_prev_line(&text, sx, &down2).unwrap();
    assert_eq!(up.line_inx, 0);
    assert_eq!(up.wrap0, 1);
    assert!(cursor_visual_prev_line(&text, sx, &c).is_none());
    let far = cursor_move_to_y(&text, sx, &c, 100);
    assert_eq!(far.line_inx, 1);
    let back = cursor_move_to_y(&text, sx, &far, -100);
    assert_eq!(back.line_inx, 0);
    assert_eq!(back.wrap0, 0);
}

#[test]
fn cursor_line_moves() {
    let config = BufferConfig::config_for(None);
    let text = Rope::from_str("abc\ndef\nghi");
    let sx = 10;
    let c = cursor_from_line_wrapped(&text, sx, &config, -1);
    assert_eq!(c.line_inx, 1);
    assert_eq!(c.c, 4);
    let end = cursor_move_to_lc(&text, sx, &c, -1);
    assert_eq!(end.c, 7);
    let f = cursor_move_to_char(&text, sx, &c, 1, 'f', false);
    assert_eq!(f.c, 6);
    let same = cursor_move_to_char(&text, sx, &c, 1, 'z', false);
    assert_eq!(same.c, 4);
    let rel = cursor_to_line_relative(&text, sx, &c, 0, 2);
    assert_eq!(rel.c, 6);
    assert_eq!(rel.x_hint, 2);
    let none = cursor_line_relative(&text, sx, &config, 5, 0, 0);
    assert!(none.is_none());
    let some = cursor_line_relative(&text, sx, &config, 2, 0, 1).unwrap();
    assert_eq!(some.c, 9);
}

#[test]
fn cursor_order_by_line_then_position() {
    let config = BufferConfig::config_for(None);
    let text = Rope::from_str("abc\ndef");
    let a = cursor_from_char(&text, 10, &config, 1, 0);
    let b = cursor_from_char(&text, 10, &config, 5, 0);
    assert!(a < b);
    assert!(a == cursor_from_char(&text, 10, &config, 1, 3));
}

#[test]
fn screen_from_start_fills_rows() {
    let config = BufferConfig::config_for(None);
    let text = Rope::from_str("a\nb\nc\nd");
    let c = cursor_start(&text, 10, &config);
    let rows = LineWorker::screen_from_start(&text, 10, 3, &c, &c);
    assert_eq!(rows.len(), 3);
    assert_eq!(rows[2].line_inx, 2);
    let all = LineWorker::screen_from_start(&text, 10, 10, &c, &c);
    assert_eq!(all.len(), 4);
}

#[test]
fn screen_from_cursor_counts_rows_above() {
    let config = BufferConfig::config_for(None);
    let text = Rope::from_str("a\nb\nc\nd");
    let start = cursor_start(&text, 10, &config);
    let c = cursor_from_line(&text, 10, &config, 2);
    let (rx, ry, rows) = LineWorker::screen_from_cursor(&text, 10, 10, &start, &c);
    assert_eq!(rx, 0);
    assert_eq!(ry, 2);
    assert_eq!(rows.len(), 4);
    assert_eq!(rows[0].line_inx, 0);
}

#[test]
fn word_motions_keep_the_new_column_as_hint() {
    let config = BufferConfig::config_for(None);
    let text = Rope::from_str("foo bar(baz) qux\n");
    let c = cursor_start(&text, 5, &config);
    let w = cursor_move_to_word(&text, 5, &c, 2, false);
    assert_eq!(w.c, 13);
    // column 13 is column 3 of the third row
    assert_eq!((w.wrap0, w.x_hint), (2, 3));
    let back = cursor_move_to_word(&text, 5, &w, -1, false);
    assert_eq!(back.c, 4);
    let cap = cursor_move_to_word(&text, 5, &c, 1, true);
    assert_eq!(cap.c, 4);
    let same = cursor_move_to_word(&text, 5, &w, 0, true);
    assert_eq!((same.c, same.x_hint), (13, 3));
    let empty = Rope::from_str("");
    let e = cursor_start(&empty, 5, &config);
    assert_eq!(cursor_move_to_word(&empty, 5, &e, 3, false).c, 0);
}

#[test]
fn simple_format_lists_the_fields() {
    let config = BufferConfig::config_for(None);
    let text = Rope::from_str("ab\ncdef");
    let c = cursor_from_char(&text, 3, &config, 5, 1);
    assert_eq!(c.simple_format(), "(Line:2,r:2,dc:2,xh:1,w:1/2,uw:4,cw:4)");
}

#[test]
fn rows_down_then_up_come_back() {
    let config = BufferConfig::config_for(None);
    let text = Rope::from_str("abcdef\nxy\nz");
    let sx = 4;
    let mut c = cursor_start(&text, sx, &config);
    let mut down = vec![(c.line_inx, c.wrap0)];
    while let Some(x) = cursor_visual_next_line(&text, sx, &c) {
        c = x;
        down.push((c.line_inx, c.wrap0));
    }
    assert_eq!(down, vec![(0, 0), (0, 1), (1, 0), (2, 0)]);
    let mut up = vec![(c.line_inx, c.wrap0)];
    while let Some(x) = cursor_visual_prev_line(&text, sx, &c) {
        c = x;
        up.push((c.line_inx, c.wrap0));
    }
    up.reverse();
    assert_eq!(up, down);
}
