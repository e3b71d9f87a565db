use editor::text::buffer::Buffer;
use editor::tui::bufferblock::BufferBlock;
use editor::tui::display::DrawCommand;

fn block(s: &str) -> BufferBlock {
    let mut b = BufferBlock::new(Buffer::from_string(&s.to_string()));
    b.resize(20, 5, 0, 0, 4);
    b
}

#[test]
fn new_block_starts_at_the_top() {
    let b = BufferBlock::new(Buffer::from_string(&"abc".to_string()));
    assert_eq!(b.cursor.c, 0);
    assert_eq!(b.start.c, 0);
    assert_eq!(b.w, 1);
    assert_eq!(b.get_text().to_string(), "abc");
}

#[test]
fn typing_moves_the_cursor_and_undo_restores() {
    let mut b = block("ac");
    b.cursor_move_lc(1);
    assert_eq!(b.cursor.c, 1);
    b.insert_char('b');
    assert_eq!(b.get_text().to_string(), "abc");
    assert_eq!(b.cursor.c, 2);
    b.remove_char();
    assert_eq!(b.get_text().to_string(), "ac");
    assert_eq!(b.cursor.c, 1);
    b.undo();
    assert_eq!(b.get_text().to_string(), "abc");
    b.undo();
    assert_eq!(b.get_text().to_string(), "ac");
    b.redo();
    assert_eq!(b.get_text().to_string(), "abc");
}

#[test]
fn remove_range_before_and_after() {
    let mut b = block("abcdef");
    b.cursor_move_lc(3);
    b.remove_range(-2);
    assert_eq!(b.get_text().to_string(), "adef");
    assert_eq!(b.cursor.c, 1);
    b.remove_range(2);
    assert_eq!(b.get_text().to_string(), "af");
    assert_eq!(b.cursor.c, 1);
    b.remove_range(-10);
    assert_eq!(b.get_text().to_string(), "f");
    assert_eq!(b.cursor.c, 0);
}

#[test]
fn join_and_line_moves() {
    let mut b = block("ab\ncd\nef");
    b.cursor_move_line(1);
    assert_eq!(b.cursor.c, 3);
    b.join_line();
    assert_eq!(b.get_text().to_string(), "ab\ncdef");
    b.cursor_move_line(-1);
    assert_eq!(b.cursor.line_inx, 0);
}

#[test]
fn layout_and_drawing() {
    let mut b = block("a\nb\nc\nd\ne\nf\ng");
    b.set_focus(true);
    b.update_from_start();
    assert_eq!(b.cache_render_rows.len(), 5);
    let c = b.cursor_from_xy(5, 2).unwrap();
    assert_eq!(c.line_inx, 2);
    assert!(b.cursor_from_xy(0, 9).is_none());
    b.scroll(2);
    assert_eq!(b.start.line_inx, 2);
    let cmds = b.generate_commands();
    assert!(cmds.iter().any(|c| matches!(c, DrawCommand::Cursor(_, _))));
    b.reset_buffer();
    assert_eq!(b.get_text().to_string(), "");
    b.set_path("x.txt");
    assert_eq!(b.get_path(), "x.txt");
    b.replace_text("new");
    assert_eq!(b.get_text().to_string(), "new");
}

#[test]
fn update_draws_the_rows_around_the_cursor() {
    let mut b = block("one\ntwo\nthree");
    b.update();
    assert_eq!(b.cache_render_rows.len(), 3);
    let cmds = b.generate_commands();
    let formats: Vec<_> = cmds
        .iter()
        .filter_map(|c| match c {
            DrawCommand::Format(x, y, w, f) => Some((*x, *y, *w, f.len())),
            _ => None,
        })
        .collect();
    // three rows of text; the empty rows below were empty before and are not drawn
    assert_eq!(formats.len(), 3);
    // the text of the row, then its line end
    assert_eq!(formats[0], (4, 0, 16, 2));
    assert_eq!(formats[2].1, 2);
    // nothing changed, so nothing is drawn again
    b.update();
    let again = b.generate_commands();
    assert!(again.iter().all(|c| !matches!(c, DrawCommand::Format(_, _, _, _))));
}

#[test]
fn search_next_steps_through_the_matches() {
    let mut b = BufferBlock::new(Buffer::from_string(&"ab ab ab".to_string()));
    b.search("ab", false);
    b.search_next(0);
    assert_eq!(b.cursor.c, 3);
    b.search_next(1);
    assert_eq!(b.cursor.c, 6);
    b.search("ab", true);
    b.search_next(0);
    assert_eq!(b.cursor.c, 3);
    b.search_next(5);
    assert_eq!(b.cursor.c, 0);
}
