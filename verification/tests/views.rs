use editor::text::bufferview::BufferView;
use editor::text::display::DrawCommand;
use editor::text::linewrap::{LineWrap, ViewChar};
use editor::text::smart::SmartBuffer;
use editor::text::viewport::ViewPort;
use editor::text::viewrow::ViewRow;
use editor::text::viewspec::ViewSpec;
use editor::text::Mode;
use ropey::Rope;

#[test]
fn test_linewrap_1() {
    let mut wrap = LineWrap::default();
    wrap.update_spec(10, 10);
    wrap.update_port(ViewPort::default());
    wrap.update_lines(&Rope::from_str("aa\tb\tc\td"));
    assert_eq!(wrap.get(0, 1).e, ViewChar::Tab);
    assert_eq!(wrap.get(1, 1).e, ViewChar::Char('c'));
    assert_eq!(wrap.get(2, 1).e, ViewChar::NOP);
}

#[test]
fn linewrap_counts_shown_cells_and_stops_at_screen() {
    let mut wrap = LineWrap::default();
    wrap.update_spec(4, 2);
    wrap.update_lines(&Rope::from_str("abcdefghij\nxy"));
    let i = wrap.get(3, 1);
    assert_eq!(i.e, ViewChar::Char('h'));
    assert_eq!(i.x, 3);
    // only two rows fit on the screen
    assert_eq!(wrap.get(0, 2).e, ViewChar::OOB);
    assert_eq!(wrap.get(5, 0).e, ViewChar::OOB);
}

#[test]
fn buffer_view_draws_rows_once() {
    let mut buf = SmartBuffer::from_str("hello\nworld");
    let spec = ViewSpec::new(20, 6, 0, 0);
    let mut view = BufferView::new(&mut buf, Mode::Normal, spec);
    view.update_lines();
    let first = view.render();
    match &first[0] {
        DrawCommand::Status(0, s) => assert_eq!(s, "Header: 0"),
        other => panic!("unexpected {:?}", other),
    }
    match &first[1] {
        DrawCommand::Row(6, 1, s) => assert_eq!(s, "hello."),
        other => panic!("unexpected {:?}", other),
    }
    match &first[2] {
        DrawCommand::Row(6, 2, s) => assert_eq!(s, "world"),
        other => panic!("unexpected {:?}", other),
    }
    assert!(matches!(first[first.len() - 1], DrawCommand::Cursor(6, 1)));
    // nothing changed: only the header, status, footer and cursor are drawn
    let second = view.render();
    assert_eq!(second.len(), 4);
    assert_eq!(view.char_from_cursor(8, 2), Some(8));
    assert_eq!(view.cursor_from_char(8), Some((2, 1)));
    view.update_cursor(8);
    assert_eq!(view.char_current, 8);
    view.refresh();
    assert_eq!(view.render().len(), 4 + 3);
}

#[test]
fn row_made_eof_twice_is_clean_the_second_time() {
    let mut row = ViewRow::new("abc".to_string());
    row.make_eof();
    assert!(row.is_dirty());
    assert!(!row.is_line());
    assert_eq!(row.to_string(), "");
    row.make_eof();
    assert!(!row.is_dirty());
}

#[test]
fn same_text_twice_is_clean_the_second_time() {
    let mut row = ViewRow::default();
    row.update_string("line".to_string());
    row.update_string("line".to_string());
    assert!(!row.is_dirty());
    assert_eq!(row.to_string(), "line");
}
