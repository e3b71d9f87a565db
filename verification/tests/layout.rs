use editor::text::buffer::Buffer;
use editor::tui::display::{DrawCommand, ViewPos};
use editor::tui::layout::BufferWindow;

fn texts(cmds: &[DrawCommand]) -> Vec<(usize, String)> {
    cmds.iter()
        .filter_map(|c| match c {
            DrawCommand::Format(_, y, _, f) => {
                Some((*y, f.iter().map(|x| x.s.clone()).collect::<Vec<String>>().join("")))
            }
            _ => None,
        })
        .collect()
}

fn window(s: &str) -> BufferWindow {
    let view = ViewPos { w: 20, h: 6, x0: 0, y0: 0 };
    let mut w = BufferWindow::new(Buffer::from_string(&s.to_string()), view);
    w.main.resize(14, 5, 6, 0, 0);
    w.left.resize(ViewPos { w: 6, h: 5, x0: 0, y0: 0 });
    w.status.resize(ViewPos { w: 20, h: 1, x0: 0, y0: 5 });
    w
}

#[test]
fn gutter_numbers_each_line() {
    let mut w = window("a\nb\nc");
    w.update();
    let rows = texts(&w.left.generate_commands());
    // the two rows below the text stay empty, as they already were: nothing to draw there
    assert_eq!(rows.len(), 3);
    assert_eq!(rows[0], (0, "    1\u{23A5}".to_string()));
    assert_eq!(rows[1], (1, "    2\u{23A5}".to_string()));
    assert_eq!(rows[2], (2, "    3\u{23A5}".to_string()));
}

#[test]
fn gutter_is_blank_on_wrapped_rows() {
    let mut w = window("abcdefghijklmnopqrstuvwxyz\nz");
    w.update();
    let rows = texts(&w.left.generate_commands());
    assert_eq!(rows[0].1, "    1\u{23A5}");
    assert_eq!(rows[1].1, "     \u{23A5}");
    assert_eq!(rows[2].1, "    2\u{23A5}");
}

#[test]
fn status_row_describes_the_block() {
    let mut w = window("a");
    w.update();
    let rows = texts(&w.status.generate_commands());
    assert_eq!(rows.len(), 1);
    let s = &rows[0].1;
    assert!(s.starts_with("DEBUG: [6,0] xh:0 S:(Line:1,"));
    assert!(s.contains(" (14, 5, 6, 0)"));
    assert!(s.ends_with(&" ".repeat(20)));
}
