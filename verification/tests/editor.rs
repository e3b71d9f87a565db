use editor::text::buffer::Buffer;
use editor::text::command::Command;
use editor::tui::display::ViewPos;
use editor::tui::editor::{line_action, Editor, EditorConfig, EditorSimpleLayout, LineAction};
use editor::tui::layout::BufferWindow;

fn editor_with(s: &str) -> Editor {
    let view = ViewPos { w: 40, h: 10, x0: 0, y0: 0 };
    let mut layout = EditorSimpleLayout::new(view);
    layout.layout.buffers.add(BufferWindow::new(Buffer::from_string(&s.to_string()), view));
    Editor::new(EditorConfig { version: "test".to_string() }, layout)
}

fn shown_text(e: &mut Editor) -> String {
    e.layout.layout.buffers.get().main.get_text().to_string()
}

#[test]
fn typing_goes_into_the_shown_window() {
    let mut e = editor_with("");
    assert!(e.command(&Command::Insert('x')).is_empty());
    assert!(e.command(&Command::Insert('y')).is_empty());
    assert_eq!(shown_text(&mut e), "xy");
    assert!(e.command(&Command::RemoveChar(-1)).is_empty());
    assert_eq!(shown_text(&mut e), "x");
}

#[test]
fn join_line_and_move_to_line() {
    let mut e = editor_with("ab\ncd\nef");
    e.command(&Command::Line(2));
    assert_eq!(e.layout.layout.buffers.get().main.cursor.line_inx, 1);
    e.command(&Command::Join);
    assert_eq!(shown_text(&mut e), "ab\ncdef");
    e.command(&Command::LineNav(1));
    assert_eq!(e.layout.layout.buffers.get().main.cursor.c, 4);
}

#[test]
fn save_hands_out_text_and_path_and_quit_stops() {
    let mut e = editor_with("hello");
    let out = e.command(&Command::Save);
    assert_eq!(out.len(), 1);
    match &out[0] {
        Command::SaveBuffer(p, t) => {
            assert_eq!(p, "");
            assert_eq!(t.to_string(), "hello");
        }
        other => panic!("unexpected {:?}", other),
    }
    assert!(!e.is_quit);
    assert!(e.command(&Command::Quit).is_empty());
    assert!(e.is_quit);
}

#[test]
fn other_windows_are_left_alone() {
    let mut e = editor_with("one");
    e.layout.layout.buffers.add(BufferWindow::new(Buffer::from_string(&"two".to_string()), e.layout.layout.view));
    e.command(&Command::Insert('!'));
    assert_eq!(shown_text(&mut e), "!two");
    e.layout.layout.buffers.next();
    assert_eq!(shown_text(&mut e), "one");
}

#[test]
fn command_line_actions() {
    assert!(matches!(line_action(""), LineAction::Nothing));
    assert!(matches!(line_action("/"), LineAction::Nothing));
    assert!(matches!(line_action("/ab"), LineAction::Search(ref s, false) if s == "ab"));
    assert!(matches!(line_action("?ab"), LineAction::Search(ref s, true) if s == "ab"));
    assert!(matches!(line_action(":set x"), LineAction::Run(ref v) if v.len() == 1));
    assert!(matches!(line_action(":bogus"), LineAction::Error));
    assert!(matches!(line_action("xab"), LineAction::Nothing));
}

#[test]
fn refresh_takes_the_terminal_size_and_focuses() {
    let mut e = editor_with("abc");
    e.layout.layout.buffers.add(BufferWindow::new(Buffer::from_string(&"x".to_string()), e.layout.layout.view));
    e.refresh(80, 24);
    assert_eq!(e.layout.layout.view, ViewPos { w: 40, h: 10, x0: 0, y0: 0 });
    assert_eq!(e.layout.layout.buffers.elements[1].view, ViewPos { w: 80, h: 24, x0: 0, y0: 0 });
    let shown = e.layout.layout.buffers.get();
    assert_eq!(shown.view, ViewPos { w: 40, h: 10, x0: 0, y0: 0 });
    assert_eq!(shown.main.get_text().to_string(), "x");
}

#[test]
fn editor_update_and_drawing_steps() {
    let mut e = editor_with("one\ntwo");
    e.update();
    let cmds = e.generate_commands();
    assert!(!cmds.is_empty());
    e.clear();
    e.resize(ViewPos { w: 30, h: 6, x0: 0, y0: 0 });
    assert_eq!(e.layout.layout.buffers.get().view, ViewPos { w: 30, h: 6, x0: 0, y0: 0 });
}

#[test]
fn save_as_sets_the_path_and_asks_for_a_save() {
    let mut e = editor_with("hello");
    let out = e.command(&Command::SaveAs("notes.txt".to_string()));
    assert_eq!(out.len(), 1);
    assert!(matches!(out[0], Command::Save));
    let out = e.command(&Command::Save);
    match &out[0] {
        Command::SaveBuffer(p, t) => {
            assert_eq!(p, "notes.txt");
            assert_eq!(t.to_string(), "hello");
        }
        other => panic!("unexpected {:?}", other),
    }
}

#[test]
fn readiness_before_a_command_or_a_refresh() {
    let e = editor_with("ab\ncd");
    assert!(e.command_ready(&Command::Insert('x')));
    assert!(e.command_ready(&Command::Line(2)));
    assert!(!e.command_ready(&Command::Line(100)));
    assert!(e.command_ready(&Command::LineNav(1)));
    assert!(e.refresh_ready_for(40, 10));
    assert!(!e.refresh_ready_for(3, 3));
}
