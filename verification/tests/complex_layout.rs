use editor::text::buffer::Buffer;
use editor::text::command::Command;
use editor::tui::display::ViewPos;
use editor::tui::editor::{EditorComplexLayout, EditorConfig, EditorSimpleLayout};
use editor::tui::layout::BufferWindow;

fn layout() -> EditorComplexLayout {
    let config = EditorConfig { version: "1.0".to_string() };
    let mut l = EditorComplexLayout::new(&config, ViewPos { w: 40, h: 12, x0: 0, y0: 0 });
    l.add_window(Buffer::from_string(&"first".to_string()));
    l.add_window(Buffer::from_string(&"second ab".to_string()));
    l
}

fn typed(s: &str) -> Command {
    Command::CliEdit(s.chars().map(Command::Insert).collect())
}

#[test]
fn typing_a_set_command_and_running_it() {
    let mut l = layout();
    assert!(l.command(&typed(":set x 5")).is_empty());
    assert_eq!(l.get_command_line(), ":set x 5");
    let out = l.command(&Command::CliExec);
    assert_eq!(out.len(), 1);
    match &out[0] {
        Command::VarSet(n, v) => {
            assert_eq!(n, "x");
            assert_eq!(v, "5");
        }
        other => panic!("unexpected {:?}", other),
    }
    assert_eq!(l.get_command_line(), "");
}

#[test]
fn a_bad_command_line_shows_an_error() {
    let mut l = layout();
    l.command(&typed(":bogus"));
    let out = l.command(&Command::CliExec);
    assert!(out.is_empty());
    assert_eq!(l.get_command_line(), "");
    let cmds = l.cmd_block.generate_commands();
    let shown: Vec<String> = cmds
        .iter()
        .filter_map(|c| match c {
            editor::tui::display::DrawCommand::Format(_, _, _, f) => {
                Some(f.iter().map(|x| x.s.clone()).collect::<String>())
            }
            _ => None,
        })
        .collect();
    assert!(shown.iter().any(|s| s.starts_with("ERROR")));
}

#[test]
fn searching_highlights_in_the_shown_window() {
    let mut l = layout();
    l.command(&typed("/ab"));
    assert_eq!(l.highlight, "ab");
    assert!(l.command(&Command::CliExec).is_empty());
    assert_eq!(l.layout.buffers.get().main.block.get_highlight(), "ab");
    assert_eq!(l.get_command_line(), "");
}

#[test]
fn cancel_empties_the_command_line() {
    let mut l = layout();
    l.command(&typed(":se"));
    l.command(&Command::CliCancel);
    assert_eq!(l.get_command_line(), "");
}

#[test]
fn next_and_previous_window() {
    let mut l = layout();
    assert_eq!(l.layout.buffers.get().main.get_text().to_string(), "second ab");
    l.command(&Command::BufferNext);
    assert_eq!(l.layout.buffers.get().main.get_text().to_string(), "first");
    l.command(&Command::BufferPrev);
    assert_eq!(l.layout.buffers.get().main.get_text().to_string(), "second ab");
}

#[test]
fn typing_into_the_shown_window_and_resizing() {
    let mut l = layout();
    l.command(&Command::Insert('>'));
    assert_eq!(l.layout.buffers.get().main.get_text().to_string(), ">second ab");
    l.command(&Command::Resize(60, 20));
    assert_eq!(l.view, ViewPos { w: 60, h: 20, x0: 0, y0: 0 });
    assert_eq!(l.layout.buffers.elements[1].view, ViewPos { w: 60, h: 18, x0: 0, y0: 1 });
}

#[test]
fn simple_layout_passes_commands_to_the_shown_window() {
    let view = ViewPos { w: 30, h: 8, x0: 0, y0: 0 };
    let mut l = EditorSimpleLayout::new(view);
    l.layout.buffers.add(BufferWindow::new(Buffer::from_string(&"abc".to_string()), view));
    assert!(l.command(&Command::Insert('z')).is_empty());
    assert_eq!(l.layout.buffers.get().main.get_text().to_string(), "zabc");
    assert!(l.command(&Command::Resize(50, 10)).is_empty());
    assert_eq!(l.layout.buffers.elements[1].view, ViewPos { w: 50, h: 10, x0: 0, y0: 0 });
    l.update();
    assert_eq!(l.layout.buffers.get().view, view);
}

#[test]
fn test_layout_1() {
    let config = EditorConfig { version: "unknown".to_string() };
    let mut layout = EditorComplexLayout::new(&config, ViewPos { w: 10, h: 10, x0: 0, y0: 0 });
    layout.add_window(Buffer::from_string(&"".to_string()));
    layout.add_window(Buffer::from_string(&"".to_string()));
    layout.add_window(Buffer::from_string(&"".to_string()));
    layout.resize(ViewPos { w: 100, h: 20, x0: 0, y0: 0 });
    let cs = vec![
        Command::Insert('x'),
        Command::BufferNext,
        Command::Insert('y'),
        Command::BufferNext,
        Command::Insert('z'),
    ];
    cs.iter().for_each(|c| {
        layout.command(c);
    });
    let commands = layout.layout.get_buffer_mut().main.generate_commands();
    println!("C: {:?}", &commands);
}

#[test]
fn searching_moves_the_cursor_to_the_nearest_match() {
    let mut l = layout();
    assert_eq!(l.layout.buffers.get().main.cursor.c, 0);
    l.command(&typed("/ab"));
    l.command(&Command::CliExec);
    assert_eq!(l.layout.buffers.get().main.cursor.c, 7);
    assert_eq!(l.layout.buffers.get().main.get_text().to_string(), "second ab");
    l.command(&typed("?se"));
    l.command(&Command::CliExec);
    assert_eq!(l.layout.buffers.get().main.cursor.c, 0);
    l.command(&typed("?zz"));
    l.command(&Command::CliExec);
    assert_eq!(l.layout.buffers.get().main.cursor.c, 0);
}

#[test]
fn a_command_that_runs_leaves_no_error() {
    let mut l = layout();
    let windows = l.layout.buffers.elements.len();
    l.command(&typed(":set a b"));
    let out = l.command(&Command::CliExec);
    assert_eq!(out.len(), 1);
    assert_eq!(l.get_command_line(), "");
    assert_eq!(l.layout.buffers.elements.len(), windows);
    assert_eq!(l.layout.buffers.get().main.get_text().to_string(), "second ab");
}
