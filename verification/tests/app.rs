use editor::text::bufferview::App;
use editor::text::command::Command;
use editor::text::smart::SmartBuffer;
use editor::text::Mode;

#[test]
fn app_starts_at_the_top() {
    let mut buf = SmartBuffer::from_str("abc\ndef\n");
    let app = App::new(&mut buf, 20, 10);
    assert_eq!(app.view.char_current, 0);
    assert_eq!(app.view.mode, Mode::Normal);
    assert_eq!(app.view.spec.sx, 13);
    assert_eq!(app.view.spec.sy, 7);
}

#[test]
fn app_mode_insert_and_move() {
    let mut buf = SmartBuffer::from_str("abc\ndef\n");
    let mut app = App::new(&mut buf, 20, 10);
    app.command(Command::Mode(Mode::Insert));
    assert_eq!(app.view.mode, Mode::Insert);
    app.command(Command::Insert('x'));
    assert_eq!(app.view.char_current, 1);
    app.command(Command::MoveCursorX(2));
    assert_eq!(app.view.char_current, 3);
    assert_eq!(app.view.cursor.x_hint(), 3);
}

#[test]
fn app_resize_and_test() {
    let mut buf = SmartBuffer::from_str("abc\ndef\n");
    let mut app = App::new(&mut buf, 20, 10);
    app.command(Command::Resize(30, 12));
    assert_eq!(app.view.spec.w, 30);
    assert_eq!(app.view.spec.sx, 23);
    assert_eq!(app.view.spec.sy, 9);
    app.command(Command::Test);
    assert_eq!(app.view.spec.rm, 2);
    assert_eq!(app.view.spec.sx, 22);
    assert_eq!(app.view.spec.h, 11);
    assert_eq!(app.view.spec.origin_y, 1);
}

#[test]
fn app_scroll_leaves_the_view() {
    let mut buf = SmartBuffer::from_str("abc\ndef\n");
    let mut app = App::new(&mut buf, 20, 10);
    app.command(Command::Scroll(1));
    assert_eq!(app.view.char_current, 0);
    assert_eq!(app.view.mode, Mode::Normal);
}
