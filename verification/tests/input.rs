use editor::text::command::{Command, MacroId};
use editor::text::input::{InputReader, SimpleHistory};
use editor::text::Mode;

#[test]
fn history_keeps_newest_first_and_at_most_ten() {
    let mut h = SimpleHistory::default();
    assert!(h.front().is_none());
    for i in 0..12 {
        h.add(vec![Command::Line(i)]);
    }
    let f = h.front().expect("an entry");
    assert_eq!(f.len(), 1);
    assert!(matches!(f[0], Command::Line(11)));
}

#[test]
fn history_records_only_between_start_and_end() {
    let mut h = SimpleHistory::default();
    h.add_elem(&Command::Insert('x'));
    h.change_end();
    assert!(h.front().is_none());
    h.change_start();
    h.add_elem(&Command::Insert('a'));
    h.add_acc(&[Command::Insert('b'), Command::Join]);
    h.change_end();
    let f = h.front().expect("the recorded change");
    assert_eq!(f.len(), 3);
    assert!(matches!(f[0], Command::Insert('a')));
    assert!(matches!(f[1], Command::Insert('b')));
    assert!(matches!(f[2], Command::Join));
}

#[test]
fn quit_is_sent_alone_and_stops() {
    let mut st = InputReader::new();
    let act = st.add(vec![Command::Quit, Command::Insert('x')]);
    assert!(st.quit);
    assert!(st.is_quit());
    assert_eq!(act.send.len(), 1);
    assert!(matches!(act.send[0], Command::Quit));
}

#[test]
fn repeat_sends_the_last_change_again() {
    let mut st = InputReader::new();
    let a = st.add(
        vec![Command::ChangeStart, Command::Insert('a'), Command::Join, Command::ChangeEnd],
    );
    assert_eq!(a.send.len(), 2);
    assert!(a.clear_queue);
    let b = st.add(vec![Command::ChangeRepeat]);
    assert_eq!(b.send.len(), 2);
    assert!(matches!(b.send[0], Command::Insert('a')));
    assert!(matches!(b.send[1], Command::Join));
    assert!(b.clear_queue);
}

#[test]
fn mode_macro_and_reset() {
    let mut st = InputReader::new();
    let a = st.add(vec![Command::Mode(Mode::Insert), Command::MacroStart(MacroId('q'))]);
    assert_eq!(st.mode, Mode::Insert);
    assert_eq!(st.record, Some(MacroId('q')));
    assert_eq!(a.send.len(), 1);
    assert!(matches!(a.send[0], Command::Mode(Mode::Insert)));
    let b = st.add(vec![Command::MacroEnd, Command::Reset]);
    assert_eq!(st.record, None);
    assert!(b.reset_state);
    assert!(b.send.is_empty());
    let c = st.add(vec![]);
    assert!(c.send.is_empty() && !c.clear_queue && !c.reset_state);
}

#[test]
fn a_key_sequence_is_handled_up_to_quit() {
    let mut r = InputReader::new();
    let out = r.add(vec![
        Command::ChangeStart,
        Command::Insert('a'),
        Command::Quit,
        Command::Insert('b'),
    ]);
    assert_eq!(out.send.len(), 2);
    assert!(matches!(out.send[0], Command::Insert('a')));
    assert!(matches!(out.send[1], Command::Quit));
    assert!(r.is_quit());
    assert!(out.clear_queue);
    assert!(!out.reset_state);
}
