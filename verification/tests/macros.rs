use editor::text::command::{Command, MacroId};
use editor::text::macros::Macros;

#[test]
fn first_add_starts_the_macro_then_commands_are_recorded() {
    let mut m = Macros::default();
    let a = MacroId('a');
    assert!(m.get(&a).is_empty());
    m.add(&a, &Command::Insert('x'));
    assert!(m.get(&a).is_empty());
    m.add(&a, &Command::Insert('y'));
    m.add(&a, &Command::Join);
    let got = m.get(&a);
    assert_eq!(got.len(), 2);
    assert!(matches!(got[0], Command::Insert('y')));
    assert!(matches!(got[1], Command::Join));
}

#[test]
fn clear_forgets_one_macro_and_clear_all_every_one() {
    let mut m = Macros::default();
    let a = MacroId('a');
    let b = MacroId('b');
    m.add(&a, &Command::Join);
    m.add(&a, &Command::Join);
    m.add(&b, &Command::Join);
    m.add(&b, &Command::Quit);
    m.clear(&a);
    assert!(m.get(&a).is_empty());
    assert_eq!(m.get(&b).len(), 1);
    m.clear_all();
    assert!(m.get(&b).is_empty());
}
