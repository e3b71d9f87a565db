use editor::text::command::{command_parse, Command, CommandError};

fn single(r: Result<Vec<Command>, CommandError>) -> Command {
    let mut v = r.ok().expect("the line parses");
    assert_eq!(v.len(), 1);
    v.remove(0)
}

#[test]
fn parse_set_with_one_name_asks_for_the_value() {
    match single(command_parse("set x")) {
        Command::VarGet(n) => assert_eq!(n, "x"),
        other => panic!("unexpected {:?}", other),
    }
}

#[test]
fn parse_set_with_name_and_value_sets_it() {
    match single(command_parse("  set   width  80 ")) {
        Command::VarSet(n, v) => {
            assert_eq!(n, "width");
            assert_eq!(v, "80");
        }
        other => panic!("unexpected {:?}", other),
    }
}

#[test]
fn parse_ignores_words_after_the_value() {
    match single(command_parse("set x 1 2")) {
        Command::VarSet(n, v) => {
            assert_eq!(n, "x");
            assert_eq!(v, "1");
        }
        other => panic!("unexpected {:?}", other),
    }
}

#[test]
fn parse_rejects_other_lines() {
    assert!(matches!(command_parse(""), Err(CommandError::Error)));
    assert!(matches!(command_parse("set"), Err(CommandError::Error)));
    assert!(matches!(command_parse("get x"), Err(CommandError::Error)));
    assert!(matches!(command_parse("sets x 1"), Err(CommandError::Error)));
}

#[test]
fn clone_copies_nested_edits() {
    let c = Command::CliEdit(vec![Command::Insert('a'), Command::VarGet("v".to_string())]);
    match c.clone() {
        Command::CliEdit(v) => {
            assert_eq!(v.len(), 2);
            assert!(matches!(v[0], Command::Insert('a')));
            assert!(matches!(&v[1], Command::VarGet(s) if s == "v"));
        }
        other => panic!("unexpected {:?}", other),
    }
}

#[test]
fn unicode_blanks_separate_words() {
    let out = command_parse("set\ta\u{3000}b").unwrap();
    assert_eq!(out.len(), 1);
    match &out[0] {
        Command::VarSet(n, v) => {
            assert_eq!(n, "a");
            assert_eq!(v, "b");
        }
        other => panic!("unexpected {:?}", other),
    }
    for c in ['\u{85}', '\u{a0}', '\u{1680}', '\u{2000}', '\u{200a}', '\u{2028}', '\u{202f}', '\u{205f}'] {
        assert!(c.is_whitespace());
        let line = format!("set{}x", c);
        assert!(matches!(&command_parse(&line).unwrap()[0], Command::VarGet(n) if n == "x"));
    }
    assert!(command_parse("set\u{200b}x").is_err());
}
