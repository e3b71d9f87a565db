use editor::config::BufferConfig;
use editor::text::display::LineFormat;
use editor::text::display::LineFormatType::{Dim, Highlight, Normal};
use editor::text::format::{format_line, format_range, format_wrapped, string_to_elements};
use editor::text::ViewChar;

#[test]
fn format_test_format_range_1() {
    let config = BufferConfig::config_for(None);
    let line = String::from("asdf");
    let r = format_range(&line, 0, line.len(), "asdf".into(), &config);
    println!("1:{:?}", r);
    assert_eq!(vec![LineFormat(Highlight, "asdf".into())], r);
}

#[test]
fn format_test_format_range_2() {
    let config = BufferConfig::config_for(None);
    let line = String::from("xasdfx");
    let r = format_range(&line, 1, line.len() - 1, "sd".into(), &config);
    println!("1:{:?}", r);
    assert_eq!(
        vec![
            LineFormat(Normal, "a".into()),
            LineFormat(Highlight, "sd".into()),
            LineFormat(Normal, "f".into()),
        ],
        r
    );
}

#[test]
fn format_test_format_range_3() {
    let config = BufferConfig::config_for(None);
    let line = String::from("asdf");
    let r = format_range(&line, 0, line.len(), "a".into(), &config);
    println!("1:{:?}", r);
    assert_eq!(
        vec![LineFormat(Highlight, "a".into()), LineFormat(Normal, "sdf".into()),],
        r
    );
    let r = format_range(&line, 0, line.len(), "f".into(), &config);
    println!("1:{:?}", r);
    assert_eq!(
        vec![LineFormat(Normal, "asd".into()), LineFormat(Highlight, "f".into()),],
        r
    );
}

#[test]
fn format_test_format_range_4() {
    let config = BufferConfig::config_for(None);
    let line = String::from("asdf");
    let r = format_wrapped(&line, 2, "sd".into(), &config);
    println!("1:{:?}", r);
    assert_eq!(
        vec![
            vec![LineFormat(Normal, "a".into()), LineFormat(Highlight, "s".into())],
            vec![LineFormat(Highlight, "d".into()), LineFormat(Normal, "f".into())]
        ],
        r
    );
}

#[test]
fn format_test_format_tab() {
    let config = BufferConfig::config_tabs();
    let line = String::from("\t\t\t\tooo");
    let r = format_wrapped(&line, 10, "sd".into(), &config);
    println!("1:{:?}", r);
}

#[test]
fn format_test_format_chinese() {
    let config = BufferConfig::config_for(None);
    let line = String::from("mèng 梦/夢");
    let r = format_wrapped(&line, 2, "sd".into(), &config);
    println!("1:{:?}", r);
}

#[test]
fn format_tab_expands_to_arrow() {
    let config = BufferConfig::config_tabs();
    let line = String::from("\tx\n");
    // the line has three bytes, and the tab alone draws six, so the line stops after it
    let r = format_line(&line, "".into(), &config);
    assert_eq!(vec![LineFormat(Dim, "   \u{2192}".into())], r);
    let r = format_range(&line, 0, 100, "".into(), &config);
    assert_eq!(
        vec![
            LineFormat(Dim, "   \u{2192}".into()),
            LineFormat(Normal, "x".into()),
            LineFormat(Dim, "\u{00B6}".into()),
        ],
        r
    );
}

#[test]
fn format_stops_at_multibyte_character() {
    let config = BufferConfig::config_for(None);
    let line = String::from("ab\u{00e8}cd");
    let r = format_line(&line, "".into(), &config);
    assert_eq!(vec![LineFormat(Normal, "ab".into())], r);
    let rows = format_wrapped(&line, 1, "".into(), &config);
    assert_eq!(
        vec![vec![LineFormat(Normal, "a".into())], vec![LineFormat(Normal, "b".into())]],
        rows
    );
}

#[test]
fn format_wrapped_zero_width() {
    let config = BufferConfig::config_for(None);
    let line = String::from("ab");
    let rows = format_wrapped(&line, 0, "".into(), &config);
    assert_eq!(vec![vec![], vec![LineFormat(Normal, "ab".into())]], rows);
}

#[test]
fn format_range_skips_by_drawn_bytes() {
    let config = BufferConfig::config_tabs();
    let line = String::from("\tab");
    // the tab draws six bytes, so skipping one byte skips the whole tab
    let r = format_range(&line, 1, 100, "".into(), &config);
    assert_eq!(vec![LineFormat(Normal, "ab".into())], r);
}

#[test]
fn string_to_elements_expands_tabs() {
    let config = BufferConfig::config_tabs();
    let v = string_to_elements(&String::from("a\tb\n"), &config);
    assert_eq!(
        vec![
            ViewChar::Char('a'),
            ViewChar::NOP,
            ViewChar::NOP,
            ViewChar::NOP,
            ViewChar::Tab,
            ViewChar::Char('b'),
            ViewChar::NL
        ],
        v
    );
}
