use editor::config::BufferConfig;
use editor::tui::format::{format_line, format_range, format_wrapped};
use editor::tui::viewchar::LineFormatType::{Dim, Highlight, Normal};
use editor::tui::viewchar::{string_to_elements, LineFormat};
use unicode_width::UnicodeWidthStr;

#[test]
fn test_format_range_1() {
    let config = BufferConfig::config_for(None);
    let line = String::from("asdf");
    let r = format_range(&line, 0, line.len(), "asdf".into(), &config);
    println!("1:{:?}", r);
    assert_eq!(vec![LineFormat::new(Highlight, "asdf".into())], r);
}

#[test]
fn test_format_range_2() {
    let config = BufferConfig::config_for(None);
    let line = String::from("xasdfx");
    let r = format_range(&line, 1, line.len() - 1, "sd".into(), &config);
    println!("1:{:?}", r);
    assert_eq!(
        vec![
            LineFormat::new(Normal, "a".into()),
            LineFormat::new(Highlight, "sd".into()),
            LineFormat::new(Normal, "f".into()),
        ],
        r
    );
}

#[test]
fn test_format_range_3() {
    let config = BufferConfig::config_for(None);
    let line = String::from("asdf");
    let r = format_range(&line, 0, line.len(), "a".into(), &config);
    println!("1:{:?}", r);
    assert_eq!(
        vec![LineFormat::new(Highlight, "a".into()), LineFormat::new(Normal, "sdf".into()),],
        r
    );
    let r = format_range(&line, 0, line.len(), "f".into(), &config);
    println!("1:{:?}", r);
    assert_eq!(
        vec![LineFormat::new(Normal, "asd".into()), LineFormat::new(Highlight, "f".into()),],
        r
    );
}

#[test]
fn test_format_range_4() {
    let config = BufferConfig::config_for(None);
    let line = String::from("asdf");
    let r = format_wrapped(&line, 2, "sd".into(), &config);
    println!("1:{:?}", r);
    assert_eq!(
        vec![
            vec![LineFormat::new(Normal, "a".into()), LineFormat::new(Highlight, "s".into())],
            vec![LineFormat::new(Highlight, "d".into()), LineFormat::new(Normal, "f".into())]
        ],
        r
    );
}

#[test]
fn test_format_tab() {
    let config = BufferConfig::config_tabs();
    let line = String::from("\t\t\t\tooo");
    let r = format_wrapped(&line, 10, "sd".into(), &config);
    println!("1:{:?}", r);

    let r = format_wrapped(&line, 2, "".into(), &config);
    println!("2:{:?}", r);
}

#[test]
fn test_format_control() {
    let config = BufferConfig::config_tabs();
    let mut line = String::from("");
    line.push(char::from_u32(13).unwrap());
    line.push(char::from_u32(13).unwrap());
    let r = format_wrapped(&line, 9, "".into(), &config);
    // this should split into 2 rows
    assert_eq!(r.len(), 2);
    println!("1:{:?}", r);
}

#[test]
fn test_format_chinese() {
    let config = BufferConfig::config_spaces(2);
    let line = String::from("\tmèng 梦/夢\t梦夢\t");
    let r = format_wrapped(&line, 2, "sd".into(), &config);
    for row in r.iter() {
        for format in row.iter() {
            println!("1:{:?}", format);
            assert!(UnicodeWidthStr::width(format.s.as_str()) <= 2)
        }
    }
}

#[test]
fn test_control_characters() {
    let config = BufferConfig::default();
    let mut line = String::from("");
    line.push(char::from(13));
    let e = string_to_elements(&line, &config);
    println!("2:{:?}", (line, e));
}

#[test]
fn wrapped_item_wider_than_row_gets_its_own_row() {
    let config = BufferConfig::config_for(None);
    let line = String::from("a地");
    let r = format_wrapped(&line, 1, "".into(), &config);
    assert_eq!(
        vec![vec![LineFormat::new(Normal, "a".into())], vec![LineFormat::new(Normal, "地".into())]],
        r
    );
}

#[test]
fn wrapped_tab_is_dim_arrow() {
    let config = BufferConfig::config_tabs();
    let line = String::from("\tx");
    let r = format_wrapped(&line, 10, "".into(), &config);
    assert_eq!(
        vec![vec![LineFormat::new(Dim, "   \u{2192}".into()), LineFormat::new(Normal, "x".into())]],
        r
    );
}

#[test]
fn format_line_covers_the_whole_width() {
    let config = BufferConfig::config_for(None);
    let line = String::from("ab地");
    let r = format_line(&line, "".into(), &config);
    assert_eq!(vec![LineFormat::new(Normal, "ab地".into())], r);
}

#[test]
fn format_range_skips_by_columns() {
    let config = BufferConfig::config_for(None);
    let line = String::from("地ab");
    let r = format_range(&line, 1, 3, "".into(), &config);
    assert_eq!(vec![LineFormat::new(Normal, "a".into())], r);
}
