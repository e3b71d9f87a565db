use editor::tui::display::{DrawCommand, RenderBlock, ViewPos};
use editor::tui::row::RowUpdate;
use editor::tui::viewchar::{LineFormat, LineFormatType};

#[test]
fn display() {
    // update status
    let view = ViewPos { w: 10, h: 2, x0: 0, y0: 0 };
    let mut block = RenderBlock::new(view);
    let s = format!("test: {}", 1);
    block.update_rows(vec![RowUpdate::from(LineFormat::new(LineFormatType::Highlight, s))]);

    let commands = block.generate_commands();
    println!("{:?}", commands);
}

#[test]
fn unchanged_rows_draw_nothing_again() {
    let view = ViewPos { w: 10, h: 2, x0: 0, y0: 0 };
    let mut block = RenderBlock::new(view);
    let row = || RowUpdate::from(LineFormat::new(LineFormatType::Normal, "abc".into()));
    block.update_rows(vec![row()]);
    let first = block.generate_commands();
    assert!(first.len() > 0);
    assert!(matches!(first[0], DrawCommand::SavePosition));
    assert!(matches!(first[first.len() - 1], DrawCommand::RestorePosition));
    block.update_rows(vec![row()]);
    let second = block.generate_commands();
    assert_eq!(second.len(), 0);
}
