use seventeen::command_line::CommandLine;
use seventeen::layout::{Layout, Rect};
use seventeen::protocol::ViewId;
use seventeen::styles::{Style, Styles};

#[test]
fn command_line_collects_typed_characters() {
    let mut line = CommandLine::new();
    line.insert('w');
    line.insert('q');
    assert_eq!(line.command(), "wq");
    line.delete();
    assert_eq!(line.command(), "w");
    line.delete();
    line.delete();
    assert_eq!(line.command(), "");
}

#[test]
fn layout_gives_the_view_all_rows_but_the_last() {
    let mut layout = Layout::new(80, 24);
    let view = ViewId(String::from("view-id-1"));
    let rect = layout.add_view(view);
    assert_eq!(rect, Rect { x: 0, y: 0, width: 80, height: 23 });
    assert_eq!(layout.of_view(&ViewId(String::from("view-id-1"))), rect);
    assert_eq!(
        layout.of_command_line(),
        Rect { x: 0, y: 23, width: 80, height: 1 }
    );
}

#[test]
fn styles_table_grows_with_defaults() {
    let mut styles = Styles::new();
    styles.define(
        3,
        Style {
            bold: true,
            ..Default::default()
        },
    );
    assert_eq!(styles.styles.len(), 4);
    assert!(!styles.index(0).bold);
    assert!(!styles.index(2).bold);
    assert!(styles.index(3).bold);
}
