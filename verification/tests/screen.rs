use termion::clear;
use termion::color::{Fg, Reset, Rgb};
use termion::cursor::Goto;
use termion::style::{Bold, Invert, Italic, NoFaint, NoInvert, NoItalic, NoUnderline, Underline};

use seventeen::screen::{Coordinate, Screen};
use seventeen::styles::{Style, Styles};
use seventeen::color::Color;

fn flush(screen: &mut Screen, styles: &Styles) -> String {
    assert!(screen.spans_defined_check(styles));
    screen.refresh(styles).iter().collect()
}

#[test]
fn screen_write_str() {
    let mut screen = Screen::new(5, 15);

    screen.write_str(Coordinate::new(0, 0), "Hello, world!");

    assert_eq!(
        screen.buf[0].iter().map(|cell| cell.c).collect::<String>(),
        "Hello, world!  "
    );
}

#[test]
fn simple_span() {
    let mut styles = Styles::new();
    styles.define(
        1,
        Style {
            bold: true,
            ..Default::default()
        },
    );

    let mut screen = Screen::new(1, 15);

    screen.write_str(Coordinate::new(0, 0), "Hello, world!");
    screen.apply_style(Coordinate::new(0, 0), 1, 5);
    let sequences = flush(&mut screen, &styles);

    assert_eq!(
        sequences,
        format!(
            "{}{}{}Hello{}, world!  ",
            Goto(1, 1),
            clear::CurrentLine,
            Bold,
            NoFaint,
        )
    );
}

#[test]
fn end_to_end_spans() {
    let mut styles = Styles::new();
    styles.define(
        1,
        Style {
            bold: true,
            ..Default::default()
        },
    );
    styles.define(
        2,
        Style {
            italic: true,
            ..Default::default()
        },
    );

    let mut screen = Screen::new(1, 15);

    screen.write_str(Coordinate::new(0, 0), "bolditalic");
    screen.apply_style(Coordinate::new(0, 0), 1, 4);
    screen.apply_style(Coordinate::new(4, 0), 2, 6);
    let sequences = flush(&mut screen, &styles);

    assert_eq!(
        sequences,
        format!(
            "{}{}{}bold{}{}italic{}     ",
            Goto(1, 1),
            clear::CurrentLine,
            Bold,
            Italic,
            NoFaint,
            NoItalic,
        )
    );
}

#[test]
fn disjoint_spans() {
    let mut styles = Styles::new();
    styles.define(
        2,
        Style {
            bold: true,
            ..Default::default()
        },
    );
    styles.define(
        3,
        Style {
            bold: false,
            ..Default::default()
        },
    );
    styles.define(
        4,
        Style {
            bold: true,
            ..Default::default()
        },
    );

    let mut screen = Screen::new(1, 15);

    screen.write_str(Coordinate::new(0, 0), "int main() {}");
    screen.apply_style(Coordinate::new(0, 0), 2, 3);
    screen.apply_style(Coordinate::new(3, 0), 3, 1);
    screen.apply_style(Coordinate::new(4, 0), 4, 4);
    let sequences = flush(&mut screen, &styles);

    assert_eq!(
        sequences,
        format!(
            "{}{}{}int{} {}main{}() {{}}  ",
            Goto(1, 1),
            clear::CurrentLine,
            Bold,
            NoFaint,
            Bold,
            NoFaint,
        ),
    );
}

#[test]
fn span_out_of_bounds() {
    let mut styles = Styles::new();
    styles.define(
        2,
        Style {
            bold: true,
            ..Default::default()
        },
    );
    styles.define(
        3,
        Style {
            italic: true,
            ..Default::default()
        },
    );
    styles.define(
        4,
        Style {
            underline: true,
            ..Default::default()
        },
    );

    let mut screen = Screen::new(3, 10);
    screen.write_str(Coordinate::new(0, 0), "foobarbaz");
    screen.write_str(Coordinate::new(0, 1), "quux quux");
    screen.write_str(Coordinate::new(0, 2), "xyzzyxyzzy");
    screen.apply_style(Coordinate::new(0, 0), 2, 20);
    screen.apply_style(Coordinate::new(5, 1), 3, 10);
    screen.apply_style(Coordinate::new(20, 2), 4, 5);
    let sequences = flush(&mut screen, &styles);

    assert_eq!(
        sequences,
        format!(
            "{}{}{}foobarbaz {}\
             {}{}quux {}quux {}\
             {}{}xyzzyxyzzy",
            Goto(1, 1),
            clear::CurrentLine,
            Bold,
            NoFaint,
            Goto(1, 2),
            clear::CurrentLine,
            Italic,
            NoItalic,
            Goto(1, 3),
            clear::CurrentLine,
        ),
    );
}

#[test]
fn color_change() {
    let mut styles = Styles::new();
    styles.define(
        2,
        Style {
            fg: Some(Color { r: 255, g: 0, b: 0 }),
            ..Default::default()
        },
    );
    styles.define(
        3,
        Style {
            fg: Some(Color { r: 0, g: 255, b: 0 }),
            ..Default::default()
        },
    );
    styles.define(
        4,
        Style {
            fg: Some(Color { r: 0, g: 0, b: 255 }),
            ..Default::default()
        },
    );

    let mut screen = Screen::new(1, 15);

    screen.write_str(Coordinate::new(0, 0), "redgreenblue");
    screen.apply_style(Coordinate::new(0, 0), 2, 3);
    screen.apply_style(Coordinate::new(3, 0), 3, 5);
    screen.apply_style(Coordinate::new(8, 0), 4, 4);
    let sequences = flush(&mut screen, &styles);

    assert_eq!(
        sequences,
        format!(
            "{}{}{}red{}green{}blue{}   ",
            Goto(1, 1),
            clear::CurrentLine,
            Fg(Rgb(255, 0, 0)),
            Fg(Rgb(0, 255, 0)),
            Fg(Rgb(0, 0, 255)),
            Fg(Reset),
        ),
    );
}

#[test]
fn styles() {
    let mut screen = Screen::new(1, 4);
    let mut styles = Styles::new();

    styles.define(
        2,
        Style {
            bold: true,
            italic: true,
            underline: true,
            ..Default::default()
        },
    );

    screen.write_str(Coordinate::new(0, 0), "foo");
    screen.apply_style(Coordinate::new(0, 0), 2, 3);
    screen.draw_cursor(Coordinate::new(1, 0));
    let sequences = flush(&mut screen, &styles);

    assert_eq!(
        sequences,
        format!(
            "{}{}{}{}{}f{}o{}o{}{}{} ",
            Goto(1, 1),
            clear::CurrentLine,
            Bold,
            Italic,
            Underline,
            Invert,
            NoInvert,
            NoFaint,
            NoItalic,
            NoUnderline,
        )
    );
}

#[test]
fn refresh() {
    let styles = Styles::new();
    let mut screen = Screen::new(1, 4);

    screen.write_str(Coordinate::new(0, 0), "foo");
    let mut sequences = flush(&mut screen, &styles);

    screen.write_str(Coordinate::new(0, 0), "foo");
    sequences.push_str(&flush(&mut screen, &styles));

    assert_eq!(
        sequences,
        format!("{}{}foo ", Goto(1, 1), clear::CurrentLine),
    );
}

#[test]
fn bold_runs_toggle_once() {
    let mut styles = Styles::new();
    styles.define(
        1,
        Style {
            bold: true,
            ..Default::default()
        },
    );
    styles.define(
        2,
        Style {
            bold: true,
            ..Default::default()
        },
    );

    let mut screen = Screen::new(1, 10);
    screen.write_str(Coordinate::new(0, 0), "abcdefgh");
    screen.apply_style(Coordinate::new(0, 0), 1, 3);
    screen.apply_style(Coordinate::new(4, 0), 2, 4);
    let sequences = flush(&mut screen, &styles);

    assert_eq!(
        sequences,
        format!(
            "{}{}{}abc{}d{}efgh{}  ",
            Goto(1, 1),
            clear::CurrentLine,
            Bold,
            NoFaint,
            Bold,
            NoFaint,
        ),
    );
}

#[test]
fn erase_line_resets_one_row() {
    let styles = Styles::new();
    let mut screen = Screen::new(2, 3);
    screen.write_str(Coordinate::new(0, 0), "abc");
    screen.write_str(Coordinate::new(0, 1), "def");
    let _ = flush(&mut screen, &styles);

    screen.erase_line(0);
    let sequences = flush(&mut screen, &styles);
    assert_eq!(sequences, format!("{}{}   ", Goto(1, 1), clear::CurrentLine));
}
