use seventeen::layout::Rect;
use seventeen::line_cache::Line as CacheLine;
use seventeen::styles::Style;
use termion::clear;
use termion::cursor::Goto;
use termion::style::{Bold, Invert, NoFaint, NoInvert};

use seventeen::line_cache::LineCache;
use seventeen::screen::{Coordinate, Screen};
use seventeen::styles::Styles;
use seventeen::window::Window;

#[test]
fn cache_smaller_than_window() {
    let bounds = Rect { x: 0, y: 0, width: 5, height: 5 };
    let mut window = Window::new();
    window.line_cache = LineCache::new_from_lines(&["foo", "bar"]);

    let mut screen = Screen::new(bounds.height, bounds.width);

    window.render(&bounds, &mut screen);

    // The requested rows are not all known, so nothing was drawn.
    let styles = Styles::new();
    assert!(screen.refresh(&styles).is_empty());
}

#[test]
fn window_smaller_than_cache() {
    let bounds = Rect { x: 0, y: 0, width: 5, height: 1 };
    let mut window = Window::new();
    window.line_cache = LineCache::new_from_lines(&["hello, world!", "goodbye, world!"]);

    let mut screen = Screen::new(bounds.height, bounds.width);

    window.render(&bounds, &mut screen);

    assert_eq!(
        screen.buf[0].iter().map(|cell| cell.c).collect::<String>(),
        "hello"
    );
}

#[test]
fn scroll_to() {
    let bounds = Rect { x: 0, y: 0, width: 10, height: 5 };

    let mut window = Window::new();
    window.line_cache =
        LineCache::new_from_lines(&["0", "1", "2", "3", "4", "5", "6", "7", "8", "9"]);

    window.scroll_to(&bounds, Coordinate { x: 0, y: 3 });
    assert_eq!(window.row_offset, 0);

    window.scroll_to(&bounds, Coordinate { x: 0, y: 5 });
    assert_eq!(window.row_offset, 1);

    window.scroll_to(&bounds, Coordinate { x: 0, y: 7 });
    assert_eq!(window.row_offset, 3);

    window.scroll_to(&bounds, Coordinate { x: 0, y: 3 });
    assert_eq!(window.row_offset, 3);

    window.scroll_to(&bounds, Coordinate { x: 0, y: 0 });
    assert_eq!(window.row_offset, 0);
}

#[test]
fn render_trims_line_terminators() {
    let bounds = Rect { x: 0, y: 0, width: 8, height: 1 };
    let mut window = Window::new();
    window.line_cache = LineCache::new_from_lines(&["hi\n"]);

    let mut screen = Screen::new(bounds.height, bounds.width);
    window.render(&bounds, &mut screen);

    assert_eq!(
        screen.buf[0].iter().map(|cell| cell.c).collect::<String>(),
        "hi      "
    );
}

#[test]
fn render_draws_visible_cursors_and_spans() {
    let bounds = Rect { x: 0, y: 0, width: 6, height: 1 };
    let mut window = Window::new();
    window.line_cache = LineCache::new_from_lines(&["abcdef"]);
    window.line_cache.lines[0] = CacheLine {
        text: String::from("abcdef"),
        cursors: Some(vec![1]),
        styles: vec![0, 3, 1],
    };

    let mut screen = Screen::new(bounds.height, bounds.width);
    window.render(&bounds, &mut screen);

    let mut styles = Styles::new();
    styles.define(
        1,
        Style {
            bold: true,
            ..Default::default()
        },
    );
    assert!(screen.spans_defined_check(&styles));
    let sequences: String = screen.refresh(&styles).iter().collect();
    assert_eq!(
        sequences,
        format!(
            "{}{}{}a{}b{}c{}def",
            Goto(1, 1),
            clear::CurrentLine,
            Bold,
            Invert,
            NoInvert,
            NoFaint,
        ),
    );
}

#[test]
fn render_clips_to_the_column_offset() {
    let bounds = Rect { x: 0, y: 0, width: 4, height: 1 };
    let mut window = Window::new();
    window.line_cache = LineCache::new_from_lines(&["abcdefgh"]);
    window.col_offset = 2;

    let mut screen = Screen::new(bounds.height, bounds.width);
    window.render(&bounds, &mut screen);

    assert_eq!(
        screen.buf[0].iter().map(|cell| cell.c).collect::<String>(),
        "cdef"
    );
}
