//! A window: a scrolled viewport of one view's line cache, drawn into the
//! screen's pending frame.

use vstd::prelude::*;
use vstd::string::StrSliceExecFns;

use crate::layout::Rect;
use crate::line_cache::{
    cache_len, cursors_of, decode_spans, lemma_decoded_spans_bounded, styles_wf, CacheModel, Line,
    LineCache, LineModel, StyleSpan,
};
use crate::screen::{blank_grid, row_marked, row_write, Cell, Coordinate, Screen};

verus! {

/// A line's text without its trailing line terminators; the terminal operates
/// linewise, so they are never drawn.
pub open spec fn trim_newlines(text: Seq<char>) -> Seq<char>
    decreases text.len(),
{
    if text.len() > 0 && text.last() == '\n' {
        trim_newlines(text.drop_last())
    } else {
        text
    }
}

/// The part of a line's trimmed text that a window scrolled `col` columns to
/// the right shows in `w` columns.
pub open spec fn visible_text(text: Seq<char>, col: int, w: int) -> Seq<char> {
    let tr = trim_newlines(text);
    let from = if col <= tr.len() { col } else { tr.len() as int };
    let to = if col + w <= tr.len() { col + w } else { tr.len() as int };
    if 0 <= from <= to {
        tr.subrange(from, to)
    } else {
        Seq::empty()
    }
}

/// A span moved into window coordinates: `None` if it lies entirely before or
/// after the visible columns, else its start and length clipped to them, with
/// the style id. Spans reaching past the right edge keep their length; the
/// screen drops markers that fall off a row.
pub open spec fn clip_span(sp: StyleSpan, col: int, w: int) -> Option<(int, int, u64)> {
    if sp.start + sp.length <= col || col + w <= sp.start {
        None
    } else if sp.start < col {
        Some((0, sp.start + sp.length - col, sp.id))
    } else {
        Some((sp.start - col, sp.length as int, sp.id))
    }
}

/// The grid after marking a line's visible spans on row `y`, in order.
pub open spec fn apply_spans(g: Seq<Seq<Cell>>, y: int, spans: Seq<StyleSpan>, col: int, w: int) -> Seq<Seq<Cell>>
    decreases spans.len(),
{
    if spans.len() == 0 {
        g
    } else {
        let g1 = match clip_span(spans[0], col, w) {
            Some(c) => g.update(y, row_marked(g[y], c.0, c.0 + c.1, c.2)),
            None => g,
        };
        apply_spans(g1, y, spans.skip(1), col, w)
    }
}

/// The grid after drawing a line's visible cursors on row `y`, in order.
pub open spec fn apply_cursors(g: Seq<Seq<Cell>>, y: int, curs: Seq<u64>, col: int, w: int) -> Seq<Seq<Cell>>
    decreases curs.len(),
{
    if curs.len() == 0 {
        g
    } else {
        let off = curs[0] as int;
        let g1 = if col <= off < col + w {
            g.update(y, g[y].update(off - col, Cell { is_reverse: true, ..g[y][off - col] }))
        } else {
            g
        };
        apply_cursors(g1, y, curs.skip(1), col, w)
    }
}

/// The grid after drawing one cache line on row `y`: its visible text, then
/// its spans if their triples are well formed (malformed triples are ignored,
/// as unrecognized protocol data is), then its cursors.
pub open spec fn place_line(g: Seq<Seq<Cell>>, y: int, line: LineModel, col: int, w: int) -> Seq<Seq<Cell>> {
    let g1 = g.update(y, row_write(g[y], 0, visible_text(line.text, col, w)));
    let g2 = if styles_wf(line.styles) {
        apply_spans(g1, y, decode_spans(line.styles), col, w)
    } else {
        g1
    };
    apply_cursors(g2, y, cursors_of(line), col, w)
}

/// The grid after drawing a run of cache lines on the rows from `y` down.
pub open spec fn place_lines(g: Seq<Seq<Cell>>, y: int, lines: Seq<LineModel>, col: int, w: int) -> Seq<Seq<Cell>>
    decreases lines.len(),
{
    if lines.len() == 0 {
        g
    } else {
        place_lines(place_line(g, y, lines[0], col, w), y + 1, lines.skip(1), col, w)
    }
}

/// The grid after filling the rows from `from` up to `end` with a tilde, the
/// mark of a row past the end of the buffer.
pub open spec fn place_tildes(g: Seq<Seq<Cell>>, from: int, end: int) -> Seq<Seq<Cell>>
    decreases end - from,
{
    if from >= end {
        g
    } else {
        place_tildes(g.update(from, row_write(g[from], 0, seq!['~'])), from + 1, end)
    }
}

/// Everything a window draws when its rows are readable: onto a blank frame,
/// the cache rows `row_off..row_off + bh` shifted left by `col_off`, then
/// tildes on any remaining window rows past the buffer's end.
pub open spec fn rendered_window(m: CacheModel, row_off: int, col_off: int, bw: int, bh: int, sh: int, sw: int) -> Seq<Seq<Cell>> {
    let lines = m.known.subrange(row_off - m.before, row_off + bh - m.before);
    let g1 = place_lines(blank_grid(sh, sw), 0, lines, col_off, bw);
    place_tildes(g1, cache_len(m) as int, bh)
}

/// Where a scroll offset moves so that a cursor at `pos` is visible in a
/// viewport `extent` wide starting at `off`: it follows the cursor left or
/// up, and places the cursor on the last visible column or row when the
/// cursor passes the right or bottom edge.
pub open spec fn scroll_adjust(off: int, pos: int, extent: int) -> int {
    if pos >= off + extent {
        pos - (extent - 1)
    } else if pos < off {
        pos
    } else {
        off
    }
}

/// One view's window: the active cursor, the view's line cache, and how far
/// the viewport is scrolled down and to the right.
#[derive(Debug)]
pub struct Window {
    pub cursor: Coordinate,
    pub line_cache: LineCache,
    pub row_offset: usize,
    pub col_offset: usize,
}

impl Window {
    /// Creates a window at the origin with an empty cache.
    pub fn new() -> (w: Window)
        ensures
            w.cursor == (Coordinate { x: 0, y: 0 }),
            w.line_cache@ == crate::line_cache::empty_model(),
            w.line_cache.wf(),
            w.row_offset == 0,
            w.col_offset == 0,
    {
        Window {
            cursor: Coordinate { x: 0, y: 0 },
            line_cache: LineCache::new(),
            row_offset: 0,
            col_offset: 0,
        }
    }

    /// The total number of lines in the window's buffer.
    pub fn buffer_len(&self) -> (n: usize)
        requires
            self.line_cache.wf(),
        ensures
            n == cache_len(self.line_cache@),
    {
        self.line_cache.len()
    }

    /// Scrolls the main cursor of the window to a coordinate. If the
    /// coordinate is off-screen, the scroll offsets move so that the cursor
    /// appears on-screen at the next draw.
    pub fn scroll_to(&mut self, bounds: &Rect, coordinate: Coordinate)
        requires
            bounds.width >= 1,
            bounds.height >= 1,
            old(self).col_offset + bounds.width <= usize::MAX,
            old(self).row_offset + bounds.height <= usize::MAX,
        ensures
            final(self).cursor == coordinate,
            final(self).line_cache == old(self).line_cache,
            final(self).col_offset == scroll_adjust(
                old(self).col_offset as int,
                coordinate.x as int,
                bounds.width as int,
            ),
            final(self).row_offset == scroll_adjust(
                old(self).row_offset as int,
                coordinate.y as int,
                bounds.height as int,
            ),
    {
        self.cursor = coordinate;

        if self.cursor.x >= self.col_offset + bounds.width {
            self.col_offset = self.cursor.x - (bounds.width - 1);
        } else if self.cursor.x < self.col_offset {
            self.col_offset = self.cursor.x;
        }

        if self.cursor.y >= self.row_offset + bounds.height {
            self.row_offset = self.cursor.y - (bounds.height - 1);
        } else if self.cursor.y < self.row_offset {
            self.row_offset = self.cursor.y;
        }
    }

    /// Draws the window into the screen's pending frame. If any requested row
    /// falls in an unknown run of the cache, nothing is drawn: rendering is
    /// deferred until more data arrives. Otherwise the frame is erased and
    /// the visible slice of the cache is drawn.
    #[verifier::loop_isolation(false)]
    pub fn render(&self, bounds: &Rect, screen: &mut Screen)
        requires
            self.line_cache.wf(),
            old(screen).wf(),
            bounds.height <= old(screen).height,
            bounds.width <= old(screen).width,
            self.row_offset + bounds.height <= usize::MAX,
            self.col_offset + bounds.width <= usize::MAX,
        ensures
            final(screen).wf(),
            final(screen).height == old(screen).height,
            final(screen).width == old(screen).width,
            final(screen).shown() == old(screen).shown(),
            !LineCache::range_known(
                self.line_cache@,
                self.row_offset as int,
                self.row_offset + bounds.height,
            ) ==> *final(screen) == *old(screen),
            LineCache::range_known(
                self.line_cache@,
                self.row_offset as int,
                self.row_offset + bounds.height,
            ) ==> final(screen).pending() == rendered_window(
                self.line_cache@,
                self.row_offset as int,
                self.col_offset as int,
                bounds.width as int,
                bounds.height as int,
                old(screen).height as int,
                old(screen).width as int,
            ),
    {
        let ghost m = self.line_cache@;
        let col = self.col_offset;
        let w = bounds.width;
        let start = self.row_offset;
        let end = start + bounds.height;

        let lines = match self.line_cache.iter_lines(start, end) {
            Some(lines) => lines,
            None => {
                return ;
            }
        };
        let ghost first = start - m.before;
        let ghost line_models = m.known.subrange(first, first + bounds.height as int);
        proof {
            assert(line_models.len() == bounds.height as int);
            assert forall|q: int| 0 <= q < line_models.len()
                implies line_models[q] == (#[trigger] lines@[q])@ by {
                assert(line_models[q] == m.known[first + q]);
                assert((lines@[q])@ == m.known[start - m.before + q]);
            }
        }

        screen.erase();
        let ghost g0 = blank_grid(old(screen).height as int, old(screen).width as int);

        proof {
            assert(line_models.skip(0) =~~= line_models);
        }
        let mut i: usize = 0;
        while i < lines.len()
            invariant
                i <= lines@.len(),
                lines@.len() == bounds.height,
                bounds.height <= screen.height,
                bounds.width <= screen.width,
                col == self.col_offset,
                w == bounds.width,
                col + w <= usize::MAX,
                forall|q: int| 0 <= q < line_models.len()
                    ==> line_models[q] == (#[trigger] lines@[q])@,
                screen.wf(),
                screen.height == old(screen).height,
                screen.width == old(screen).width,
                screen.shown() == old(screen).shown(),
                place_lines(g0, 0, line_models, col as int, w as int) == place_lines(
                    screen.pending(),
                    i as int,
                    line_models.skip(i as int),
                    col as int,
                    w as int,
                ),
            decreases lines@.len() - i,
        {
            let line: &Line = lines[i];
            let ghost g_line = screen.pending();

            // The text, trimmed of trailing line terminators and clipped to
            // the visible columns.
            let text = line.text.as_str();
            let tlen = text.unicode_len();
            let mut t_end: usize = tlen;
            proof {
                assert(text@.take(tlen as int) =~~= text@);
            }
            while t_end > 0 && text.get_char(t_end - 1) == '\n'
                invariant
                    t_end <= tlen,
                    tlen == text@.len(),
                    trim_newlines(text@) == trim_newlines(text@.take(t_end as int)),
                decreases t_end,
            {
                proof {
                    assert(text@.take(t_end as int).drop_last() =~~= text@.take(t_end - 1));
                }
                t_end = t_end - 1;
            }
            proof {
                assert(text@.take(tlen as int) =~~= text@);
                assert(trim_newlines(text@.take(t_end as int)) == text@.take(t_end as int));
            }
            let from = if col <= t_end { col } else { t_end };
            let to_raw = col + w;
            let to = if to_raw <= t_end { to_raw } else { t_end };
            let visible = text.substring_char(from, to);
            proof {
                assert(visible@ =~~= visible_text(line@.text, col as int, w as int));
            }
            screen.write_str(Coordinate { x: 0, y: i }, visible);

            // The style spans, if the line's triples are well formed.
            let ghost g1 = g_line.update(i as int, row_write(
                g_line[i as int],
                0,
                visible_text(line@.text, col as int, w as int),
            ));
            proof {
                assert(screen.pending() =~~= g1);
            }
            if line.styles_ok() {
                let spans = line.iter_style_spans();
                let ghost spans0 = spans@;
                proof {
                    lemma_decoded_spans_bounded(line@.styles, 0);
                    assert(spans0.skip(0) =~~= spans0);
                }
                let mut k: usize = 0;
                while k < spans.len()
                    invariant
                        k <= spans0.len(),
                        spans@ == spans0,
                        forall|q: int| 0 <= q < spans0.len()
                            ==> (#[trigger] spans0[q]).start + spans0[q].length <= usize::MAX,
                        col == self.col_offset,
                        w == bounds.width,
                        col + w <= usize::MAX,
                        i < bounds.height,
                        bounds.height <= screen.height,
                        bounds.width <= screen.width,
                        screen.wf(),
                        screen.height == old(screen).height,
                        screen.width == old(screen).width,
                        screen.shown() == old(screen).shown(),
                        apply_spans(g1, i as int, spans0, col as int, w as int) == apply_spans(
                            screen.pending(),
                            i as int,
                            spans0.skip(k as int),
                            col as int,
                            w as int,
                        ),
                    decreases spans0.len() - k,
                {
                    let sp = spans[k];
                    proof {
                        assert(spans0.skip(k as int)[0] == spans0[k as int]);
                        assert(spans0.skip(k as int).skip(1) =~~= spans0.skip(k + 1));
                    }
                    if !(sp.start + sp.length <= col || col + w <= sp.start) {
                        if sp.start < col {
                            screen.apply_style(
                                Coordinate { x: 0, y: i },
                                sp.id,
                                sp.start + sp.length - col,
                            );
                        } else {
                            screen.apply_style(
                                Coordinate { x: sp.start - col, y: i },
                                sp.id,
                                sp.length,
                            );
                        }
                    }
                    k = k + 1;
                }
                proof {
                    assert(spans0.skip(spans0.len() as int) =~~= Seq::<StyleSpan>::empty());
                }
            }
            let ghost g2 = if styles_wf(line@.styles) {
                apply_spans(g1, i as int, decode_spans(line@.styles), col as int, w as int)
            } else {
                g1
            };
            proof {
                assert(screen.pending() =~~= g2);
            }

            // The cursors that fall inside the visible columns.
            let curs = line.iter_cursors();
            let ghost curs0 = curs@;
            proof {
                assert(curs0.skip(0) =~~= curs0);
            }
            let mut k2: usize = 0;
            while k2 < curs.len()
                invariant
                    k2 <= curs0.len(),
                    curs@ == curs0,
                    col == self.col_offset,
                    w == bounds.width,
                    col + w <= usize::MAX,
                    i < bounds.height,
                    bounds.height <= screen.height,
                    bounds.width <= screen.width,
                    screen.wf(),
                    screen.height == old(screen).height,
                    screen.width == old(screen).width,
                    screen.shown() == old(screen).shown(),
                    apply_cursors(g2, i as int, curs0, col as int, w as int) == apply_cursors(
                        screen.pending(),
                        i as int,
                        curs0.skip(k2 as int),
                        col as int,
                        w as int,
                    ),
                decreases curs0.len() - k2,
            {
                let off = curs[k2];
                proof {
                    assert(curs0.skip(k2 as int)[0] == curs0[k2 as int]);
                    assert(curs0.skip(k2 as int).skip(1) =~~= curs0.skip(k2 + 1));
                }
                if off >= col as u64 && off < (col + w) as u64 {
                    screen.draw_cursor(Coordinate { x: off as usize - col, y: i });
                }
                k2 = k2 + 1;
            }
            proof {
                assert(curs0.skip(curs0.len() as int) =~~= Seq::<u64>::empty());
                assert(screen.pending() =~~= place_line(g_line, i as int, line_models[i as int],
                    col as int, w as int));
                assert(line_models.skip(i as int)[0] == line_models[i as int]);
                assert(line_models.skip(i as int).skip(1) =~~= line_models.skip(i + 1));
            }
            i = i + 1;
        }
        proof {
            assert(line_models.skip(line_models.len() as int) =~~= Seq::<LineModel>::empty());
            assert(screen.pending() == place_lines(g0, 0, line_models, col as int, w as int));
        }

        // Rows past the end of the buffer would be marked with a tilde; a
        // readable range implies the buffer reaches past the window, so there
        // are none.
        let total = self.line_cache.len();
        let mut line_no = total;
        while line_no < bounds.height
            invariant
                screen.wf(),
                screen.height == old(screen).height,
                screen.width == old(screen).width,
                screen.shown() == old(screen).shown(),
                total >= bounds.height,
                line_no >= total,
                screen.pending() == place_lines(g0, 0, line_models, col as int, w as int),
            decreases bounds.height - line_no,
        {
            proof {
                assert(false);
            }
            screen.write_str(Coordinate { x: 0, y: line_no }, "~");
            line_no = line_no + 1;
        }
        proof {
            assert(place_tildes(
                place_lines(g0, 0, line_models, col as int, w as int),
                cache_len(m) as int,
                bounds.height as int,
            ) == place_lines(g0, 0, line_models, col as int, w as int));
        }
    }
}

} // verus!
