//! The double-buffered terminal screen.
//!
//! Writes go to a pending cell grid. A flush (`refresh`) compares the pending
//! grid to the grid last shown, row by row: unchanged rows emit nothing, a
//! changed row emits one positioning sequence and then the row's cells, with
//! per-attribute nesting counters so that overlapping style spans enable and
//! disable each attribute exactly once per covered run.

use vstd::prelude::*;
use vstd::pervasive::VecAdditionalExecFns;
use vstd::string::StrSliceExecFns;

use crate::styles::{Style, Styles};
use crate::term;

verus! {

/// A position on the screen, zero-indexed: `x` is the column, `y` the row.
#[derive(Clone, Copy, Debug, PartialEq, Eq, Structural)]
pub struct Coordinate {
    pub x: usize,
    pub y: usize,
}

impl Coordinate {
    pub fn new(x: usize, y: usize) -> (c: Coordinate)
        ensures
            c == (Coordinate { x, y }),
    {
        Coordinate { x, y }
    }
}

/// A single position in the terminal display: the character shown, a reverse-
/// video flag, and the markers of a style span starting or ending here.
#[derive(Clone, Copy, Debug)]
pub struct Cell {
    pub c: char,
    pub is_reverse: bool,
    pub span_start: Option<u64>,
    pub span_end: Option<u64>,
}

/// The blank cell rows are reset to.
pub open spec fn default_cell() -> Cell {
    Cell { c: ' ', is_reverse: false, span_start: None, span_end: None }
}

impl Default for Cell {
    fn default() -> (c: Cell)
        ensures
            c == default_cell(),
    {
        Cell { c: ' ', is_reverse: false, span_start: None, span_end: None }
    }
}

/// A grid as a sequence of cell rows.
pub open spec fn grid_of(g: Seq<Vec<Cell>>) -> Seq<Seq<Cell>> {
    g.map_values(|r: Vec<Cell>| r@)
}

/// A rectangular grid of `h` rows of `w` cells.
pub open spec fn grid_wf(g: Seq<Seq<Cell>>, h: int, w: int) -> bool {
    &&& g.len() == h
    &&& forall|i: int| 0 <= i < h ==> (#[trigger] g[i]).len() == w
}

/// A blank row of `w` cells.
pub open spec fn blank_row(w: int) -> Seq<Cell> {
    Seq::new(w as nat, |j: int| default_cell())
}

/// A blank grid of `h` rows of `w` cells.
pub open spec fn blank_grid(h: int, w: int) -> Seq<Seq<Cell>> {
    Seq::new(h as nat, |i: int| blank_row(w))
}

/// A cell showing a character with default attributes.
pub open spec fn text_cell(ch: char) -> Cell {
    Cell { c: ch, is_reverse: false, span_start: None, span_end: None }
}

/// A row after writing `text` starting at column `x`: the covered cells carry
/// the characters with default attributes, the rest is unchanged.
pub open spec fn row_write(row: Seq<Cell>, x: int, text: Seq<char>) -> Seq<Cell> {
    Seq::new(row.len(), |j: int| if x <= j && j < x + text.len() {
        text_cell(text[j - x])
    } else {
        row[j]
    })
}

/// A row after marking a span of style `id` over columns `start..end`: the
/// boundary cells get the start and end markers, cells off the row are left
/// unmarked.
pub open spec fn row_marked(row: Seq<Cell>, start: int, end: int, id: u64) -> Seq<Cell> {
    let r1 = if 0 <= start < row.len() {
        row.update(start, Cell { span_start: Some(id), ..row[start] })
    } else {
        row
    };
    if 0 <= end < r1.len() {
        r1.update(end, Cell { span_end: Some(id), ..r1[end] })
    } else {
        r1
    }
}

/// Writing no text leaves a row unchanged.
proof fn lemma_row_write_empty(row: Seq<Cell>, x: int, text: Seq<char>)
    ensures
        row_write(row, x, text.take(0)) == row,
{
    assert(row_write(row, x, text.take(0)) =~= row);
}

/// Writing one more character updates one more cell.
proof fn lemma_row_write_step(row: Seq<Cell>, x: int, text: Seq<char>, i: int)
    requires
        0 <= x,
        0 <= i < text.len(),
        x + text.len() <= row.len(),
    ensures
        row_write(row, x, text.take(i + 1)) == row_write(row, x, text.take(i)).update(
            x + i,
            text_cell(text[i]),
        ),
{
    let lhs = row_write(row, x, text.take(i + 1));
    let rhs = row_write(row, x, text.take(i)).update(x + i, text_cell(text[i]));
    assert(lhs.len() == row.len());
    assert(rhs.len() == row.len());
    assert forall|q: int| 0 <= q < row.len() implies lhs[q] == rhs[q] by {
        if q == x + i {
            assert(text.take(i + 1)[q - x] == text[i]);
        } else if x <= q < x + i {
            assert(text.take(i + 1)[q - x] == text[q - x]);
            assert(text.take(i)[q - x] == text[q - x]);
        }
    }
    assert(lhs =~= rhs);
}

/// Writing all of the text is writing the text.
proof fn lemma_row_write_all(row: Seq<Cell>, x: int, text: Seq<char>)
    ensures
        row_write(row, x, text.take(text.len() as int)) == row_write(row, x, text),
{
    assert(text.take(text.len() as int) =~= text);
}

/// A cell whose span markers only name styles below `n`.
pub open spec fn cell_ids_ok(cell: Cell, n: int) -> bool {
    &&& (cell.span_start matches Some(id) ==> id < n)
    &&& (cell.span_end matches Some(id) ==> id < n)
}

/// A row whose span markers only name styles below `n`.
pub open spec fn row_ids_ok(row: Seq<Cell>, n: int) -> bool {
    forall|x: int| 0 <= x < row.len() ==> cell_ids_ok(#[trigger] row[x], n)
}

/// A grid whose span markers only name styles below `n`.
pub open spec fn span_ids_defined(g: Seq<Seq<Cell>>, n: int) -> bool {
    forall|y: int| 0 <= y < g.len() ==> row_ids_ok(#[trigger] g[y], n)
}

/// The foreground sequence a span starting at this cell emits, if any.
pub open spec fn cell_start_fg(cell: Cell, styles: Seq<Style>) -> Seq<char> {
    match cell.span_start {
        Some(id) => match styles[id as int].fg {
            Some(c) => term::fg_rgb_seq(c),
            None => Seq::empty(),
        },
        None => Seq::empty(),
    }
}

/// Whether a span with a foreground color starts at this cell.
pub open spec fn cell_start_has_fg(cell: Cell, styles: Seq<Style>) -> bool {
    match cell.span_start {
        Some(id) => styles[id as int].fg is Some,
        None => false,
    }
}

/// Whether a span with a foreground color ends at this cell.
pub open spec fn cell_end_has_fg(cell: Cell, styles: Seq<Style>) -> bool {
    match cell.span_end {
        Some(id) => styles[id as int].fg is Some,
        None => false,
    }
}

/// Whether a bold span starts at this cell.
pub open spec fn cell_starts_bold(cell: Cell, styles: Seq<Style>) -> bool {
    match cell.span_start {
        Some(id) => styles[id as int].bold,
        None => false,
    }
}

/// Whether a bold span ends at this cell.
pub open spec fn cell_ends_bold(cell: Cell, styles: Seq<Style>) -> bool {
    match cell.span_end {
        Some(id) => styles[id as int].bold,
        None => false,
    }
}

/// Whether an italic span starts at this cell.
pub open spec fn cell_starts_italic(cell: Cell, styles: Seq<Style>) -> bool {
    match cell.span_start {
        Some(id) => styles[id as int].italic,
        None => false,
    }
}

/// Whether an italic span ends at this cell.
pub open spec fn cell_ends_italic(cell: Cell, styles: Seq<Style>) -> bool {
    match cell.span_end {
        Some(id) => styles[id as int].italic,
        None => false,
    }
}

/// Whether an underline span starts at this cell.
pub open spec fn cell_starts_underline(cell: Cell, styles: Seq<Style>) -> bool {
    match cell.span_start {
        Some(id) => styles[id as int].underline,
        None => false,
    }
}

/// Whether an underline span ends at this cell.
pub open spec fn cell_ends_underline(cell: Cell, styles: Seq<Style>) -> bool {
    match cell.span_end {
        Some(id) => styles[id as int].underline,
        None => false,
    }
}

/// The bold nesting counter after the spans starting at this cell.
pub open spec fn bold_after_start(cell: Cell, styles: Seq<Style>, b: nat) -> nat {
    if cell_starts_bold(cell, styles) { b + 1 } else { b }
}

/// The bold nesting counter after this whole cell.
pub open spec fn bold_after(cell: Cell, styles: Seq<Style>, b: nat) -> nat {
    let b1 = bold_after_start(cell, styles, b);
    if cell_ends_bold(cell, styles) && b1 > 0 { (b1 - 1) as nat } else { b1 }
}

/// The italic nesting counter after the spans starting at this cell.
pub open spec fn italic_after_start(cell: Cell, styles: Seq<Style>, b: nat) -> nat {
    if cell_starts_italic(cell, styles) { b + 1 } else { b }
}

/// The italic nesting counter after this whole cell.
pub open spec fn italic_after(cell: Cell, styles: Seq<Style>, b: nat) -> nat {
    let b1 = italic_after_start(cell, styles, b);
    if cell_ends_italic(cell, styles) && b1 > 0 { (b1 - 1) as nat } else { b1 }
}

/// The underline nesting counter after the spans starting at this cell.
pub open spec fn underline_after_start(cell: Cell, styles: Seq<Style>, b: nat) -> nat {
    if cell_starts_underline(cell, styles) { b + 1 } else { b }
}

/// The underline nesting counter after this whole cell.
pub open spec fn underline_after(cell: Cell, styles: Seq<Style>, b: nat) -> nat {
    let b1 = underline_after_start(cell, styles, b);
    if cell_ends_underline(cell, styles) && b1 > 0 { (b1 - 1) as nat } else { b1 }
}

/// The cell's own character, under reverse video if the cell asks for it.
pub open spec fn cell_char_out(cell: Cell) -> Seq<char> {
    if cell.is_reverse {
        term::invert_seq() + seq![cell.c] + term::no_invert_seq()
    } else {
        seq![cell.c]
    }
}

/// What the spans starting at a cell emit, given the attribute nesting
/// counters in force: the span's foreground color, and each attribute's
/// enable sequence only on the counter's 0-to-1 transition.
pub open spec fn cell_out_start(cell: Cell, styles: Seq<Style>, b: nat, it: nat, ul: nat) -> Seq<char> {
    cell_start_fg(cell, styles)
        + (if cell_starts_bold(cell, styles) && b == 0 { term::bold_seq() } else { Seq::empty() })
        + (if cell_starts_italic(cell, styles) && it == 0 { term::italic_seq() } else { Seq::empty() })
        + (if cell_starts_underline(cell, styles) && ul == 0 { term::underline_seq() } else { Seq::empty() })
}

/// What the spans ending at a cell emit, given the counters after the cell's
/// starting spans: a foreground reset unless a colored span also starts here,
/// and each attribute's disable sequence only on the counter's 1-to-0
/// transition.
pub open spec fn cell_out_end(cell: Cell, styles: Seq<Style>, b1: nat, it1: nat, ul1: nat) -> Seq<char> {
    (if cell_end_has_fg(cell, styles) && !cell_start_has_fg(cell, styles) {
        term::fg_reset_seq()
    } else {
        Seq::empty()
    })
        + (if cell_ends_bold(cell, styles) && b1 == 1 { term::no_faint_seq() } else { Seq::empty() })
        + (if cell_ends_italic(cell, styles) && it1 == 1 { term::no_italic_seq() } else { Seq::empty() })
        + (if cell_ends_underline(cell, styles) && ul1 == 1 {
            term::no_underline_seq()
        } else {
            Seq::empty()
        })
}

/// Everything one cell emits, given the attribute nesting counters in force
/// when it is reached: the sequences of spans starting here, the sequences of
/// spans ending here, then the character.
pub open spec fn cell_out_text(cell: Cell, styles: Seq<Style>, b: nat, it: nat, ul: nat) -> Seq<char> {
    cell_out_start(cell, styles, b, it, ul) + cell_out_end(
        cell,
        styles,
        bold_after_start(cell, styles, b),
        italic_after_start(cell, styles, it),
        underline_after_start(cell, styles, ul),
    ) + cell_char_out(cell)
}

/// The attribute nesting counters after the first `k` cells of a row.
pub open spec fn row_counters(row: Seq<Cell>, styles: Seq<Style>, k: int) -> (nat, nat, nat)
    decreases k,
{
    if k <= 0 {
        (0nat, 0nat, 0nat)
    } else {
        let prev = row_counters(row, styles, k - 1);
        (
            bold_after(row[k - 1], styles, prev.0),
            italic_after(row[k - 1], styles, prev.1),
            underline_after(row[k - 1], styles, prev.2),
        )
    }
}

/// What the first `k` cells of a row emit.
pub open spec fn row_text_out(row: Seq<Cell>, styles: Seq<Style>, k: int) -> Seq<char>
    decreases k,
{
    if k <= 0 {
        Seq::empty()
    } else {
        let prev = row_counters(row, styles, k - 1);
        row_text_out(row, styles, k - 1) + cell_out_text(row[k - 1], styles, prev.0, prev.1, prev.2)
    }
}

/// What one changed row emits: position, clear the line, the cells, then an
/// explicit close of every attribute a span left open past the row's end.
pub open spec fn row_out(row: Seq<Cell>, styles: Seq<Style>, y: int) -> Seq<char> {
    let cnt = row_counters(row, styles, row.len() as int);
    term::goto_seq(1, y + 1) + term::clear_line_seq() + row_text_out(row, styles, row.len() as int)
        + (if cnt.0 > 0 { term::no_faint_seq() } else { Seq::empty() })
        + (if cnt.1 > 0 { term::no_italic_seq() } else { Seq::empty() })
        + (if cnt.2 > 0 { term::no_underline_seq() } else { Seq::empty() })
}

/// What the first `k` rows of a flush emit: rows equal to what is shown are
/// skipped whole.
pub open spec fn rows_out(pending: Seq<Seq<Cell>>, shown: Seq<Seq<Cell>>, styles: Seq<Style>, k: int) -> Seq<char>
    decreases k,
{
    if k <= 0 {
        Seq::empty()
    } else {
        rows_out(pending, shown, styles, k - 1) + (if pending[k - 1] == shown[k - 1] {
            Seq::empty()
        } else {
            row_out(pending[k - 1], styles, k - 1)
        })
    }
}

/// The theme's default text colors, set before any row is drawn.
pub open spec fn style_prologue(styles: Styles) -> Seq<char> {
    (match styles.fg {
        Some(c) => term::fg_rgb_seq(c),
        None => Seq::empty(),
    }) + (match styles.bg {
        Some(c) => term::bg_rgb_seq(c),
        None => Seq::empty(),
    })
}

/// Everything one flush emits.
pub open spec fn refresh_output(pending: Seq<Seq<Cell>>, shown: Seq<Seq<Cell>>, styles: Styles) -> Seq<char> {
    style_prologue(styles) + rows_out(pending, shown, styles.styles@, pending.len() as int)
}

/// The counters after `k` cells never exceed `k`.
proof fn lemma_counters_bound(row: Seq<Cell>, styles: Seq<Style>, k: int)
    requires
        k >= 0,
    ensures
        row_counters(row, styles, k).0 <= k,
        row_counters(row, styles, k).1 <= k,
        row_counters(row, styles, k).2 <= k,
    decreases k,
{
    if k > 0 {
        lemma_counters_bound(row, styles, k - 1);
    }
}

/// Updating one row of a grid updates one row of its view.
proof fn lemma_grid_update(g: Seq<Vec<Cell>>, y: int, row: Vec<Cell>)
    requires
        0 <= y < g.len(),
    ensures
        grid_of(g.update(y, row)) == grid_of(g).update(y, row@),
{
    assert(grid_of(g.update(y, row)) =~~= grid_of(g).update(y, row@));
}

/// A grid view's row is the row vector's view.
proof fn lemma_grid_index(g: Seq<Vec<Cell>>, i: int)
    requires
        0 <= i < g.len(),
    ensures
        grid_of(g)[i] == g[i]@,
{
}

/// Diffing a frame against itself emits nothing for any row.
proof fn lemma_rows_out_unchanged(g: Seq<Seq<Cell>>, styles: Seq<Style>, k: int)
    ensures
        rows_out(g, g, styles, k) == Seq::<char>::empty(),
    decreases k,
{
    if k > 0 {
        lemma_rows_out_unchanged(g, styles, k - 1);
        assert(rows_out(g, g, styles, k) =~~= Seq::<char>::empty());
    }
}

/// Renderer idempotence: flushing a frame that equals what is shown emits
/// only the theme-color prologue, and nothing at all when no theme colors are
/// set. Since a flush makes the shown grid equal the pending grid, flushing
/// the same content twice emits positioning and content bytes at most once.
pub proof fn lemma_flush_unchanged(g: Seq<Seq<Cell>>, styles: Styles)
    ensures
        refresh_output(g, g, styles) == style_prologue(styles),
        styles.fg is None && styles.bg is None ==> refresh_output(g, g, styles)
            == Seq::<char>::empty(),
{
    lemma_rows_out_unchanged(g, styles.styles@, g.len() as int);
    assert(refresh_output(g, g, styles) =~~= style_prologue(styles));
    if styles.fg is None && styles.bg is None {
        assert(refresh_output(g, g, styles) =~~= Seq::<char>::empty());
    }
}

/// An ncurses-like abstraction over the terminal screen: writes build up a
/// pending frame, and a flush emits the escape sequences that turn the shown
/// frame into the pending one.
#[derive(Debug)]
pub struct Screen {
    pub height: usize,
    pub width: usize,

    /// What should be displayed after the next refresh.
    pub buf: Vec<Vec<Cell>>,

    /// What is displayed now.
    pub cur_buf: Vec<Vec<Cell>>,
}

/// A blank row of `w` default cells.
fn make_blank_row(w: usize) -> (r: Vec<Cell>)
    ensures
        r@ == blank_row(w as int),
{
    let mut r: Vec<Cell> = Vec::new();
    let mut j: usize = 0;
    while j < w
        invariant
            j <= w,
            r@.len() == j,
            forall|q: int| 0 <= q < j as int ==> r@[q] == default_cell(),
        decreases w - j,
    {
        r.push(Cell::default());
        j = j + 1;
    }
    proof {
        assert(r@ =~~= blank_row(w as int));
    }
    r
}

/// An owned copy of a cell row.
fn copy_row(src: &Vec<Cell>) -> (r: Vec<Cell>)
    ensures
        r@ == src@,
{
    let mut r: Vec<Cell> = Vec::new();
    let mut j: usize = 0;
    while j < src.len()
        invariant
            j <= src@.len(),
            r@.len() == j,
            forall|q: int| 0 <= q < j as int ==> r@[q] == src@[q],
        decreases src@.len() - j,
    {
        r.push(src[j]);
        j = j + 1;
    }
    proof {
        assert(r@ =~~= src@);
    }
    r
}

/// Whether two rows hold the same cells.
fn rows_equal(a: &Vec<Cell>, b: &Vec<Cell>) -> (r: bool)
    requires
        a@.len() == b@.len(),
    ensures
        r == (a@ == b@),
{
    let mut j: usize = 0;
    let mut eq = true;
    while j < a.len()
        invariant
            j <= a@.len(),
            a@.len() == b@.len(),
            eq == (forall|q: int| 0 <= q < j as int ==> a@[q] == b@[q]),
        decreases a@.len() - j,
    {
        let ca = a[j];
        let cb = b[j];
        let cell_eq = ca.c == cb.c && ca.is_reverse == cb.is_reverse
            && match (ca.span_start, cb.span_start) {
                (Some(p), Some(q)) => p == q,
                (None, None) => true,
                _ => false,
            }
            && match (ca.span_end, cb.span_end) {
                (Some(p), Some(q)) => p == q,
                (None, None) => true,
                _ => false,
            };
        proof {
            assert(cell_eq == (a@[j as int] == b@[j as int]));
        }
        eq = eq && cell_eq;
        j = j + 1;
    }
    proof {
        if eq {
            assert(a@ =~~= b@);
        }
    }
    eq
}

/// Emits what the spans starting at a cell ask for, raising the counters.
#[verifier::rlimit(100)]
fn emit_cell_start(cell: Cell, styles: &Styles, bold: &mut usize, italic: &mut usize, underline: &mut usize) -> (t: Vec<char>)
    requires
        cell_ids_ok(cell, styles.styles@.len() as int),
        *old(bold) < usize::MAX,
        *old(italic) < usize::MAX,
        *old(underline) < usize::MAX,
    ensures
        t@ == cell_out_start(cell, styles.styles@, *old(bold) as nat, *old(italic) as nat,
            *old(underline) as nat),
        *final(bold) as nat == bold_after_start(cell, styles.styles@, *old(bold) as nat),
        *final(italic) as nat == italic_after_start(cell, styles.styles@, *old(italic) as nat),
        *final(underline) as nat == underline_after_start(cell, styles.styles@,
            *old(underline) as nat),
{
    let mut t: Vec<char> = Vec::new();
    match cell.span_start {
        Some(id) => {
            let style = *styles.index(id);
            match style.fg {
                Some(c) => {
                    let mut part = term::fg_rgb(c);
                    t.append(&mut part);
                }
                None => {}
            }
            if style.bold {
                if *bold == 0 {
                    let mut part = term::bold();
                    t.append(&mut part);
                }
                *bold = *bold + 1;
            }
            if style.italic {
                if *italic == 0 {
                    let mut part = term::italic();
                    t.append(&mut part);
                }
                *italic = *italic + 1;
            }
            if style.underline {
                if *underline == 0 {
                    let mut part = term::underline();
                    t.append(&mut part);
                }
                *underline = *underline + 1;
            }
        }
        None => {}
    }
    proof {
        assert(t@ =~~= cell_out_start(cell, styles.styles@, *old(bold) as nat,
            *old(italic) as nat, *old(underline) as nat));
    }
    t
}

/// Emits what the spans ending at a cell ask for, lowering the counters. The
/// counters handed in are those after the cell's starting spans.
#[verifier::rlimit(100)]
fn emit_cell_end(cell: Cell, styles: &Styles, bold: &mut usize, italic: &mut usize, underline: &mut usize) -> (t: Vec<char>)
    requires
        cell_ids_ok(cell, styles.styles@.len() as int),
    ensures
        t@ == cell_out_end(cell, styles.styles@, *old(bold) as nat, *old(italic) as nat,
            *old(underline) as nat),
        *final(bold) as nat == (if cell_ends_bold(cell, styles.styles@) && *old(bold) > 0 {
            *old(bold) - 1
        } else {
            *old(bold) as int
        }),
        *final(italic) as nat == (if cell_ends_italic(cell, styles.styles@) && *old(italic) > 0 {
            *old(italic) - 1
        } else {
            *old(italic) as int
        }),
        *final(underline) as nat == (if cell_ends_underline(cell, styles.styles@)
            && *old(underline) > 0 {
            *old(underline) - 1
        } else {
            *old(underline) as int
        }),
{
    let mut t: Vec<char> = Vec::new();
    let start_has_fg = match cell.span_start {
        Some(id) => styles.index(id).fg.is_some(),
        None => false,
    };
    match cell.span_end {
        Some(id) => {
            let style = *styles.index(id);
            if style.fg.is_some() && !start_has_fg {
                let mut part = term::fg_reset();
                t.append(&mut part);
            }
            if style.bold && *bold > 0 {
                *bold = *bold - 1;
                if *bold == 0 {
                    let mut part = term::no_faint();
                    t.append(&mut part);
                }
            }
            if style.italic && *italic > 0 {
                *italic = *italic - 1;
                if *italic == 0 {
                    let mut part = term::no_italic();
                    t.append(&mut part);
                }
            }
            if style.underline && *underline > 0 {
                *underline = *underline - 1;
                if *underline == 0 {
                    let mut part = term::no_underline();
                    t.append(&mut part);
                }
            }
        }
        None => {}
    }
    proof {
        assert(t@ =~~= cell_out_end(cell, styles.styles@, *old(bold) as nat, *old(italic) as nat,
            *old(underline) as nat));
    }
    t
}

/// What one cell makes the flush emit, advancing the attribute counters.
#[verifier::rlimit(100)]
fn emit_cell(cell: Cell, styles: &Styles, bold: &mut usize, italic: &mut usize, underline: &mut usize) -> (t: Vec<char>)
    requires
        cell_ids_ok(cell, styles.styles@.len() as int),
        *old(bold) < usize::MAX,
        *old(italic) < usize::MAX,
        *old(underline) < usize::MAX,
    ensures
        t@ == cell_out_text(cell, styles.styles@, *old(bold) as nat, *old(italic) as nat,
            *old(underline) as nat),
        *final(bold) as nat == bold_after(cell, styles.styles@, *old(bold) as nat),
        *final(italic) as nat == italic_after(cell, styles.styles@, *old(italic) as nat),
        *final(underline) as nat == underline_after(cell, styles.styles@, *old(underline) as nat),
{
    let mut t = emit_cell_start(cell, styles, bold, italic, underline);
    let mut t2 = emit_cell_end(cell, styles, bold, italic, underline);
    t.append(&mut t2);
    if cell.is_reverse {
        let mut part = term::invert();
        t.append(&mut part);
        t.push(cell.c);
        let mut part = term::no_invert();
        t.append(&mut part);
    } else {
        t.push(cell.c);
    }
    proof {
        assert(t@ =~~= cell_out_text(cell, styles.styles@, *old(bold) as nat, *old(italic) as nat,
            *old(underline) as nat));
    }
    t
}

impl Screen {
    /// The pending frame.
    pub open spec fn pending(self) -> Seq<Seq<Cell>> {
        grid_of(self.buf@)
    }

    /// The frame currently shown.
    pub open spec fn shown(self) -> Seq<Seq<Cell>> {
        grid_of(self.cur_buf@)
    }

    /// Both frames are `height` rows of `width` cells, and every row fits the
    /// one-based 16-bit coordinate space of positioning sequences.
    pub open spec fn wf(self) -> bool {
        &&& grid_wf(self.pending(), self.height as int, self.width as int)
        &&& grid_wf(self.shown(), self.height as int, self.width as int)
        &&& self.height <= 65535
    }

    /// Creates a screen of blank cells; pending and shown frames start equal,
    /// matching a terminal that was just cleared.
    pub fn new(height: usize, width: usize) -> (s: Screen)
        requires
            height <= 65535,
        ensures
            s.wf(),
            s.height == height,
            s.width == width,
            s.pending() == blank_grid(height as int, width as int),
            s.shown() == blank_grid(height as int, width as int),
    {
        let mut buf: Vec<Vec<Cell>> = Vec::new();
        let mut i: usize = 0;
        while i < height
            invariant
                i <= height,
                buf@.len() == i,
                forall|q: int| 0 <= q < i as int ==> (#[trigger] buf@[q])@ == blank_row(width as int),
            decreases height - i,
        {
            buf.push(make_blank_row(width));
            i = i + 1;
        }
        let mut cur_buf: Vec<Vec<Cell>> = Vec::new();
        let mut i2: usize = 0;
        while i2 < height
            invariant
                i2 <= height,
                cur_buf@.len() == i2,
                forall|q: int| 0 <= q < i2 as int ==> (#[trigger] cur_buf@[q])@ == blank_row(width as int),
            decreases height - i2,
        {
            cur_buf.push(make_blank_row(width));
            i2 = i2 + 1;
        }
        let s = Screen { height, width, buf, cur_buf };
        proof {
            assert(s.pending() =~~= blank_grid(height as int, width as int));
            assert(s.shown() =~~= blank_grid(height as int, width as int));
        }
        s
    }

    /// Writes a string into the pending frame, starting at a coordinate. The
    /// written cells lose any span markers and reverse-video flags.
    #[verifier::rlimit(60)]
    pub fn write_str(&mut self, coordinate: Coordinate, s: &str)
        requires
            old(self).wf(),
            coordinate.y < old(self).height,
            coordinate.x + s@.len() <= old(self).width,
        ensures
            final(self).wf(),
            final(self).height == old(self).height,
            final(self).width == old(self).width,
            final(self).shown() == old(self).shown(),
            final(self).pending() == old(self).pending().update(
                coordinate.y as int,
                row_write(old(self).pending()[coordinate.y as int], coordinate.x as int, s@),
            ),
    {
        let ghost buf0 = self.buf@;
        let y = coordinate.y;
        let x = coordinate.x;
        let mut row = self.buf.remove(y);
        let ghost row0 = row@;
        proof {
            lemma_grid_index(buf0, y as int);
            assert(row0 == old(self).pending()[y as int]);
            assert(row0.len() == old(self).width);
        }
        let n = s.unicode_len();
        proof {
            lemma_row_write_empty(row0, x as int, s@);
        }
        let mut i: usize = 0;
        while i < n
            invariant
                i <= n,
                n == s@.len(),
                x + n <= usize::MAX,
                x + n <= row0.len(),
                row@ == row_write(row0, x as int, s@.take(i as int)),
            decreases n - i,
        {
            let c = s.get_char(i);
            proof {
                lemma_row_write_step(row0, x as int, s@, i as int);
            }
            row.set(x + i, Cell { c, is_reverse: false, span_start: None, span_end: None });
            proof {
                assert(row@ == row_write(row0, x as int, s@.take(i + 1)));
            }
            i = i + 1;
        }
        proof {
            lemma_row_write_all(row0, x as int, s@);
        }
        self.buf.insert(y, row);
        proof {
            assert(self.buf@ =~~= buf0.update(y as int, self.buf@[y as int]));
            lemma_grid_update(buf0, y as int, self.buf@[y as int]);
            assert(self.pending() =~~= old(self).pending().update(
                y as int,
                row_write(old(self).pending()[y as int], x as int, s@),
            ));
        }
    }

    /// Marks a style span in the pending frame: the span's style starts at
    /// the coordinate and ends `n` cells later. A boundary that falls outside
    /// the row leaves no marker.
    pub fn apply_style(&mut self, coordinate: Coordinate, id: u64, n: usize)
        requires
            old(self).wf(),
            coordinate.y < old(self).height,
            coordinate.x + n <= usize::MAX,
        ensures
            final(self).wf(),
            final(self).height == old(self).height,
            final(self).width == old(self).width,
            final(self).shown() == old(self).shown(),
            final(self).pending() == old(self).pending().update(
                coordinate.y as int,
                row_marked(
                    old(self).pending()[coordinate.y as int],
                    coordinate.x as int,
                    coordinate.x + n,
                    id,
                ),
            ),
    {
        let ghost buf0 = self.buf@;
        let y = coordinate.y;
        let x = coordinate.x;
        let mut row = self.buf.remove(y);
        let ghost row0 = row@;
        proof {
            lemma_grid_index(buf0, y as int);
            assert(row0 == old(self).pending()[y as int]);
        }
        if x < row.len() {
            let cell = row[x];
            row.set(x, Cell { span_start: Some(id), ..cell });
        }
        if x + n < row.len() {
            let cell = row[x + n];
            row.set(x + n, Cell { span_end: Some(id), ..cell });
        }
        proof {
            assert(row@ =~~= row_marked(row0, x as int, x + n, id));
        }
        self.buf.insert(y, row);
        proof {
            assert(self.buf@ =~~= buf0.update(y as int, self.buf@[y as int]));
            lemma_grid_update(buf0, y as int, self.buf@[y as int]);
            assert(self.pending() =~~= old(self).pending().update(
                y as int,
                row_marked(old(self).pending()[y as int], x as int, x + n, id),
            ));
        }
    }

    /// Sets the reverse-video flag of one pending cell, simulating a cursor
    /// there. Several cells may carry the flag at once.
    pub fn draw_cursor(&mut self, coordinate: Coordinate)
        requires
            old(self).wf(),
            coordinate.y < old(self).height,
            coordinate.x < old(self).width,
        ensures
            final(self).wf(),
            final(self).height == old(self).height,
            final(self).width == old(self).width,
            final(self).shown() == old(self).shown(),
            final(self).pending() == old(self).pending().update(
                coordinate.y as int,
                old(self).pending()[coordinate.y as int].update(
                    coordinate.x as int,
                    Cell {
                        is_reverse: true,
                        ..old(self).pending()[coordinate.y as int][coordinate.x as int]
                    },
                ),
            ),
    {
        let ghost buf0 = self.buf@;
        let y = coordinate.y;
        let x = coordinate.x;
        let mut row = self.buf.remove(y);
        proof {
            lemma_grid_index(buf0, y as int);
            assert(row@ == old(self).pending()[y as int]);
        }
        let cell = row[x];
        row.set(x, Cell { is_reverse: true, ..cell });
        self.buf.insert(y, row);
        proof {
            assert(self.buf@ =~~= buf0.update(y as int, self.buf@[y as int]));
            lemma_grid_update(buf0, y as int, self.buf@[y as int]);
            assert(self.pending() =~~= old(self).pending().update(
                y as int,
                old(self).pending()[y as int].update(
                    x as int,
                    Cell { is_reverse: true, ..old(self).pending()[y as int][x as int] },
                ),
            ));
        }
    }

    /// Erases every pending cell back to the blank default.
    pub fn erase(&mut self)
        requires
            old(self).wf(),
        ensures
            final(self).wf(),
            final(self).height == old(self).height,
            final(self).width == old(self).width,
            final(self).shown() == old(self).shown(),
            final(self).pending() == blank_grid(old(self).height as int, old(self).width as int),
    {
        let mut y: usize = 0;
        while y < self.height
            invariant
                y <= self.height,
                self.height == old(self).height,
                self.width == old(self).width,
                self.cur_buf@ == old(self).cur_buf@,
                self.buf@.len() == self.height,
                forall|q: int| 0 <= q < y as int
                    ==> (#[trigger] self.buf@[q])@ == blank_row(self.width as int),
                forall|q: int| y as int <= q < self.height as int
                    ==> (#[trigger] self.buf@[q])@ == old(self).pending()[q],
            decreases self.height - y,
        {
            let row = make_blank_row(self.width);
            self.buf.set(y, row);
            y = y + 1;
        }
        proof {
            assert(self.pending() =~~= blank_grid(old(self).height as int, old(self).width as int));
            assert(self.shown() =~~= old(self).shown());
        }
    }

    /// Erases one pending row back to the blank default.
    pub fn erase_line(&mut self, line: usize)
        requires
            old(self).wf(),
            line < old(self).height,
        ensures
            final(self).wf(),
            final(self).height == old(self).height,
            final(self).width == old(self).width,
            final(self).shown() == old(self).shown(),
            final(self).pending() == old(self).pending().update(
                line as int,
                blank_row(old(self).width as int),
            ),
    {
        let ghost buf0 = self.buf@;
        let row = make_blank_row(self.width);
        self.buf.set(line, row);
        proof {
            lemma_grid_update(buf0, line as int, self.buf@[line as int]);
            assert(self.pending() =~~= old(self).pending().update(
                line as int,
                blank_row(old(self).width as int),
            ));
        }
    }

    /// Whether every span marker in the pending frame names a defined style,
    /// so that the frame can be flushed.
    pub fn spans_defined_check(&self, styles: &Styles) -> (b: bool)
        requires
            self.wf(),
        ensures
            b == span_ids_defined(self.pending(), styles.styles@.len() as int),
    {
        let n = styles.styles.len();
        let mut ok = true;
        let mut y: usize = 0;
        while y < self.height
            invariant
                y <= self.height,
                self.wf(),
                ok == (forall|q: int| 0 <= q < y as int
                    ==> row_ids_ok(#[trigger] self.pending()[q], n as int)),
            decreases self.height - y,
        {
            let row = &self.buf[y];
            let mut row_ok = true;
            let mut x: usize = 0;
            while x < row.len()
                invariant
                    x <= row@.len(),
                    row_ok == (forall|q: int| 0 <= q < x as int
                        ==> cell_ids_ok(#[trigger] row@[q], n as int)),
                decreases row@.len() - x,
            {
                let cell = row[x];
                let cell_ok = match cell.span_start {
                    Some(id) => id < n as u64,
                    None => true,
                } && match cell.span_end {
                    Some(id) => id < n as u64,
                    None => true,
                };
                proof {
                    assert(cell_ok == cell_ids_ok(row@[x as int], n as int));
                }
                row_ok = row_ok && cell_ok;
                x = x + 1;
            }
            proof {
                assert(row_ok == row_ids_ok(self.pending()[y as int], n as int));
            }
            ok = ok && row_ok;
            y = y + 1;
        }
        ok
    }

    /// Flushes the pending frame: emits the escape sequences that turn the
    /// shown frame into the pending one, skipping unchanged rows whole, and
    /// makes the pending frame the shown one.
    #[verifier::rlimit(60)]
    pub fn refresh(&mut self, styles: &Styles) -> (out: Vec<char>)
        requires
            old(self).wf(),
            span_ids_defined(old(self).pending(), styles.styles@.len() as int),
        ensures
            final(self).wf(),
            final(self).height == old(self).height,
            final(self).width == old(self).width,
            final(self).pending() == old(self).pending(),
            final(self).shown() == old(self).pending(),
            out@ == refresh_output(old(self).pending(), old(self).shown(), *styles),
    {
        let ghost p0 = self.pending();
        let ghost s0 = self.shown();
        let ghost st = styles.styles@;

        let mut out: Vec<char> = Vec::new();
        match styles.fg {
            Some(c) => {
                let mut t = term::fg_rgb(c);
                out.append(&mut t);
            }
            None => {}
        }
        match styles.bg {
            Some(c) => {
                let mut t = term::bg_rgb(c);
                out.append(&mut t);
            }
            None => {}
        }
        proof {
            assert(out@ =~~= style_prologue(*styles));
        }

        let mut y: usize = 0;
        while y < self.height
            invariant
                y <= self.height,
                self == old(self),
                self.wf(),
                p0 == self.pending(),
                s0 == self.shown(),
                st == styles.styles@,
                span_ids_defined(p0, st.len() as int),
                out@ == style_prologue(*styles) + rows_out(p0, s0, st, y as int),
            decreases self.height - y,
        {
            proof {
                lemma_grid_index(self.buf@, y as int);
                lemma_grid_index(self.cur_buf@, y as int);
            }
            let changed = !rows_equal(&self.buf[y], &self.cur_buf[y]);
            if changed {
                let ghost out_row_base = out@;
                let ghost row = p0[y as int];
                let mut t = term::goto(1, (y + 1) as u16);
                out.append(&mut t);
                let mut t = term::clear_line();
                out.append(&mut t);

                let mut bold_count: usize = 0;
                let mut italic_count: usize = 0;
                let mut underline_count: usize = 0;
                let mut x: usize = 0;
                while x < self.width
                    invariant
                        x <= self.width,
                        self == old(self),
                        self.wf(),
                        p0 == self.pending(),
                        st == styles.styles@,
                        span_ids_defined(p0, st.len() as int),
                        y < self.height,
                        row == p0[y as int],
                        row.len() == self.width,
                        out@ == out_row_base + term::goto_seq(1, y + 1) + term::clear_line_seq()
                            + row_text_out(row, st, x as int),
                        bold_count as nat == row_counters(row, st, x as int).0,
                        italic_count as nat == row_counters(row, st, x as int).1,
                        underline_count as nat == row_counters(row, st, x as int).2,
                        bold_count <= x,
                        italic_count <= x,
                        underline_count <= x,
                    decreases self.width - x,
                {
                    let cell = self.buf[y][x];
                    proof {
                        lemma_grid_index(self.buf@, y as int);
                        assert(cell == row[x as int]);
                        assert(row_ids_ok(row, st.len() as int));
                        assert(cell_ids_ok(cell, st.len() as int));
                    }
                    let mut t = emit_cell(cell, styles, &mut bold_count, &mut italic_count,
                        &mut underline_count);
                    out.append(&mut t);
                    proof {
                        assert(out@ =~~= out_row_base + term::goto_seq(1, y + 1)
                            + term::clear_line_seq() + row_text_out(row, st, x + 1));
                    }
                    x = x + 1;
                }

                if bold_count > 0 {
                    let mut t = term::no_faint();
                    out.append(&mut t);
                }
                if italic_count > 0 {
                    let mut t = term::no_italic();
                    out.append(&mut t);
                }
                if underline_count > 0 {
                    let mut t = term::no_underline();
                    out.append(&mut t);
                }
                proof {
                    assert(out@ =~~= out_row_base + row_out(row, st, y as int));
                    assert(p0[y as int] != s0[y as int]);
                    assert(out@ =~~= style_prologue(*styles) + rows_out(p0, s0, st, y + 1));
                }
            } else {
                proof {
                    assert(p0[y as int] == s0[y as int]);
                    assert(out@ =~~= style_prologue(*styles) + rows_out(p0, s0, st, y + 1));
                }
            }
            y = y + 1;
        }

        let mut y2: usize = 0;
        while y2 < self.height
            invariant
                y2 <= self.height,
                self.height == old(self).height,
                self.width == old(self).width,
                self.buf@ == old(self).buf@,
                self.buf@.len() == self.height,
                self.cur_buf@.len() == self.height,
                forall|q: int| 0 <= q < y2 as int
                    ==> (#[trigger] self.cur_buf@[q])@ == self.pending()[q],
                forall|q: int| y2 as int <= q < self.height as int
                    ==> (#[trigger] self.cur_buf@[q])@ == s0[q],
            decreases self.height - y2,
        {
            proof {
                lemma_grid_index(self.buf@, y2 as int);
            }
            let row = copy_row(&self.buf[y2]);
            self.cur_buf.set(y2, row);
            y2 = y2 + 1;
        }
        proof {
            assert(self.shown() =~~= old(self).pending());
            assert(self.pending() =~~= old(self).pending());
        }
        out
    }
}

} // verus!
