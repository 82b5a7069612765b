//! The one-line command buffer of command mode.

use vstd::prelude::*;
use vstd::string::StringExecFns;

use crate::layout::Rect;
use crate::screen::{row_write, Cell, Coordinate, Screen};

verus! {

/// Relies on String::push: it appends exactly the one character.
#[verifier::external_body]
fn push_char(s: &mut String, c: char)
    ensures
        final(s)@ == old(s)@.push(c),
{
    s.push(c);
}

/// Relies on String::pop: it removes and returns the last character, or
/// leaves an empty string empty.
#[verifier::external_body]
fn pop_char(s: &mut String) -> (r: Option<char>)
    ensures
        old(s)@.len() == 0 ==> final(s)@ == old(s)@ && r is None,
        old(s)@.len() > 0 ==> {
            &&& final(s)@ == old(s)@.take(old(s)@.len() - 1)
            &&& r == Some(old(s)@.last())
        },
{
    s.pop()
}

/// The text a command line draws: a colon, then the buffer.
pub open spec fn command_line_text(buf: Seq<char>) -> Seq<char> {
    seq![':'] + buf
}

/// The pending row a rendered command line produces: a blank row with the
/// colon-prefixed buffer at the origin and a simulated cursor after it.
pub open spec fn rendered_command_row(width: int, x: int, buf: Seq<char>) -> Seq<Cell> {
    let blank = crate::screen::blank_row(width);
    let written = row_write(blank, x, command_line_text(buf));
    let cx = x + 1 + buf.len();
    written.update(cx, Cell { is_reverse: true, ..written[cx] })
}

/// The buffer a command is typed into while command mode is active.
#[derive(Debug)]
pub struct CommandLine {
    pub buf: String,
}

impl CommandLine {
    /// Creates an empty command buffer.
    pub fn new() -> (c: Self)
        ensures
            c.buf@ == Seq::<char>::empty(),
    {
        CommandLine { buf: String::new() }
    }

    /// Appends one typed character.
    pub fn insert(&mut self, c: char)
        ensures
            final(self).buf@ == old(self).buf@.push(c),
    {
        push_char(&mut self.buf, c);
    }

    /// Removes the last typed character; an empty buffer stays empty.
    pub fn delete(&mut self)
        ensures
            old(self).buf@.len() == 0 ==> final(self).buf@ == old(self).buf@,
            old(self).buf@.len() > 0 ==> final(self).buf@ == old(self).buf@.take(
                old(self).buf@.len() - 1,
            ),
    {
        let _ = pop_char(&mut self.buf);
    }

    /// The command typed so far.
    pub fn command(&self) -> (r: &str)
        ensures
            r@ == self.buf@,
    {
        self.buf.as_str()
    }

    /// Draws the command line into the pending frame of its screen row: the
    /// row is erased, a colon and the buffer are written at the row's origin,
    /// and a simulated cursor is placed just past the text.
    pub fn render(&self, bounds: &Rect, screen: &mut Screen)
        requires
            old(screen).wf(),
            bounds.y < old(screen).height,
            bounds.x + self.buf@.len() + 2 <= old(screen).width,
        ensures
            final(screen).wf(),
            final(screen).height == old(screen).height,
            final(screen).width == old(screen).width,
            final(screen).shown() == old(screen).shown(),
            final(screen).pending() == old(screen).pending().update(
                bounds.y as int,
                rendered_command_row(old(screen).width as int, bounds.x as int, self.buf@),
            ),
    {
        let mut line = String::new();
        line.append(":");
        proof {
            reveal_strlit(":");
            assert(line@ =~~= seq![':']);
        }
        line.append(self.buf.as_str());
        proof {
            assert(line@ =~~= command_line_text(self.buf@));
        }
        screen.erase_line(bounds.y);
        screen.write_str(Coordinate { x: bounds.x, y: bounds.y }, line.as_str());
        let cursor_x = bounds.x + line.unicode_len();
        screen.draw_cursor(Coordinate { x: cursor_x, y: bounds.y });
        proof {
            assert(screen.pending() =~~= old(screen).pending().update(
                bounds.y as int,
                rendered_command_row(old(screen).width as int, bounds.x as int, self.buf@),
            ));
        }
    }
}

} // verus!
