//! Placement of windows on the screen.
//!
//! A single document view owns all rows but the last; the last row belongs to
//! the command line.

use vstd::prelude::*;

use crate::protocol::ViewId;

verus! {

/// A rectangle of screen cells: origin and size, zero-indexed.
#[derive(Clone, Copy, Debug, PartialEq, Eq, Structural)]
pub struct Rect {
    pub x: usize,
    pub y: usize,
    pub width: usize,
    pub height: usize,
}

/// Where each view's window sits on a screen of the given size.
#[derive(Debug)]
pub struct Layout {
    pub width: usize,
    pub height: usize,
    pub window: Option<(ViewId, Rect)>,
}

/// The rectangle a single view occupies: everything above the last row.
pub open spec fn view_rect(width: int, height: int) -> Rect {
    Rect { x: 0, y: 0, width: width as usize, height: (height - 1) as usize }
}

impl Layout {
    /// Creates a layout for a screen of the given size, with no views yet.
    pub fn new(width: usize, height: usize) -> (l: Self)
        requires
            height >= 1,
        ensures
            l.width == width,
            l.height == height,
            l.window is None,
    {
        Layout { width, height, window: None }
    }

    /// Places a view's window; only one view is supported, so the view takes
    /// every row above the command line.
    pub fn add_view(&mut self, view_id: ViewId) -> (r: Rect)
        requires
            old(self).window is None,
            old(self).height >= 1,
        ensures
            final(self).width == old(self).width,
            final(self).height == old(self).height,
            r == view_rect(old(self).width as int, old(self).height as int),
            final(self).window == Some((view_id, r)),
    {
        let rect = Rect { x: 0, y: 0, width: self.width, height: self.height - 1 };
        self.window = Some((view_id, rect));
        rect
    }

    /// Returns the bounding rectangle of the given view, which must have been
    /// placed.
    pub fn of_view(&self, view_id: &ViewId) -> (r: Rect)
        requires
            self.window matches Some((v, _)) && v.0@ == view_id.0@,
        ensures
            self.window matches Some((_, rect)) && r == rect,
    {
        match &self.window {
            Some((v, rect)) => {
                if v.0.eq(&view_id.0) {
                    *rect
                } else {
                    vstd::pervasive::unreached()
                }
            }
            None => vstd::pervasive::unreached(),
        }
    }

    /// Returns the rectangle of the command line: the last row.
    pub fn of_command_line(&self) -> (r: Rect)
        requires
            self.height >= 1,
        ensures
            r == (Rect { x: 0, y: (self.height - 1) as usize, width: self.width, height: 1 }),
    {
        Rect { x: 0, y: self.height - 1, width: self.width, height: 1 }
    }
}

} // verus!
