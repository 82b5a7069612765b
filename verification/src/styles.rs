//! The registry of styles defined by the engine.

use vstd::prelude::*;
use vstd::pervasive::VecAdditionalExecFns;

use crate::color::Color;

verus! {

/// One text style: optional foreground and background colors and three
/// attribute flags.
#[derive(Clone, Copy, Debug)]
pub struct Style {
    pub fg: Option<Color>,
    pub bg: Option<Color>,
    pub bold: bool,
    pub underline: bool,
    pub italic: bool,
}

/// The style every table slot starts out as.
pub open spec fn default_style() -> Style {
    Style { fg: None, bg: None, bold: false, underline: false, italic: false }
}

impl Default for Style {
    fn default() -> (s: Style)
        ensures
            s == default_style(),
    {
        Style { fg: None, bg: None, bold: false, underline: false, italic: false }
    }
}

/// The styles defined by the engine, indexed by style id, together with the
/// default text colors of the current theme.
#[derive(Debug)]
pub struct Styles {
    /// Default foreground color for text.
    pub fg: Option<Color>,

    /// Default background color for text.
    pub bg: Option<Color>,

    pub styles: Vec<Style>,
}

impl Styles {
    /// Creates an empty registry with no theme colors.
    pub fn new() -> (s: Self)
        ensures
            s.fg is None,
            s.bg is None,
            s.styles@ =~= Seq::<Style>::empty(),
    {
        Styles { fg: None, bg: None, styles: Vec::new() }
    }

    /// Defines the style of an id. A table that does not reach the id yet
    /// grows with default-initialized entries up to and including it.
    pub fn define(&mut self, id: u64, style: Style)
        requires
            id < usize::MAX,
        ensures
            final(self).fg == old(self).fg,
            final(self).bg == old(self).bg,
            final(self).styles@.len() == if old(self).styles@.len() <= id {
                id + 1
            } else {
                old(self).styles@.len() as int
            },
            final(self).styles@[id as int] == style,
            forall|i: int| 0 <= i < final(self).styles@.len() && i != id
                ==> final(self).styles@[i] == (if i < old(self).styles@.len() {
                    old(self).styles@[i]
                } else {
                    default_style()
                }),
    {
        while self.styles.len() <= id as usize
            invariant
                id < usize::MAX,
                self.fg == old(self).fg,
                self.bg == old(self).bg,
                self.styles@.len() >= old(self).styles@.len(),
                forall|i: int| 0 <= i < old(self).styles@.len()
                    ==> #[trigger] self.styles@[i] == old(self).styles@[i],
                forall|i: int| old(self).styles@.len() <= i < self.styles@.len()
                    ==> #[trigger] self.styles@[i] == default_style(),
                old(self).styles@.len() <= id ==> self.styles@.len() <= id + 1,
                old(self).styles@.len() > id ==> self.styles@.len() == old(self).styles@.len(),
            decreases id + 1 - self.styles@.len(),
        {
            self.styles.push(Style::default());
        }
        self.styles.set(id as usize, style);
    }

    /// Returns the style defined for an id.
    pub fn index(&self, id: u64) -> (s: &Style)
        requires
            (id as int) < self.styles@.len(),
        ensures
            *s == self.styles@[id as int],
    {
        let n = self.styles.len();
        proof {
            assert(id < n);
        }
        &self.styles[id as usize]
    }
}

} // verus!
