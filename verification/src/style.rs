//! The visual style a cell is shown with: colors and text attributes.

use vstd::prelude::*;

verus! {

/// A terminal color.
#[derive(Clone, Copy, PartialEq, Eq, Structural, Debug)]
pub enum Color {
    /// The terminal's own default color.
    Reset,
    Black,
    Red,
    Green,
    Yellow,
    Blue,
    Magenta,
    Cyan,
    White,
    /// A 24-bit color.
    Rgb(u8, u8, u8),
    /// An entry of the terminal's 256-color palette.
    Indexed(u8),
}

/// Text attributes, each an independent flag.
#[derive(Clone, Copy, PartialEq, Eq, Structural, Debug)]
pub struct Modifiers {
    pub bold: bool,
    pub italic: bool,
    pub underlined: bool,
    pub reversed: bool,
}

impl Modifiers {
    /// No attribute set.
    pub open spec fn spec_none() -> Modifiers {
        Modifiers { bold: false, italic: false, underlined: false, reversed: false }
    }

    /// No attribute set.
    pub fn none() -> (m: Modifiers)
        ensures
            m == Modifiers::spec_none(),
    {
        Modifiers { bold: false, italic: false, underlined: false, reversed: false }
    }
}

/// The full style of a cell: foreground, background and attributes.
#[derive(Clone, Copy, PartialEq, Eq, Structural, Debug)]
pub struct Style {
    pub fg: Color,
    pub bg: Color,
    pub modifiers: Modifiers,
}

impl Style {
    /// The terminal's default look: reset colors, no attributes.
    pub open spec fn spec_reset() -> Style {
        Style { fg: Color::Reset, bg: Color::Reset, modifiers: Modifiers::spec_none() }
    }

    /// The terminal's default look: reset colors, no attributes.
    pub fn reset() -> (s: Style)
        ensures
            s == Style::spec_reset(),
    {
        Style { fg: Color::Reset, bg: Color::Reset, modifiers: Modifiers::none() }
    }
}

impl Default for Style {
    /// The default style is the reset style.
    fn default() -> (s: Style)
        ensures
            s == Style::spec_reset(),
    {
        Style::reset()
    }
}

} // verus!
