//! The smallest addressable unit of the terminal: one character cell.

use vstd::prelude::*;
use crate::style::Style;

verus! {

/// The column that the second half of a two-column-wide symbol occupies is
/// filled with this placeholder symbol; the backend skips such cells when it
/// writes a row out.
pub const CONTINUATION: char = '\u{0}';

/// One character cell: a displayed symbol together with its style.
///
/// Two cells are equal exactly when both the symbol and the style are equal.
#[derive(Clone, Copy, PartialEq, Eq, Structural, Debug)]
pub struct Cell {
    pub symbol: char,
    pub style: Style,
}

impl Cell {
    /// The blank cell: a space in the reset style.
    pub open spec fn spec_blank() -> Cell {
        Cell { symbol: ' ', style: Style::spec_reset() }
    }

    /// The blank cell: a space in the reset style.
    pub fn blank() -> (c: Cell)
        ensures
            c == Cell::spec_blank(),
    {
        Cell { symbol: ' ', style: Style::reset() }
    }

    /// The placeholder that fills the second column of a wide symbol.
    pub open spec fn spec_continuation(style: Style) -> Cell {
        Cell { symbol: CONTINUATION, style }
    }

    /// The placeholder that fills the second column of a wide symbol.
    pub fn continuation(style: Style) -> (c: Cell)
        ensures
            c == Cell::spec_continuation(style),
    {
        Cell { symbol: CONTINUATION, style }
    }
}

} // verus!
