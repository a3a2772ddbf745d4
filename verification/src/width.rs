//! Display width of characters, as a terminal shows them.

use vstd::prelude::*;

verus! {

/// The displayed width in columns that `unicode_width` assigns to a character:
/// `None` for a control character, otherwise the number of columns.
pub uninterp spec fn char_width_opt(c: char) -> Option<usize>;

/// Relies on `unicode_width::UnicodeWidthChar::width`: a pure table lookup, so
/// the result depends on the character alone; `None` marks a control character.
#[verifier::external_body]
fn char_width_raw(c: char) -> (r: Option<usize>)
    ensures
        r == char_width_opt(c),
{
    unicode_width::UnicodeWidthChar::width(c)
}

/// The number of columns a character occupies in a canvas: control characters
/// occupy none, and anything reported wider than two columns is clamped to
/// two, the widest a terminal cell pair can show.
pub open spec fn spec_char_width(c: char) -> nat {
    match char_width_opt(c) {
        Option::None => 0,
        Option::Some(w) => if w > 2 {
            2
        } else {
            w as nat
        },
    }
}

/// The number of columns a character occupies in a canvas.
pub fn char_width(c: char) -> (w: usize)
    ensures
        w == spec_char_width(c),
        w <= 2,
{
    match char_width_raw(c) {
        None => 0,
        Some(w) => if w > 2 {
            2
        } else {
            w
        },
    }
}

} // verus!
