//! The cell grid: a rectangular canvas of character cells, the unit that
//! frames draw into and that the reconciler compares.

use vstd::prelude::*;
use vstd::pervasive::VecAdditionalExecFns;
use vstd::std_specs::iter::IteratorSpec;
use crate::cell::Cell;
use crate::geometry::{Rect, index_in, lemma_index_in};
use crate::style::Style;
use crate::width::{char_width, spec_char_width};

verus! {

/// The error a read of a coordinate outside the canvas reports.
#[derive(Clone, Copy, PartialEq, Eq, Structural, Debug)]
pub struct InvalidCoordinate;

/// A rectangular grid of cells stored as one flat row-major vector.
///
/// A canvas is well formed ([`Canvas::wf`]) when the vector holds exactly one
/// cell per coordinate of the area and every coordinate of the area fits the
/// `u16` addressing of the cell operations.
#[verifier::ext_equal]
#[derive(Debug)]
pub struct Canvas {
    pub area: Rect,
    pub content: Vec<Cell>,
}

impl Canvas {
    /// Well-formedness: one cell per coordinate, and the area lies within the
    /// `u16`-addressable plane.
    pub open spec fn wf(self) -> bool {
        &&& self.content@.len() == self.area.spec_area()
        &&& self.area.spec_right() <= 0x10000
        &&& self.area.spec_bottom() <= 0x10000
    }

    /// The cell stored for the in-area coordinate `(x, y)`.
    pub open spec fn spec_cell(self, x: int, y: int) -> Cell {
        self.content@[index_in(self.area, x, y)]
    }

    /// Whether every cell of the canvas is the blank cell.
    pub open spec fn is_blank(self) -> bool {
        forall|i: int| 0 <= i < self.content@.len() ==> self.content@[i] == Cell::spec_blank()
    }

    /// A canvas with every cell set to `cell`.
    pub fn filled(area: Rect, cell: Cell) -> (c: Canvas)
        requires
            area.spec_right() <= 0x10000,
            area.spec_bottom() <= 0x10000,
        ensures
            c.wf(),
            c.area == area,
            forall|i: int| 0 <= i < c.content@.len() ==> c.content@[i] == cell,
    {
        let n = area.area();
        let mut content: Vec<Cell> = Vec::new();
        while content.len() < n
            invariant
                content@.len() <= n,
                n == area.spec_area(),
                forall|i: int| 0 <= i < content@.len() ==> content@[i] == cell,
            decreases n - content@.len(),
        {
            content.push(cell);
        }
        Canvas { area, content }
    }

    /// A canvas of blank cells.
    pub fn empty(area: Rect) -> (c: Canvas)
        requires
            area.spec_right() <= 0x10000,
            area.spec_bottom() <= 0x10000,
        ensures
            c.wf(),
            c.area == area,
            c.is_blank(),
    {
        Canvas::filled(area, Cell::blank())
    }

    /// Whether two canvases show the same thing: same area, same cells.
    pub open spec fn spec_eq(self, other: Canvas) -> bool {
        self.area == other.area && self.content@ == other.content@
    }

    /// An exact copy of the canvas.
    pub fn duplicate(&self) -> (c: Canvas)
        ensures
            c.spec_eq(*self),
    {
        let mut content: Vec<Cell> = Vec::new();
        let mut k: usize = 0;
        while k < self.content.len()
            invariant
                0 <= k <= self.content@.len(),
                content@ == self.content@.take(k as int),
            decreases self.content@.len() - k,
        {
            content.push(self.content[k]);
            proof {
                assert(content@ =~= self.content@.take(k + 1));
            }
            k += 1;
        }
        let c = Canvas { area: self.area, content };
        proof {
            assert(c.content@ =~= self.content@);
        }
        c
    }

    /// The flat index of the in-area coordinate `(x, y)`.
    pub fn index_of(&self, x: u16, y: u16) -> (i: usize)
        requires
            self.wf(),
            self.area.spec_contains(x as int, y as int),
        ensures
            i == index_in(self.area, x as int, y as int),
            i < self.content@.len(),
    {
        proof {
            lemma_index_in(self.area, x as int, y as int);
            assert((y - self.area.y) * (self.area.width as int) + (x - self.area.x)
                < 0x1_0000_0000) by (nonlinear_arith)
                requires
                    0 <= y - self.area.y < 0x10000,
                    0 <= x - self.area.x < self.area.width,
                    self.area.width <= 0xffff,
            ;
        }
        ((y - self.area.y) as usize) * (self.area.width as usize) + ((x - self.area.x) as usize)
    }

    /// Reads the cell at `(x, y)`; a coordinate outside the area is the one
    /// input-validation failure the canvas surfaces.
    pub fn cell_at(&self, x: u16, y: u16) -> (r: Result<Cell, InvalidCoordinate>)
        requires
            self.wf(),
        ensures
            r == if self.area.spec_contains(x as int, y as int) {
                Result::<Cell, InvalidCoordinate>::Ok(self.spec_cell(x as int, y as int))
            } else {
                Result::<Cell, InvalidCoordinate>::Err(InvalidCoordinate)
            },
    {
        if self.area.contains(x, y) {
            let i = self.index_of(x, y);
            Ok(self.content[i])
        } else {
            Err(InvalidCoordinate)
        }
    }

    /// Writes `cell` at `(x, y)`; a write outside the area is silently
    /// ignored, so drawing code may clip against the canvas without checks.
    pub fn set_cell(&mut self, x: u16, y: u16, cell: Cell)
        requires
            old(self).wf(),
        ensures
            final(self).wf(),
            final(self).area == old(self).area,
            final(self).content@ == write_cell_seq(
                old(self).content@,
                old(self).area,
                x as int,
                y as int,
                cell,
            ),
    {
        if self.area.contains(x, y) {
            let i = self.index_of(x, y);
            self.content.set(i, cell);
        }
    }

    /// Reallocates the canvas to `new_area`; all prior content is discarded
    /// and every cell of the new area is blank.
    pub fn resize(&mut self, new_area: Rect)
        requires
            new_area.spec_right() <= 0x10000,
            new_area.spec_bottom() <= 0x10000,
        ensures
            final(self).wf(),
            final(self).area == new_area,
            final(self).is_blank(),
    {
        *self = Canvas::empty(new_area);
    }
}

/// The content of a canvas of `area` after the characters `chars` are written
/// left to right in `style`, starting at column `x` of row `y` and truncating
/// before the first character whose columns would reach past `right`.
///
/// A character of width zero (a control character) is skipped; one of width
/// two fills its cell and marks the next column with the continuation
/// placeholder. Each cell write clips against the area, so a run that starts
/// or ends outside it changes nothing there.
pub open spec fn write_text_seq(
    s: Seq<Cell>,
    area: Rect,
    x: int,
    y: int,
    right: int,
    chars: Seq<char>,
    style: Style,
) -> Seq<Cell>
    decreases chars.len(),
{
    if chars.len() == 0 {
        s
    } else {
        let w = spec_char_width(chars[0]);
        if w == 0 {
            write_text_seq(s, area, x, y, right, chars.drop_first(), style)
        } else if x + w > right {
            s
        } else if w == 1 {
            let s1 = write_cell_seq(s, area, x, y, Cell { symbol: chars[0], style });
            write_text_seq(s1, area, x + 1, y, right, chars.drop_first(), style)
        } else {
            let s1 = write_cell_seq(s, area, x, y, Cell { symbol: chars[0], style });
            let s2 = write_cell_seq(s1, area, x + 1, y, Cell::spec_continuation(style));
            write_text_seq(s2, area, x + 2, y, right, chars.drop_first(), style)
        }
    }
}

impl Canvas {
    /// Writes the characters at `(x, y)`, truncating before the first whose
    /// columns would reach past `right`.
    fn set_text_to(&mut self, x: u16, y: u16, chars: &Vec<char>, right: u32, style: Style)
        requires
            old(self).wf(),
            right <= 0x10000,
        ensures
            final(self).wf(),
            final(self).area == old(self).area,
            final(self).content@ == write_text_seq(
                old(self).content@,
                old(self).area,
                x as int,
                y as int,
                right as int,
                chars@,
                style,
            ),
    {
        let ghost target = write_text_seq(
            old(self).content@,
            old(self).area,
            x as int,
            y as int,
            right as int,
            chars@,
            style,
        );
        let mut cx: u32 = x as u32;
        let mut k: usize = 0;
        let mut stopped = false;
        proof {
            assert(chars@.skip(0) =~= chars@);
        }
        while k < chars.len() && !stopped
            invariant
                self.wf(),
                self.area == old(self).area,
                0 <= k <= chars@.len(),
                x <= cx <= 0x10000,
                right <= 0x10000,
                if stopped {
                    target == self.content@
                } else {
                    target == write_text_seq(
                        self.content@,
                        self.area,
                        cx as int,
                        y as int,
                        right as int,
                        chars@.skip(k as int),
                        style,
                    )
                },
            decreases chars@.len() - k, (if stopped { 0int } else { 1 }),
        {
            let ghost rest = chars@.skip(k as int);
            proof {
                assert(rest.len() > 0);
                assert(rest[0] == chars@[k as int]);
                assert(rest.drop_first() =~= chars@.skip(k as int + 1));
            }
            let ch = chars[k];
            let w = char_width(ch);
            if w == 0 {
                k += 1;
            } else if cx + (w as u32) > right {
                stopped = true;
            } else {
                self.set_cell(cx as u16, y, Cell { symbol: ch, style });
                if w == 2 {
                    self.set_cell((cx + 1) as u16, y, Cell::continuation(style));
                }
                cx += w as u32;
                k += 1;
            }
        }
        proof {
            if !stopped {
                assert(chars@.skip(k as int) =~= Seq::<char>::empty());
            }
        }
    }

    /// Writes `text` as a run of styled cells starting at `(x, y)`,
    /// truncating at the right edge of the canvas.
    pub fn set_text(&mut self, x: u16, y: u16, text: &str, style: Style)
        requires
            old(self).wf(),
        ensures
            final(self).wf(),
            final(self).area == old(self).area,
            final(self).content@ == write_text_seq(
                old(self).content@,
                old(self).area,
                x as int,
                y as int,
                old(self).area.spec_right(),
                text@,
                style,
            ),
    {
        let chars = chars_of(text);
        let right: u32 = (self.area.x as u32) + (self.area.width as u32);
        self.set_text_to(x, y, &chars, right, style);
    }

    /// Writes `text` starting at `(x, y)`, truncating both at the right edge
    /// of the canvas and after at most `max_width` columns; drawables use the
    /// width bound to confine a run to their target area.
    pub fn set_text_n(&mut self, x: u16, y: u16, text: &str, max_width: u16, style: Style)
        requires
            old(self).wf(),
        ensures
            final(self).wf(),
            final(self).area == old(self).area,
            final(self).content@ == write_text_seq(
                old(self).content@,
                old(self).area,
                x as int,
                y as int,
                spec_min(old(self).area.spec_right(), x + max_width),
                text@,
                style,
            ),
    {
        let chars = chars_of(text);
        let canvas_right: u32 = (self.area.x as u32) + (self.area.width as u32);
        let run_right: u32 = (x as u32) + (max_width as u32);
        let right: u32 = if run_right < canvas_right {
            run_right
        } else {
            canvas_right
        };
        self.set_text_to(x, y, &chars, right, style);
    }
}

/// The smaller of two bounds.
pub open spec fn spec_min(a: int, b: int) -> int {
    if a < b {
        a
    } else {
        b
    }
}

/// The characters of a string, in order, as a vector.
pub fn chars_of(text: &str) -> (v: Vec<char>)
    ensures
        v@ == text@,
{
    broadcast use vstd::string::axiom_spec_iter;
    broadcast use vstd::string::next_postcondition;

    let mut chars = text.chars();
    let mut v: Vec<char> = Vec::new();
    loop
        invariant
            v@ + IteratorSpec::remaining(&chars) == text@,
            IteratorSpec::decrease(&chars) is Some,
        ensures
            v@ == text@,
        decreases IteratorSpec::decrease(&chars)->0,
    {
        let ghost rem0 = IteratorSpec::remaining(&chars);
        let ghost v0 = v@;
        match chars.next() {
            None => {
                proof {
                    assert(rem0.len() == 0);
                    assert(v@ =~= v@ + rem0);
                }
                break ;
            },
            Some(c) => {
                v.push(c);
                proof {
                    let rem1 = IteratorSpec::remaining(&chars);
                    assert(v@ + rem1 =~= v0 + rem0);
                }
            },
        }
    }
    v
}

/// The content of a canvas of `area` after `cell` is written at `(x, y)`:
/// an update of the one flat index when the coordinate is in the area, and
/// the content unchanged when it is not.
pub open spec fn write_cell_seq(s: Seq<Cell>, area: Rect, x: int, y: int, cell: Cell) -> Seq<
    Cell,
> {
    if area.spec_contains(x, y) {
        s.update(index_in(area, x, y), cell)
    } else {
        s
    }
}

/// A cell write at an in-area coordinate stores the cell at its flat index
/// and leaves every other cell as it was.
pub proof fn lemma_write_cell_at(s: Seq<Cell>, area: Rect, x: int, y: int, cell: Cell)
    requires
        s.len() == area.spec_area(),
        area.spec_contains(x, y),
    ensures
        write_cell_seq(s, area, x, y, cell).len() == s.len(),
        write_cell_seq(s, area, x, y, cell)[index_in(area, x, y)] == cell,
        forall|k: int|
            0 <= k < s.len() && k != index_in(area, x, y) ==> write_cell_seq(
                s,
                area,
                x,
                y,
                cell,
            )[k] == s[k],
{
    lemma_index_in(area, x, y);
    let i = index_in(area, x, y);
    assert(write_cell_seq(s, area, x, y, cell) == s.update(i, cell));
    assert(s.update(i, cell).len() == s.len());
    assert(s.update(i, cell)[i] == cell);
    assert forall|k: int| 0 <= k < s.len() && k != i implies s.update(i, cell)[k] == s[k] by {
    }
}

impl PartialEq for Canvas {
    /// Two canvases are equal exactly when their areas and cell sequences are.
    fn eq(&self, other: &Canvas) -> (r: bool) {
        if self.area != other.area {
            return false;
        }
        if self.content.len() != other.content.len() {
            return false;
        }
        let mut k: usize = 0;
        while k < self.content.len()
            invariant
                0 <= k <= self.content@.len(),
                self.content@.len() == other.content@.len(),
                self.area == other.area,
                forall|i: int| 0 <= i < k ==> self.content@[i] == other.content@[i],
            decreases self.content@.len() - k,
        {
            if self.content[k] != other.content[k] {
                return false;
            }
            k += 1;
        }
        proof {
            assert(self.content@ =~= other.content@);
        }
        true
    }
}

impl vstd::std_specs::cmp::PartialEqSpecImpl for Canvas {
    open spec fn obeys_eq_spec() -> bool {
        true
    }

    open spec fn eq_spec(&self, other: &Canvas) -> bool {
        self.spec_eq(*other)
    }
}

} // verus!
