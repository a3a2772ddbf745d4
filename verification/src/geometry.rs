//! Rectangular areas addressed in terminal cells.

use vstd::prelude::*;

verus! {

/// A rectangular area of the terminal: an origin plus a width and a height,
/// all measured in character cells.
#[derive(Clone, Copy, PartialEq, Eq, Structural, Debug)]
pub struct Rect {
    pub x: u16,
    pub y: u16,
    pub width: u16,
    pub height: u16,
}

impl Rect {
    /// The number of cells the area covers.
    pub open spec fn spec_area(self) -> nat {
        self.width as nat * self.height as nat
    }

    /// Whether the coordinate `(x, y)` lies inside the area.
    pub open spec fn spec_contains(self, x: int, y: int) -> bool {
        &&& self.x <= x < self.x + self.width
        &&& self.y <= y < self.y + self.height
    }

    /// The column one past the right edge.
    pub open spec fn spec_right(self) -> int {
        self.x + self.width
    }

    /// The row one past the bottom edge.
    pub open spec fn spec_bottom(self) -> int {
        self.y + self.height
    }

    pub fn new(x: u16, y: u16, width: u16, height: u16) -> (r: Rect)
        ensures
            r == (Rect { x, y, width, height }),
    {
        Rect { x, y, width, height }
    }

    /// The number of cells the area covers.
    pub fn area(&self) -> (a: usize)
        ensures
            a == self.spec_area(),
    {
        proof {
            assert((self.width as int) * (self.height as int) < 0x1_0000_0000) by (nonlinear_arith)
                requires
                    self.width <= 0xffff,
                    self.height <= 0xffff,
            ;
        }
        (self.width as usize) * (self.height as usize)
    }

    /// Whether the coordinate `(x, y)` lies inside the area.
    pub fn contains(&self, x: u16, y: u16) -> (b: bool)
        ensures
            b == self.spec_contains(x as int, y as int),
    {
        self.x <= x && (x as u32) < (self.x as u32) + (self.width as u32) && self.y <= y && (
        y as u32) < (self.y as u32) + (self.height as u32)
    }
}

/// The flat row-major index of the coordinate `(x, y)` within `area`.
pub open spec fn index_in(area: Rect, x: int, y: int) -> int {
    (y - area.y) * area.width + (x - area.x)
}

/// The column of the cell stored at flat index `i` of `area`.
pub open spec fn col_of(area: Rect, i: int) -> int {
    area.x + i % (area.width as int)
}

/// The row of the cell stored at flat index `i` of `area`.
pub open spec fn row_of(area: Rect, i: int) -> int {
    area.y + i / (area.width as int)
}

/// An in-area coordinate maps to an in-range flat index, and the index maps
/// back to the same coordinate.
pub proof fn lemma_index_in(area: Rect, x: int, y: int)
    requires
        area.spec_contains(x, y),
    ensures
        0 <= index_in(area, x, y) < area.spec_area(),
        col_of(area, index_in(area, x, y)) == x,
        row_of(area, index_in(area, x, y)) == y,
{
    let w = area.width as int;
    let dx = x - area.x;
    let dy = y - area.y;
    let i = dy * w + dx;
    assert(0 <= i && i + (w - dx) <= area.spec_area()) by (nonlinear_arith)
        requires
            0 <= dx < w,
            0 <= dy < area.height,
            i == dy * w + dx,
            area.spec_area() == area.width as nat * area.height as nat,
            w == area.width as int,
    ;
    vstd::arithmetic::div_mod::lemma_fundamental_div_mod_converse(i, w, dy, dx);
}

/// A flat index of `area` names an in-area coordinate, and that coordinate
/// maps back to the same index.
pub proof fn lemma_coord_of(area: Rect, i: int)
    requires
        0 <= i < area.spec_area(),
    ensures
        area.spec_contains(col_of(area, i), row_of(area, i)),
        index_in(area, col_of(area, i), row_of(area, i)) == i,
{
    let w = area.width as int;
    assert(w > 0) by (nonlinear_arith)
        requires
            0 <= i < area.width as nat * area.height as nat,
            w == area.width as int,
    ;
    vstd::arithmetic::div_mod::lemma_fundamental_div_mod(i, w);
    vstd::arithmetic::div_mod::lemma_mod_bound(i, w);
    vstd::arithmetic::div_mod::lemma_div_pos_is_pos(i, w);
    assert(i / w < area.height) by (nonlinear_arith)
        requires
            w > 0,
            i < area.width as nat * area.height as nat,
            w == area.width as int,
            i == w * (i / w) + i % w,
            0 <= i % w < w,
            0 <= i / w,
    ;
    assert((i / w) * w == w * (i / w)) by (nonlinear_arith);
}

} // verus!
