//! The draw contract: the polymorphic capability any visual component
//! implements to paint itself into a sub-region of a canvas, and the
//! primitive text drawable.

use vstd::prelude::*;
use crate::canvas::{Canvas, lemma_write_cell_at, spec_min, write_cell_seq, write_text_seq};
use crate::cell::Cell;
use crate::geometry::{Rect, col_of, index_in, lemma_index_in, row_of};
use crate::style::Style;
use crate::width::spec_char_width;

verus! {

/// Whether the cell at flat index `i` of a canvas with area `carea` lies
/// inside the target area `target`.
pub open spec fn index_in_target(carea: Rect, target: Rect, i: int) -> bool {
    target.spec_contains(col_of(carea, i), row_of(carea, i))
}

/// A component that renders itself by reference, so it can be reused,
/// stored in heterogeneous collections and drawn by containers without
/// being consumed.
///
/// Rendering cannot fail and must confine its writes to the given area:
/// every cell outside it is left untouched. A drawable clips itself by
/// relying on the canvas ignoring out-of-bounds writes.
pub trait WidgetRef {
    /// Draws the current state of the widget into `buf`, confined to `area`.
    fn render_ref(&self, area: Rect, buf: &mut Canvas)
        requires
            old(buf).wf(),
        ensures
            final(buf).wf(),
            final(buf).area == old(buf).area,
            forall|i: int|
                0 <= i < old(buf).content@.len() && !index_in_target(old(buf).area, area, i)
                    ==> final(buf).content@[i] == old(buf).content@[i],
    ;
}

/// A component that is consumed by rendering: it paints itself once into a
/// sub-region of the canvas and is discarded. Ephemeral widgets built fresh
/// each cycle implement this; anything that renders by reference satisfies
/// it through the blanket impl for references.
pub trait Widget {
    /// Draws the widget into `buf`, confined to `area`, consuming it.
    fn render(self, area: Rect, buf: &mut Canvas) where Self: Sized
        requires
            old(buf).wf(),
        ensures
            final(buf).wf(),
            final(buf).area == old(buf).area,
            forall|i: int|
                0 <= i < old(buf).content@.len() && !index_in_target(old(buf).area, area, i)
                    ==> final(buf).content@[i] == old(buf).content@[i],
    ;
}

/// Any reference-drawable renders by value through delegation.
impl<W: WidgetRef + ?Sized> Widget for &W {
    fn render(self, area: Rect, buf: &mut Canvas) {
        self.render_ref(area, buf);
    }
}

/// Confinement of a text run: when the run starts inside the target area's
/// row span and is truncated at or before the target's right edge, every
/// cell outside the target area is left exactly as it was.
pub proof fn lemma_write_text_confined(
    s: Seq<Cell>,
    carea: Rect,
    x: int,
    y: int,
    right: int,
    chars: Seq<char>,
    style: Style,
    target: Rect,
)
    requires
        s.len() == carea.spec_area(),
        target.x <= x,
        target.y <= y < target.spec_bottom(),
        right <= target.spec_right(),
    ensures
        forall|i: int|
            0 <= i < s.len() && !index_in_target(carea, target, i) ==> write_text_seq(
                s,
                carea,
                x,
                y,
                right,
                chars,
                style,
            )[i] == s[i],
    decreases chars.len(),
{
    if chars.len() > 0 {
        let w = spec_char_width(chars[0]);
        if w == 0 {
            lemma_write_text_confined(s, carea, x, y, right, chars.drop_first(), style, target);
        } else if x + w > right {
        } else {
            let s1 = write_cell_seq(s, carea, x, y, Cell { symbol: chars[0], style });
            lemma_cell_write_confined(s, carea, x, y, Cell { symbol: chars[0], style }, target);
            if w == 1 {
                lemma_write_text_confined(
                    s1,
                    carea,
                    x + 1,
                    y,
                    right,
                    chars.drop_first(),
                    style,
                    target,
                );
            } else {
                let s2 = write_cell_seq(s1, carea, x + 1, y, Cell::spec_continuation(style));
                lemma_cell_write_confined(
                    s1,
                    carea,
                    x + 1,
                    y,
                    Cell::spec_continuation(style),
                    target,
                );
                lemma_write_text_confined(
                    s2,
                    carea,
                    x + 2,
                    y,
                    right,
                    chars.drop_first(),
                    style,
                    target,
                );
            }
        }
    }
}

/// One clipped cell write at a coordinate inside the target area changes no
/// cell outside it.
proof fn lemma_cell_write_confined(
    s: Seq<Cell>,
    carea: Rect,
    x: int,
    y: int,
    cell: Cell,
    target: Rect,
)
    requires
        s.len() == carea.spec_area(),
        target.spec_contains(x, y),
    ensures
        write_cell_seq(s, carea, x, y, cell).len() == s.len(),
        forall|i: int|
            0 <= i < s.len() && !index_in_target(carea, target, i) ==> write_cell_seq(
                s,
                carea,
                x,
                y,
                cell,
            )[i] == s[i],
{
    if carea.spec_contains(x, y) {
        lemma_index_in(carea, x, y);
        assert(index_in_target(carea, target, index_in(carea, x, y)));
    }
}

/// Round trip for a text run of single-column characters that fits before
/// the truncation bound: reading back the written cells yields exactly the
/// intended symbol-and-style pairs, and every other cell of the canvas is
/// untouched.
pub proof fn lemma_text_round_trip(
    s: Seq<Cell>,
    carea: Rect,
    x: int,
    y: int,
    right: int,
    chars: Seq<char>,
    style: Style,
)
    requires
        s.len() == carea.spec_area(),
        carea.x <= x,
        carea.y <= y < carea.spec_bottom(),
        right <= carea.spec_right(),
        x + chars.len() <= right,
        forall|k: int| 0 <= k < chars.len() ==> spec_char_width(#[trigger] chars[k]) == 1,
    ensures
        forall|k: int|
            0 <= k < chars.len() ==> write_text_seq(s, carea, x, y, right, chars, style)[index_in(
                carea,
                x,
                y,
            ) + k] == (Cell { symbol: chars[k], style }),
        forall|i: int|
            0 <= i < s.len() && !(index_in(carea, x, y) <= i < index_in(carea, x, y)
                + chars.len()) ==> write_text_seq(s, carea, x, y, right, chars, style)[i] == s[i],
    decreases chars.len(),
{
    if chars.len() > 0 {
        assert(spec_char_width(chars[0]) == 1);
        assert(carea.spec_contains(x, y));
        lemma_index_in(carea, x, y);
        let ilo = index_in(carea, x, y);
        let cell = Cell { symbol: chars[0], style };
        lemma_write_cell_at(s, carea, x, y, cell);
        let s1 = write_cell_seq(s, carea, x, y, cell);
        assert forall|k: int| 0 <= k < chars.drop_first().len() implies spec_char_width(
            #[trigger] chars.drop_first()[k],
        ) == 1 by {
            assert(chars.drop_first()[k] == chars[k + 1]);
        }
        lemma_text_round_trip(s1, carea, x + 1, y, right, chars.drop_first(), style);
        assert(index_in(carea, x + 1, y) == ilo + 1);
        let res = write_text_seq(s, carea, x, y, right, chars, style);
        assert(res == write_text_seq(s1, carea, x + 1, y, right, chars.drop_first(), style));
        assert forall|k: int| 0 <= k < chars.len() implies res[ilo + k] == (Cell {
            symbol: chars[k],
            style,
        }) by {
            if k == 0 {
                assert(res[ilo] == s1[ilo]);
            } else {
                assert(chars.drop_first()[k - 1] == chars[k]);
            }
        }
        assert forall|i: int|
            0 <= i < s.len() && !(ilo <= i < ilo + chars.len()) implies res[i] == s[i] by {
            assert(res[i] == s1[i]);
            assert(s1[i] == s[i]);
        }
    }
}

/// Renders a string slice as a single-style left-aligned run starting at the
/// area's origin, clipped to the area: the primitive text drawable.
pub fn render_str(s: &str, area: Rect, buf: &mut Canvas)
    requires
        old(buf).wf(),
    ensures
        final(buf).wf(),
        final(buf).area == old(buf).area,
        area.height == 0 ==> final(buf).content@ == old(buf).content@,
        area.height > 0 ==> final(buf).content@ == write_text_seq(
            old(buf).content@,
            old(buf).area,
            area.x as int,
            area.y as int,
            spec_min(old(buf).area.spec_right(), area.spec_right()),
            s@,
            Style::spec_reset(),
        ),
        forall|i: int|
            0 <= i < old(buf).content@.len() && !index_in_target(old(buf).area, area, i)
                ==> final(buf).content@[i] == old(buf).content@[i],
{
    if area.height == 0 {
        return ;
    }
    proof {
        lemma_write_text_confined(
            buf.content@,
            buf.area,
            area.x as int,
            area.y as int,
            spec_min(buf.area.spec_right(), area.spec_right()),
            s@,
            Style::spec_reset(),
            area,
        );
    }
    buf.set_text_n(area.x, area.y, s, area.width, Style::reset());
}

/// A string slice draws itself as a left-aligned single-style text run.
impl WidgetRef for str {
    fn render_ref(&self, area: Rect, buf: &mut Canvas) {
        render_str(self, area, buf);
    }
}

/// A `String` draws itself as a left-aligned single-style text run.
impl WidgetRef for String {
    fn render_ref(&self, area: Rect, buf: &mut Canvas) {
        render_str(self.as_str(), area, buf);
    }
}

} // verus!
