//! The per-cycle drawing handle and the snapshot a finished cycle leaves
//! behind.

use vstd::prelude::*;
use crate::canvas::Canvas;
use crate::geometry::Rect;

verus! {

/// A consistent view into the terminal state for rendering a single frame.
///
/// A frame is issued by the render driver at the start of a cycle, carries
/// the canvas the cycle draws into, and is given back to the driver when the
/// drawing closure returns; it is not storable beyond the cycle.
pub struct Frame {
    /// Where the cursor should be after drawing this frame: `None` leaves it
    /// hidden, `Some((x, y))` shows it there.
    pub cursor_position: Option<(u16, u16)>,
    /// The area of the viewport, fixed for the whole cycle.
    pub viewport_area: Rect,
    /// The canvas this frame draws into.
    pub buffer: Canvas,
    /// The sequence number of this frame.
    pub count: usize,
}

/// The state of the terminal after the last completed cycle: a read-only
/// snapshot of the rendered canvas, its area and the cycle's sequence
/// number. It is only meaningful until the next cycle begins.
pub struct CompletedFrame {
    /// The canvas the last cycle rendered.
    pub buffer: Canvas,
    /// The area of the last frame.
    pub area: Rect,
    /// The sequence number of the last frame.
    pub count: usize,
}

impl Frame {
    /// The size of the current frame, stable for the frame's lifetime;
    /// layout during this cycle must use this value, never a backend-reported
    /// resize, because a resize only takes effect on the next cycle.
    pub fn size(&self) -> (r: Rect)
        ensures
            r == self.viewport_area,
    {
        self.viewport_area
    }

    /// After drawing this frame, show the cursor at `(x, y)`. Calling this
    /// again overwrites the position: the last call wins. Never calling it
    /// leaves the cursor hidden for this cycle.
    pub fn set_cursor(&mut self, x: u16, y: u16)
        ensures
            *final(self) == (Frame { cursor_position: Some((x, y)), ..*old(self) }),
    {
        self.cursor_position = Some((x, y));
    }

    /// Exclusive access to the canvas this frame draws into.
    pub fn buffer_mut(&mut self) -> (buf: &mut Canvas)
        ensures
            *buf == old(self).buffer,
            *final(self) == (Frame { buffer: *final(buf), ..*old(self) }),
    {
        &mut self.buffer
    }

    /// The sequence number of this frame: how many frames were rendered
    /// before it. It wraps to zero past the largest representable value
    /// rather than failing.
    pub fn count(&self) -> (c: usize)
        ensures
            c == self.count,
    {
        self.count
    }
}

} // verus!
