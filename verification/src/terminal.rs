//! The render driver: owns the canvas pair and runs one rendering cycle end
//! to end — issue a frame, let the application draw, reconcile, and hand the
//! resulting patch and cursor intent to the caller's backend.

use vstd::prelude::*;
use crate::canvas::Canvas;
use crate::diff::{PatchRun, diff, diff_post};
use crate::frame::{CompletedFrame, Frame};
use crate::geometry::Rect;

verus! {

/// Everything one cycle hands to the backend: the patch that updates the
/// physical terminal, the cursor intent the frame recorded (`None` hides the
/// cursor), and the snapshot of what was rendered.
pub struct CycleOutput {
    /// The runs to write, in row-major order.
    pub patch: Vec<PatchRun>,
    /// The cursor to show afterwards, or `None` to hide it.
    pub cursor: Option<(u16, u16)>,
    /// What the cycle rendered.
    pub completed: CompletedFrame,
}

/// The sequence number after one more cycle: one more, wrapping to zero past
/// the largest representable value rather than failing.
pub open spec fn spec_next_count(c: usize) -> usize {
    if c == usize::MAX {
        0
    } else {
        (c + 1) as usize
    }
}

/// The sequence number after one more cycle.
pub fn next_count(c: usize) -> (n: usize)
    ensures
        n == spec_next_count(c),
{
    if c == usize::MAX {
        0
    } else {
        c + 1
    }
}

/// The render driver: double-buffers the terminal state and serializes
/// rendering cycles by construction — a new frame is only issued once the
/// previous cycle's frame has been consumed.
pub struct Terminal {
    /// What the physical terminal currently shows.
    pub previous: Canvas,
    /// The blank canvas the next cycle will draw into.
    pub current: Canvas,
    /// How many cycles have completed.
    pub frame_count: usize,
}

impl Terminal {
    /// Between cycles both canvases cover the viewport and the drawing
    /// canvas is blank, ready for the next frame.
    pub open spec fn wf(self) -> bool {
        &&& self.previous.wf()
        &&& self.current.wf()
        &&& self.current.area == self.previous.area
        &&& self.current.is_blank()
    }

    /// The frame a cycle starts from: hidden cursor, the blank drawing
    /// canvas, and the current sequence number.
    pub open spec fn spec_frame(self) -> Frame {
        Frame {
            cursor_position: None,
            viewport_area: self.current.area,
            buffer: self.current,
            count: self.frame_count,
        }
    }

    /// A driver for a viewport of `area`, with both canvases blank: the
    /// first cycle repaints everything that differs from a blank screen.
    pub fn new(area: Rect) -> (t: Terminal)
        requires
            area.spec_right() <= 0x10000,
            area.spec_bottom() <= 0x10000,
        ensures
            t.wf(),
            t.previous.area == area,
            t.previous.is_blank(),
            t.frame_count == 0,
    {
        Terminal { previous: Canvas::empty(area), current: Canvas::empty(area), frame_count: 0 }
    }

    /// Runs one rendering cycle: issues the frame to the drawing closure,
    /// reconciles what it drew against what the terminal shows, steps the
    /// sequence counter, and returns the patch, the cursor intent the
    /// closure recorded, and the completed snapshot.
    ///
    /// Whatever frame `g` the closure produced: the patch turns a terminal
    /// showing the old canvas into `g`'s canvas, the cursor intent is
    /// exactly `g`'s (hidden unless the closure set it), and `g`'s canvas
    /// becomes the canvas the next cycle is reconciled against.
    pub fn draw<F: FnOnce(Frame) -> Frame>(&mut self, f: F) -> (out: CycleOutput)
        requires
            old(self).wf(),
            call_requires(f, (old(self).spec_frame(),)),
            forall|g: Frame|
                call_ensures(f, (old(self).spec_frame(),), g) ==> (#[trigger] g.buffer).wf(),
        ensures
            final(self).wf(),
            final(self).frame_count == spec_next_count(old(self).frame_count),
            out.completed.count == old(self).frame_count,
            out.completed.buffer.spec_eq(final(self).previous),
            out.completed.area == final(self).previous.area,
            exists|g: Frame|
                {
                    &&& #[trigger] call_ensures(f, (old(self).spec_frame(),), g)
                    &&& final(self).previous == g.buffer
                    &&& out.cursor == g.cursor_position
                    &&& diff_post(old(self).previous, g.buffer, out.patch@)
                },
    {
        let mut taken = Canvas::empty(Rect { x: 0, y: 0, width: 0, height: 0 });
        core::mem::swap(&mut self.current, &mut taken);
        let frame = Frame {
            cursor_position: None,
            viewport_area: taken.area,
            buffer: taken,
            count: self.frame_count,
        };
        let frame = f(frame);
        let ghost g = frame;
        let patch = diff(&self.previous, &frame.buffer);
        let cursor = frame.cursor_position;
        let completed_buffer = frame.buffer.duplicate();
        let new_area = frame.buffer.area;
        let count_now = self.frame_count;
        self.previous = frame.buffer;
        self.current.resize(new_area);
        self.frame_count = next_count(count_now);
        CycleOutput {
            patch,
            cursor,
            completed: CompletedFrame { buffer: completed_buffer, area: new_area, count: count_now },
        }
    }

    /// Reallocates both canvases to a new viewport, discarding their
    /// content; the next cycle is reconciled against a blank canvas, so
    /// everything it draws is repainted.
    pub fn resize(&mut self, new_area: Rect)
        requires
            old(self).wf(),
            new_area.spec_right() <= 0x10000,
            new_area.spec_bottom() <= 0x10000,
        ensures
            final(self).wf(),
            final(self).previous.area == new_area,
            final(self).previous.is_blank(),
            final(self).frame_count == old(self).frame_count,
    {
        self.previous.resize(new_area);
        self.current.resize(new_area);
    }
}

} // verus!
