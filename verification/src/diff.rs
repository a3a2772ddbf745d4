//! The reconciler: compares the previously shown canvas with the one just
//! drawn and produces the ordered list of styled runs that updates the
//! terminal, touching only cells that changed.

use vstd::prelude::*;
use crate::canvas::Canvas;
use crate::cell::Cell;
use crate::geometry::{Rect, col_of, index_in, lemma_coord_of, row_of};
use crate::apply::lemma_patch_sorted;

verus! {

/// One run of a patch: consecutive updated cells within a single row,
/// starting at column `x` of row `y`.
#[derive(Debug)]
pub struct PatchRun {
    pub x: u16,
    pub y: u16,
    pub cells: Vec<Cell>,
}

/// The flat index of the first cell a run writes.
pub open spec fn run_start(r: PatchRun, area: Rect) -> int {
    index_in(area, r.x as int, r.y as int)
}

/// The flat index one past the last cell a run writes.
pub open spec fn run_end(r: PatchRun, area: Rect) -> int {
    run_start(r, area) + r.cells@.len()
}

/// A run is well formed for `area` when it is nonempty and lies entirely
/// within one row of the area.
pub open spec fn run_wf(r: PatchRun, area: Rect) -> bool {
    &&& area.y <= r.y < area.spec_bottom()
    &&& area.x <= r.x
    &&& r.x - area.x + r.cells@.len() <= area.width
    &&& r.cells@.len() >= 1
}

/// A patch is well formed when every run is, and the runs are emitted in
/// row-major order without overlap, so the backend's cursor only ever moves
/// forward while a patch is applied.
pub open spec fn patch_wf(p: Seq<PatchRun>, area: Rect) -> bool {
    &&& forall|j: int| 0 <= j < p.len() ==> run_wf(#[trigger] p[j], area)
    &&& forall|j: int|
        0 <= j < p.len() - 1 ==> run_end(#[trigger] p[j], area) <= run_start(p[j + 1], area)
}

/// Whether the flat index `i` is written by some run of the patch.
pub open spec fn covered(p: Seq<PatchRun>, area: Rect, i: int) -> bool {
    exists|j: int| 0 <= j < p.len() && run_start(#[trigger] p[j], area) <= i < run_end(p[j], area)
}

/// Every cell a run carries is the cell the current canvas holds at the
/// position the run writes it to.
pub open spec fn runs_match(p: Seq<PatchRun>, curr: Canvas) -> bool {
    forall|j: int, o: int|
        0 <= j < p.len() && 0 <= o < p[j].cells@.len() ==> #[trigger] p[j].cells@[o]
            == curr.content@[run_start(p[j], curr.area) + o]
}

/// Whether the two canvases disagree at flat index `i`.
pub open spec fn dirty_at(prev: Canvas, curr: Canvas, i: int) -> bool {
    prev.content@[i] != curr.content@[i]
}

/// Every cell a run writes is one where the two canvases disagree.
pub open spec fn runs_dirty(p: Seq<PatchRun>, prev: Canvas, curr: Canvas) -> bool {
    forall|j: int, o: int|
        0 <= j < p.len() && 0 <= o < p[j].cells@.len() ==> prev.content@[run_start(
            p[j],
            curr.area,
        ) + o] != #[trigger] p[j].cells@[o]
}

/// Everything the reconciler promises of a computed patch.
///
/// For canvases of one area the patch writes exactly the cells that differ,
/// with each maximal row-run of differing cells emitted as one run: a run
/// starts at the row's left edge or just after an unchanged cell, and ends at
/// the row's right edge or just before one. For canvases whose areas differ
/// the patch repaints every cell of the current canvas.
pub open spec fn diff_post(prev: Canvas, curr: Canvas, p: Seq<PatchRun>) -> bool {
    &&& patch_wf(p, curr.area)
    &&& runs_match(p, curr)
    &&& (prev.area == curr.area ==> {
        &&& runs_dirty(p, prev, curr)
        &&& forall|i: int|
            0 <= i < curr.content@.len() && #[trigger] dirty_at(prev, curr, i) ==> covered(
                p,
                curr.area,
                i,
            )
        &&& forall|j: int|
            0 <= j < p.len() ==> ((#[trigger] p[j]).x == curr.area.x || !dirty_at(
                prev,
                curr,
                run_start(p[j], curr.area) - 1,
            ))
        &&& forall|j: int|
            0 <= j < p.len() ==> ((#[trigger] p[j]).x - curr.area.x + p[j].cells@.len()
                == curr.area.width || !dirty_at(prev, curr, run_end(p[j], curr.area)))
    })
    &&& (prev.area != curr.area ==> forall|i: int|
        0 <= i < curr.content@.len() ==> covered(p, curr.area, i))
}

/// No difference, no work: when the two canvases agree on every cell, the
/// patch is empty.
pub proof fn lemma_diff_no_change(prev: Canvas, curr: Canvas, p: Seq<PatchRun>)
    requires
        prev.area == curr.area,
        prev.content@ == curr.content@,
        diff_post(prev, curr, p),
    ensures
        p.len() == 0,
{
    if p.len() > 0 {
        assert(run_wf(p[0], curr.area));
        let st = run_start(p[0], curr.area);
        let c0 = p[0].cells@[0];
        assert(c0 == curr.content@[st + 0]);
        assert(prev.content@[st + 0] != c0);
    }
}

/// A well-formed run writes inside the bounds of the area's cell sequence.
pub proof fn lemma_run_bounds(r: PatchRun, area: Rect)
    requires
        run_wf(r, area),
    ensures
        0 <= run_start(r, area),
        run_end(r, area) <= area.spec_area(),
{
    crate::geometry::lemma_index_in(area, r.x as int, r.y as int);
    let w = area.width as int;
    let dy = r.y - area.y;
    assert(dy * w + w <= area.spec_area()) by (nonlinear_arith)
        requires
            0 <= dy < area.height,
            w == area.width as int,
            area.spec_area() == area.width as nat * area.height as nat,
    ;
}

/// Diff minimality: when two canvases of one area differ in exactly one
/// contiguous run of cells within one row — the `l` cells starting at
/// `(x0, y0)` — the patch is exactly one run covering that span.
pub proof fn lemma_diff_single_run(
    prev: Canvas,
    curr: Canvas,
    p: Seq<PatchRun>,
    x0: int,
    y0: int,
    l: int,
)
    requires
        prev.wf(),
        curr.wf(),
        prev.area == curr.area,
        diff_post(prev, curr, p),
        curr.area.spec_contains(x0, y0),
        1 <= l,
        x0 + l <= curr.area.spec_right(),
        forall|i: int|
            0 <= i < curr.content@.len() ==> (#[trigger] dirty_at(prev, curr, i) <==> index_in(
                curr.area,
                x0,
                y0,
            ) <= i < index_in(curr.area, x0, y0) + l),
    ensures
        p.len() == 1,
        p[0].x == x0,
        p[0].y == y0,
        p[0].cells@.len() == l,
{
    let area = curr.area;
    let ilo = index_in(area, x0, y0);
    let ihi = ilo + l;
    crate::geometry::lemma_index_in(area, x0, y0);
    crate::geometry::lemma_index_in(area, x0 + l - 1, y0);
    assert(0 <= ilo && ihi <= curr.content@.len());
    // every run lies inside the dirty span: its first and last cells differ
    // between the canvases, so both ends fall in the span
    assert forall|j: int| #![trigger p[j]] 0 <= j < p.len() implies ilo <= run_start(p[j], area)
        && run_end(p[j], area) <= ihi by {
        assert(run_wf(p[j], area));
        lemma_run_bounds(p[j], area);
        let st = run_start(p[j], area);
        let lj = p[j].cells@.len();
        assert(p[j].cells@[0] == curr.content@[st + 0]);
        assert(prev.content@[st + 0] != p[j].cells@[0]);
        assert(dirty_at(prev, curr, st));
        assert(ilo <= st < ihi);
        assert(p[j].cells@[lj - 1] == curr.content@[st + (lj - 1)]);
        assert(prev.content@[st + (lj - 1)] != p[j].cells@[lj - 1]);
        assert(dirty_at(prev, curr, st + (lj - 1)));
        assert(st + (lj - 1) < ihi);
    }
    // the first dirty cell is covered by some run, which must start there
    assert(dirty_at(prev, curr, ilo));
    assert(covered(p, area, ilo));
    let j0 = choose|j: int|
        0 <= j < p.len() && run_start(#[trigger] p[j], area) <= ilo < run_end(p[j], area);
    assert(run_wf(p[j0], area));
    assert(run_start(p[j0], area) == ilo);
    // that run ends exactly at the end of the dirty span
    assert(run_end(p[j0], area) <= ihi);
    if run_end(p[j0], area) < ihi {
        let e = run_end(p[j0], area);
        assert(dirty_at(prev, curr, e));
        assert(covered(p, area, e));
        let m = choose|k: int|
            0 <= k < p.len() && run_start(#[trigger] p[k], area) <= e < run_end(p[k], area);
        assert(run_wf(p[m], area));
        assert(m != j0);
        if m < j0 {
            lemma_patch_sorted(p, area, m, j0);
            assert(false);
        } else {
            lemma_patch_sorted(p, area, j0, m);
            assert(run_start(p[m], area) == e);
            // the cell before the later run is the earlier run's last: dirty,
            // so the later run can only start at the row's left edge
            let lj0 = p[j0].cells@.len();
            assert(p[j0].cells@[lj0 - 1] == curr.content@[ilo + (lj0 - 1)]);
            assert(prev.content@[ilo + (lj0 - 1)] != p[j0].cells@[lj0 - 1]);
            assert(dirty_at(prev, curr, e - 1));
            assert(p[m].x == area.x);
            // yet its start lies strictly inside the dirty row-run
            let d = e - ilo;
            assert(index_in(area, x0 + d, y0) == ilo + d);
            assert(area.spec_contains(x0 + d, y0));
            crate::geometry::lemma_index_in(area, x0 + d, y0);
            crate::geometry::lemma_index_in(area, p[m].x as int, p[m].y as int);
            assert(col_of(area, e) == x0 + d);
            assert(col_of(area, e) == p[m].x);
            assert(false);
        }
    }
    assert(run_end(p[j0], area) == ihi);
    // no second run fits: its cells would overlap the single span
    assert forall|k: int| #![trigger p[k]] 0 <= k < p.len() implies k == j0 by {
        if k != j0 {
            assert(run_wf(p[k], area));
            assert(ilo <= run_start(p[k], area) < ihi);
            if k > j0 {
                lemma_patch_sorted(p, area, j0, k);
                assert(false);
            } else {
                lemma_patch_sorted(p, area, k, j0);
                assert(run_end(p[k], area) <= ilo);
                assert(false);
            }
        }
    }
    assert(run_wf(p[0], area));
    assert(j0 == 0);
    if p.len() > 1 {
        assert(run_wf(p[1], area));
        assert(false);
    }
    assert(p.len() == 1);
    crate::geometry::lemma_index_in(area, p[0].x as int, p[0].y as int);
    assert(col_of(area, ilo) == p[0].x && row_of(area, ilo) == p[0].y);
    assert(col_of(area, ilo) == x0 && row_of(area, ilo) == y0);
}

/// A run appended to a patch covers what the patch covered before, and the
/// new run's own span.
proof fn lemma_covered_push(p: Seq<PatchRun>, r: PatchRun, area: Rect, i: int)
    requires
        covered(p, area, i) || run_start(r, area) <= i < run_end(r, area),
    ensures
        covered(p.push(r), area, i),
{
    if covered(p, area, i) {
        let j = choose|j: int|
            0 <= j < p.len() && run_start(#[trigger] p[j], area) <= i < run_end(p[j], area);
        assert(p.push(r)[j] == p[j]);
    } else {
        assert(p.push(r)[p.len() as int] == r);
    }
}

/// Computes the patch that turns a terminal showing `prev` into one showing
/// `curr`: the minimal row-major run list where the areas match, and a full
/// repaint of `curr` where they do not.
pub fn diff(prev: &Canvas, curr: &Canvas) -> (patch: Vec<PatchRun>)
    requires
        prev.wf(),
        curr.wf(),
    ensures
        diff_post(*prev, *curr, patch@),
{
    if prev.area == curr.area {
        diff_same(prev, curr)
    } else {
        full_patch(curr)
    }
}

/// The minimal patch between two canvases of one area: one run per maximal
/// row-run of differing cells, in row-major order.
#[verifier::rlimit(60)]
fn diff_same(prev: &Canvas, curr: &Canvas) -> (patch: Vec<PatchRun>)
    requires
        prev.wf(),
        curr.wf(),
        prev.area == curr.area,
    ensures
        diff_post(*prev, *curr, patch@),
{
    let area = curr.area;
    let w = area.width as usize;
    let h = area.height as usize;
    let n = curr.content.len();
    let mut patch: Vec<PatchRun> = Vec::new();
    let mut ry: usize = 0;
    proof {
        assert(w * h == n) by (nonlinear_arith)
            requires
                n == area.width as nat * area.height as nat,
                w == area.width,
                h == area.height,
        ;
    }
    while ry < h
        invariant
            prev.wf(),
            curr.wf(),
            prev.area == curr.area,
            area == curr.area,
            w == area.width,
            h == area.height,
            n == curr.content@.len(),
            w * h == n,
            0 <= ry <= h,
            patch_wf(patch@, area),
            runs_match(patch@, *curr),
            runs_dirty(patch@, *prev, *curr),
            forall|i: int|
                0 <= i < ry * w && #[trigger] dirty_at(*prev, *curr, i) ==> covered(
                    patch@,
                    area,
                    i,
                ),
            forall|j: int|
                0 <= j < patch@.len() ==> run_end(#[trigger] patch@[j], area) <= ry * w,
            forall|j: int|
                0 <= j < patch@.len() ==> ((#[trigger] patch@[j]).x == area.x || !dirty_at(
                    *prev,
                    *curr,
                    run_start(patch@[j], area) - 1,
                )),
            forall|j: int|
                0 <= j < patch@.len() ==> ((#[trigger] patch@[j]).x - area.x
                    + patch@[j].cells@.len() == area.width || !dirty_at(
                    *prev,
                    *curr,
                    run_end(patch@[j], area),
                )),
        decreases h - ry,
    {
        proof {
            assert(ry * w + w <= n) by (nonlinear_arith)
                requires
                    0 <= ry < h,
                    w * h == n,
            ;
        }
        let base = ry * w;
        let mut cx: usize = 0;
        while cx < w
            invariant
                prev.wf(),
                curr.wf(),
                prev.area == curr.area,
                area == curr.area,
                w == area.width,
                h == area.height,
                n == curr.content@.len(),
                w * h == n,
                0 <= ry < h,
                base == ry * w,
                base + w <= n,
                0 <= cx <= w,
                patch_wf(patch@, area),
                runs_match(patch@, *curr),
                runs_dirty(patch@, *prev, *curr),
                forall|i: int|
                    0 <= i < base + cx && #[trigger] dirty_at(*prev, *curr, i) ==> covered(
                        patch@,
                        area,
                        i,
                    ),
                forall|j: int|
                    0 <= j < patch@.len() ==> run_end(#[trigger] patch@[j], area) <= base + cx,
                cx == 0 || cx == w || !dirty_at(*prev, *curr, base + cx - 1) || !dirty_at(
                    *prev,
                    *curr,
                    base + cx,
                ),
                forall|j: int|
                    0 <= j < patch@.len() ==> ((#[trigger] patch@[j]).x == area.x || !dirty_at(
                        *prev,
                        *curr,
                        run_start(patch@[j], area) - 1,
                    )),
                forall|j: int|
                    0 <= j < patch@.len() ==> ((#[trigger] patch@[j]).x - area.x
                        + patch@[j].cells@.len() == area.width || !dirty_at(
                        *prev,
                        *curr,
                        run_end(patch@[j], area),
                    )),
            decreases w - cx,
        {
            if prev.content[base + cx] != curr.content[base + cx] {
                let sx = cx;
                let mut cells: Vec<Cell> = Vec::new();
                cells.push(curr.content[base + cx]);
                cx += 1;
                while cx < w && prev.content[base + cx] != curr.content[base + cx]
                    invariant
                        prev.wf(),
                        curr.wf(),
                        prev.area == curr.area,
                        area == curr.area,
                        w == area.width,
                        n == curr.content@.len(),
                        base + w <= n,
                        0 <= sx < cx <= w,
                        cells@.len() == cx - sx,
                        forall|o: int|
                            0 <= o < cells@.len() ==> #[trigger] cells@[o] == curr.content@[base
                                + sx + o],
                        forall|o: int|
                            0 <= o < cells@.len() ==> prev.content@[base + sx + o]
                                != #[trigger] cells@[o],
                    decreases w - cx,
                {
                    cells.push(curr.content[base + cx]);
                    cx += 1;
                }
                let run = PatchRun { x: col_at(area, sx), y: row_at(area, ry), cells };
                let ghost p0 = patch@;
                proof {
                    assert(run_start(run, area) == base + sx);
                    assert(run_wf(run, area));
                    assert(cx == w || !dirty_at(*prev, *curr, base + cx));
                }
                patch.push(run);
                proof {
                    assert(patch@ == p0.push(run));
                    assert forall|j: int| 0 <= j < patch@.len() implies run_wf(
                        #[trigger] patch@[j],
                        area,
                    ) && run_end(patch@[j], area) <= base + cx && (patch@[j].x == area.x
                        || !dirty_at(*prev, *curr, run_start(patch@[j], area) - 1)) && (
                    patch@[j].x - area.x + patch@[j].cells@.len() == area.width || !dirty_at(
                        *prev,
                        *curr,
                        run_end(patch@[j], area),
                    )) by {
                        if j < p0.len() {
                            assert(patch@[j] == p0[j]);
                        } else {
                            assert(patch@[j] == run);
                        }
                    }
                    assert forall|j: int| 0 <= j < patch@.len() - 1 implies run_end(
                        #[trigger] patch@[j],
                        area,
                    ) <= run_start(patch@[j + 1], area) by {
                        assert(patch@[j] == p0[j]);
                        if j < p0.len() - 1 {
                            assert(patch@[j + 1] == p0[j + 1]);
                        } else {
                            assert(patch@[j + 1] == run);
                        }
                    }
                    assert forall|j: int, o: int|
                        0 <= j < patch@.len() && 0 <= o < patch@[j].cells@.len() implies (
                    #[trigger] patch@[j].cells@[o]) == curr.content@[run_start(patch@[j], area)
                        + o] && prev.content@[run_start(patch@[j], area) + o]
                        != patch@[j].cells@[o] by {
                        if j < p0.len() {
                            assert(patch@[j] == p0[j]);
                            assert(p0[j].cells@[o] == curr.content@[run_start(p0[j], area) + o]);
                            assert(prev.content@[run_start(p0[j], area) + o] != p0[j].cells@[o]);
                        } else {
                            assert(patch@[j] == run);
                        }
                    }
                    assert forall|i: int|
                        0 <= i < base + cx && #[trigger] dirty_at(*prev, *curr, i) implies covered(
                        patch@,
                        area,
                        i,
                    ) by {
                        lemma_covered_push(p0, run, area, i);
                    }
                }
            } else {
                cx += 1;
            }
        }
        ry += 1;
        proof {
            assert(ry * w == (ry - 1) * w + w) by (nonlinear_arith);
        }
    }
    proof {
        assert(ry * w == n) by (nonlinear_arith)
            requires
                ry == h,
                w * h == n,
        ;
    }
    patch
}

/// The column `area.x + dx`, exact because the area lies within the
/// addressable plane.
fn col_at(area: Rect, dx: usize) -> (c: u16)
    requires
        dx < area.width,
        area.spec_right() <= 0x10000,
    ensures
        c == area.x + dx,
{
    area.x + (dx as u16)
}

/// The row `area.y + dy`, exact because the area lies within the addressable
/// plane.
fn row_at(area: Rect, dy: usize) -> (r: u16)
    requires
        dy < area.height,
        area.spec_bottom() <= 0x10000,
    ensures
        r == area.y + dy,
{
    area.y + (dy as u16)
}

/// The full-repaint patch: one run per row, covering every cell of `curr`.
fn full_patch(curr: &Canvas) -> (patch: Vec<PatchRun>)
    requires
        curr.wf(),
    ensures
        patch_wf(patch@, curr.area),
        runs_match(patch@, *curr),
        forall|i: int| 0 <= i < curr.content@.len() ==> covered(patch@, curr.area, i),
{
    let area = curr.area;
    let w = area.width as usize;
    let h = area.height as usize;
    let n = curr.content.len();
    let mut patch: Vec<PatchRun> = Vec::new();
    proof {
        assert(w * h == n) by (nonlinear_arith)
            requires
                n == area.width as nat * area.height as nat,
                w == area.width,
                h == area.height,
        ;
    }
    if w == 0 {
        proof {
            assert(n == 0) by (nonlinear_arith)
                requires
                    w * h == n,
                    w == 0,
            ;
        }
        return patch;
    }
    let mut ry: usize = 0;
    while ry < h
        invariant
            curr.wf(),
            area == curr.area,
            w == area.width,
            h == area.height,
            n == curr.content@.len(),
            w * h == n,
            0 < w,
            0 <= ry <= h,
            patch@.len() == ry,
            runs_match(patch@, *curr),
            forall|j: int|
                0 <= j < patch@.len() ==> run_wf(#[trigger] patch@[j], area) && run_start(
                    patch@[j],
                    area,
                ) == j * w && patch@[j].cells@.len() == w,
        decreases h - ry,
    {
        proof {
            assert(ry * w + w <= n) by (nonlinear_arith)
                requires
                    0 <= ry < h,
                    w * h == n,
            ;
        }
        let base = ry * w;
        let mut cells: Vec<Cell> = Vec::new();
        let mut o: usize = 0;
        while o < w
            invariant
                curr.wf(),
                n == curr.content@.len(),
                base + w <= n,
                0 <= o <= w,
                cells@.len() == o,
                forall|q: int|
                    0 <= q < cells@.len() ==> #[trigger] cells@[q] == curr.content@[base + q],
            decreases w - o,
        {
            cells.push(curr.content[base + o]);
            o += 1;
        }
        let run = PatchRun { x: area.x, y: row_at(area, ry), cells };
        let ghost p0 = patch@;
        proof {
            assert(run_start(run, area) == base);
            assert(run_wf(run, area));
        }
        patch.push(run);
        proof {
            assert(patch@ == p0.push(run));
            assert forall|j: int| 0 <= j < patch@.len() implies run_wf(#[trigger] patch@[j], area)
                && run_start(patch@[j], area) == j * w && patch@[j].cells@.len() == w by {
                if j < p0.len() {
                    assert(patch@[j] == p0[j]);
                } else {
                    assert(patch@[j] == run);
                }
            }
            assert forall|j: int, o2: int|
                0 <= j < patch@.len() && 0 <= o2 < patch@[j].cells@.len() implies (
            #[trigger] patch@[j].cells@[o2]) == curr.content@[run_start(patch@[j], area)
                + o2] by {
                if j < p0.len() {
                    assert(patch@[j] == p0[j]);
                    assert(p0[j].cells@[o2] == curr.content@[run_start(p0[j], area) + o2]);
                } else {
                    assert(patch@[j] == run);
                }
            }
        }
        ry += 1;
    }
    proof {
        assert forall|j: int| 0 <= j < patch@.len() - 1 implies run_end(
            #[trigger] patch@[j],
            area,
        ) <= run_start(patch@[j + 1], area) by {
            assert((j + 1) * w == j * w + w) by (nonlinear_arith);
        }
        assert forall|i: int| 0 <= i < curr.content@.len() implies covered(
            patch@,
            curr.area,
            i,
        ) by {
            lemma_coord_of(area, i);
            let r = row_of(area, i);
            let c = col_of(area, i);
            let j = r - area.y;
            assert(0 <= j < patch@.len());
            assert(run_start(patch@[j], area) == j * w);
            assert(index_in(area, c, r) == j * w + (c - area.x));
            assert(run_start(patch@[j], area) <= i < run_end(patch@[j], area));
        }
    }
    patch
}

} // verus!
