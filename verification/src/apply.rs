//! Applying a patch to a terminal model, and the proof that the reconciler's
//! patches are correct: applied to what the terminal shows, they produce
//! exactly the current canvas.

use vstd::prelude::*;
use vstd::pervasive::VecAdditionalExecFns;
use crate::canvas::Canvas;
use crate::cell::Cell;
use crate::diff::{
    PatchRun, covered, diff_post, dirty_at, lemma_run_bounds, patch_wf, run_end, run_start,
    run_wf,
};
use crate::geometry::Rect;

verus! {

/// The cells of a terminal after one run is written over `s`.
pub open spec fn apply_run_seq(s: Seq<Cell>, r: PatchRun, area: Rect) -> Seq<Cell> {
    Seq::new(
        s.len(),
        |i: int|
            if run_start(r, area) <= i < run_end(r, area) {
                r.cells@[i - run_start(r, area)]
            } else {
                s[i]
            },
    )
}

/// The cells of a terminal after every run of a patch is written over `s`,
/// in order.
pub open spec fn apply_patch_seq(s: Seq<Cell>, p: Seq<PatchRun>, area: Rect) -> Seq<Cell>
    decreases p.len(),
{
    if p.len() == 0 {
        s
    } else {
        apply_patch_seq(apply_run_seq(s, p[0], area), p.drop_first(), area)
    }
}

/// In a well-formed patch an earlier run ends before a later one starts.
pub proof fn lemma_patch_sorted(p: Seq<PatchRun>, area: Rect, j: int, k: int)
    requires
        patch_wf(p, area),
        0 <= j < k < p.len(),
    ensures
        run_end(p[j], area) <= run_start(p[k], area),
    decreases k - j,
{
    if k > j + 1 {
        lemma_patch_sorted(p, area, j, k - 1);
    }
}

/// Dropping a patch's first run keeps it well formed.
proof fn lemma_patch_wf_drop_first(p: Seq<PatchRun>, area: Rect)
    requires
        patch_wf(p, area),
        p.len() > 0,
    ensures
        patch_wf(p.drop_first(), area),
{
    let q = p.drop_first();
    assert forall|j: int| 0 <= j < q.len() implies run_wf(#[trigger] q[j], area) by {
        assert(q[j] == p[j + 1]);
    }
    assert forall|j: int| 0 <= j < q.len() - 1 implies run_end(#[trigger] q[j], area) <= run_start(
        q[j + 1],
        area,
    ) by {
        assert(q[j] == p[j + 1]);
        assert(q[j + 1] == p[j + 2]);
    }
}

/// A cell no run of a well-formed patch writes is left as it was.
pub proof fn lemma_apply_uncovered(s: Seq<Cell>, p: Seq<PatchRun>, area: Rect, i: int)
    requires
        0 <= i < s.len(),
        !covered(p, area, i),
    ensures
        apply_patch_seq(s, p, area).len() == s.len(),
        apply_patch_seq(s, p, area)[i] == s[i],
    decreases p.len(),
{
    if p.len() > 0 {
        let s1 = apply_run_seq(s, p[0], area);
        assert(!(run_start(p[0], area) <= i < run_end(p[0], area)));
        assert(s1[i] == s[i]);
        assert(!covered(p.drop_first(), area, i)) by {
            if covered(p.drop_first(), area, i) {
                let j = choose|j: int|
                    0 <= j < p.drop_first().len() && run_start(#[trigger] p.drop_first()[j], area)
                        <= i < run_end(p.drop_first()[j], area);
                assert(p.drop_first()[j] == p[j + 1]);
                assert(covered(p, area, i));
            }
        }
        lemma_apply_uncovered(s1, p.drop_first(), area, i);
    }
}

/// The length of the cell sequence never changes under a patch.
pub proof fn lemma_apply_len(s: Seq<Cell>, p: Seq<PatchRun>, area: Rect)
    ensures
        apply_patch_seq(s, p, area).len() == s.len(),
    decreases p.len(),
{
    if p.len() > 0 {
        lemma_apply_len(apply_run_seq(s, p[0], area), p.drop_first(), area);
    }
}

/// A cell written by run `j` of a well-formed patch holds that run's cell
/// afterwards.
pub proof fn lemma_apply_covered(s: Seq<Cell>, p: Seq<PatchRun>, area: Rect, i: int, j: int)
    requires
        0 <= i < s.len(),
        patch_wf(p, area),
        0 <= j < p.len(),
        run_start(p[j], area) <= i < run_end(p[j], area),
    ensures
        apply_patch_seq(s, p, area)[i] == p[j].cells@[i - run_start(p[j], area)],
    decreases p.len(),
{
    let s1 = apply_run_seq(s, p[0], area);
    let q = p.drop_first();
    lemma_patch_wf_drop_first(p, area);
    if j == 0 {
        assert(s1[i] == p[0].cells@[i - run_start(p[0], area)]);
        assert(!covered(q, area, i)) by {
            if covered(q, area, i) {
                let k = choose|k: int|
                    0 <= k < q.len() && run_start(#[trigger] q[k], area) <= i < run_end(q[k], area);
                assert(q[k] == p[k + 1]);
                lemma_patch_sorted(p, area, 0, k + 1);
            }
        }
        lemma_apply_uncovered(s1, q, area, i);
    } else {
        lemma_patch_sorted(p, area, 0, j);
        assert(s1[i] == s[i]);
        assert(q[j - 1] == p[j]);
        lemma_apply_covered(s1, q, area, i, j - 1);
    }
}

/// Diff correctness: for canvases of one area, applying the reconciler's
/// patch to a terminal that shows the previous canvas yields exactly the
/// current one.
pub proof fn lemma_diff_apply(prev: Canvas, curr: Canvas, p: Seq<PatchRun>)
    requires
        prev.wf(),
        curr.wf(),
        prev.area == curr.area,
        diff_post(prev, curr, p),
    ensures
        apply_patch_seq(prev.content@, p, curr.area) == curr.content@,
{
    let s = apply_patch_seq(prev.content@, p, curr.area);
    lemma_apply_len(prev.content@, p, curr.area);
    assert forall|i: int| 0 <= i < s.len() implies s[i] == curr.content@[i] by {
        if covered(p, curr.area, i) {
            let j = choose|j: int|
                0 <= j < p.len() && run_start(#[trigger] p[j], curr.area) <= i < run_end(
                    p[j],
                    curr.area,
                );
            lemma_apply_covered(prev.content@, p, curr.area, i, j);
            assert(p[j].cells@[i - run_start(p[j], curr.area)] == curr.content@[i]);
        } else {
            lemma_apply_uncovered(prev.content@, p, curr.area, i);
            assert(!dirty_at(prev, curr, i));
        }
    }
    assert(s =~= curr.content@);
}

/// Full repaint on resize: when the areas differ, the patch writes every cell
/// of the current canvas, so applying it to any terminal of the new
/// dimensions — whatever it showed before — yields the current canvas.
pub proof fn lemma_diff_full_repaint(prev: Canvas, curr: Canvas, p: Seq<PatchRun>, s: Seq<Cell>)
    requires
        curr.wf(),
        prev.area != curr.area,
        diff_post(prev, curr, p),
        s.len() == curr.content@.len(),
    ensures
        apply_patch_seq(s, p, curr.area) == curr.content@,
{
    let t = apply_patch_seq(s, p, curr.area);
    lemma_apply_len(s, p, curr.area);
    assert forall|i: int| 0 <= i < t.len() implies t[i] == curr.content@[i] by {
        assert(covered(p, curr.area, i));
        let j = choose|j: int|
            0 <= j < p.len() && run_start(#[trigger] p[j], curr.area) <= i < run_end(
                p[j],
                curr.area,
            );
        lemma_apply_covered(s, p, curr.area, i, j);
        assert(p[j].cells@[i - run_start(p[j], curr.area)] == curr.content@[i]);
    }
    assert(t =~= curr.content@);
}

/// Writes a patch into `target`, the model of what the terminal shows.
pub fn apply_patch(target: &mut Canvas, patch: &Vec<PatchRun>)
    requires
        old(target).wf(),
        patch_wf(patch@, old(target).area),
    ensures
        final(target).wf(),
        final(target).area == old(target).area,
        final(target).content@ == apply_patch_seq(
            old(target).content@,
            patch@,
            old(target).area,
        ),
{
    let ghost area = target.area;
    let mut k: usize = 0;
    proof {
        assert(patch@.skip(0) =~= patch@);
    }
    while k < patch.len()
        invariant
            target.wf(),
            target.area == area,
            patch_wf(patch@, area),
            0 <= k <= patch@.len(),
            apply_patch_seq(old(target).content@, patch@, area) == apply_patch_seq(
                target.content@,
                patch@.skip(k as int),
                area,
            ),
        decreases patch@.len() - k,
    {
        let ghost s_cur = target.content@;
        let ghost rest = patch@.skip(k as int);
        proof {
            assert(rest[0] == patch@[k as int]);
            assert(rest.drop_first() =~= patch@.skip(k as int + 1));
            lemma_run_bounds(patch@[k as int], area);
        }
        let rx = patch[k].x;
        let ry = patch[k].y;
        let start = target.index_of(rx, ry);
        let ghost r = patch@[k as int];
        let n = target.content.len();
        let mut o: usize = 0;
        while o < patch[k].cells.len()
            invariant
                target.wf(),
                target.area == area,
                0 <= k < patch@.len(),
                r == patch@[k as int],
                run_wf(r, area),
                start == run_start(r, area),
                run_end(r, area) <= target.content@.len(),
                n == target.content@.len(),
                0 <= o <= r.cells@.len(),
                s_cur.len() == target.content@.len(),
                forall|i: int|
                    0 <= i < target.content@.len() ==> #[trigger] target.content@[i] == if start
                        <= i < start + o {
                        r.cells@[i - start]
                    } else {
                        s_cur[i]
                    },
            decreases r.cells@.len() - o,
        {
            let cell = patch[k].cells[o];
            target.content.set(start + o, cell);
            o += 1;
        }
        proof {
            assert(target.content@ =~= apply_run_seq(s_cur, r, area));
        }
        k += 1;
    }
    proof {
        assert(patch@.skip(patch@.len() as int) =~= Seq::<PatchRun>::empty());
    }
}

} // verus!
