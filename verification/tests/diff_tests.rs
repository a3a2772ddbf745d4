use termcanvas::apply::apply_patch;
use termcanvas::canvas::Canvas;
use termcanvas::diff::diff;
use termcanvas::geometry::Rect;
use termcanvas::style::Style;

fn rect(x: u16, y: u16, width: u16, height: u16) -> Rect {
    Rect::new(x, y, width, height)
}

#[test]
fn equal_canvases_give_an_empty_patch() {
    let mut p = Canvas::empty(rect(0, 0, 4, 2));
    let mut c = Canvas::empty(rect(0, 0, 4, 2));
    p.set_text(0, 0, "ab", Style::reset());
    c.set_text(0, 0, "ab", Style::reset());
    let patch = diff(&p, &c);
    assert_eq!(patch.len(), 0);
}

#[test]
fn one_contiguous_change_is_one_run() {
    let p = Canvas::empty(rect(0, 0, 5, 1));
    let mut c = Canvas::empty(rect(0, 0, 5, 1));
    c.set_text(0, 0, "Hello", Style::reset());
    let patch = diff(&p, &c);
    assert_eq!(patch.len(), 1);
    assert_eq!(patch[0].x, 0);
    assert_eq!(patch[0].y, 0);
    assert_eq!(patch[0].cells.len(), 5);
    let expected = ['H', 'e', 'l', 'l', 'o'];
    for (i, ch) in expected.iter().enumerate() {
        assert_eq!(patch[0].cells[i].symbol, *ch);
    }
}

#[test]
fn an_inner_run_starts_at_its_column() {
    let p = Canvas::empty(rect(0, 0, 8, 1));
    let mut c = Canvas::empty(rect(0, 0, 8, 1));
    c.set_text(2, 0, "abc", Style::reset());
    let patch = diff(&p, &c);
    assert_eq!(patch.len(), 1);
    assert_eq!(patch[0].x, 2);
    assert_eq!(patch[0].y, 0);
    assert_eq!(patch[0].cells.len(), 3);
}

#[test]
fn separated_changes_give_separate_runs() {
    let p = Canvas::empty(rect(0, 0, 8, 2));
    let mut c = Canvas::empty(rect(0, 0, 8, 2));
    c.set_text(0, 0, "a", Style::reset());
    c.set_text(4, 0, "b", Style::reset());
    c.set_text(3, 1, "cd", Style::reset());
    let patch = diff(&p, &c);
    assert_eq!(patch.len(), 3);
    assert_eq!((patch[0].x, patch[0].y, patch[0].cells.len()), (0, 0, 1));
    assert_eq!((patch[1].x, patch[1].y, patch[1].cells.len()), (4, 0, 1));
    assert_eq!((patch[2].x, patch[2].y, patch[2].cells.len()), (3, 1, 2));
}

#[test]
fn a_run_does_not_cross_a_row_boundary() {
    let p = Canvas::empty(rect(0, 0, 2, 2));
    let mut c = Canvas::empty(rect(0, 0, 2, 2));
    c.set_text(0, 0, "ab", Style::reset());
    c.set_text(0, 1, "cd", Style::reset());
    let patch = diff(&p, &c);
    assert_eq!(patch.len(), 2);
    assert_eq!((patch[0].x, patch[0].y), (0, 0));
    assert_eq!((patch[1].x, patch[1].y), (0, 1));
}

#[test]
fn applying_the_patch_reproduces_the_current_canvas() {
    let mut p = Canvas::empty(rect(0, 0, 6, 3));
    let mut c = Canvas::empty(rect(0, 0, 6, 3));
    p.set_text(0, 0, "stale", Style::reset());
    p.set_text(1, 2, "old", Style::reset());
    c.set_text(0, 0, "fresh", Style::reset());
    c.set_text(2, 1, "new", Style::reset());
    let patch = diff(&p, &c);
    let mut terminal_model = p.duplicate();
    apply_patch(&mut terminal_model, &patch);
    assert_eq!(terminal_model, c);
}

#[test]
fn dimension_change_forces_a_full_repaint() {
    let p = Canvas::empty(rect(0, 0, 2, 2));
    let mut c = Canvas::empty(rect(0, 0, 3, 2));
    c.set_text(0, 0, "ab", Style::reset());
    let patch = diff(&p, &c);
    // every cell of the new canvas is written, whatever was shown before
    let covered: usize = patch.iter().map(|r| r.cells.len()).sum();
    assert_eq!(covered, 6);
    let mut fresh_terminal = Canvas::empty(rect(0, 0, 3, 2));
    apply_patch(&mut fresh_terminal, &patch);
    assert_eq!(fresh_terminal, c);
}

#[test]
fn a_change_changed_back_is_not_dirty() {
    let p = Canvas::empty(rect(0, 0, 3, 1));
    let mut c = Canvas::empty(rect(0, 0, 3, 1));
    c.set_text(0, 0, "x", Style::reset());
    c.set_text(0, 0, " ", Style::reset());
    let patch = diff(&p, &c);
    assert_eq!(patch.len(), 0);
}
