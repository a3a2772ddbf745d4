use termcanvas::canvas::Canvas;
use termcanvas::frame::Frame;
use termcanvas::geometry::Rect;
use termcanvas::style::Style;
use termcanvas::terminal::{Terminal, next_count};
use termcanvas::widgets::{Widget, WidgetRef, render_str};

fn rect(x: u16, y: u16, width: u16, height: u16) -> Rect {
    Rect::new(x, y, width, height)
}

#[test]
fn first_cycle_paints_what_was_drawn() {
    let mut t = Terminal::new(rect(0, 0, 5, 1));
    let out = t.draw(|mut frame: Frame| {
        frame.buffer_mut().set_text(0, 0, "Hello", Style::reset());
        frame
    });
    assert_eq!(out.patch.len(), 1);
    assert_eq!(out.patch[0].x, 0);
    assert_eq!(out.patch[0].cells.len(), 5);
    assert_eq!(out.completed.count, 0);
    assert_eq!(out.completed.area, rect(0, 0, 5, 1));
    assert_eq!(out.completed.buffer.cell_at(0, 0).unwrap().symbol, 'H');
}

#[test]
fn identical_second_cycle_has_an_empty_patch() {
    let mut t = Terminal::new(rect(0, 0, 8, 2));
    let draw_content = |mut frame: Frame| {
        frame.buffer_mut().set_text(1, 0, "same", Style::reset());
        frame
    };
    let first = t.draw(draw_content);
    assert!(first.patch.len() > 0);
    let second = t.draw(draw_content);
    assert_eq!(second.patch.len(), 0);
    assert_eq!(second.completed.count, 1);
}

#[test]
fn count_increments_once_per_cycle() {
    let mut t = Terminal::new(rect(0, 0, 2, 1));
    assert_eq!(t.frame_count, 0);
    let counts_seen = t.draw(|frame: Frame| {
        assert_eq!(frame.count(), 0);
        frame
    });
    assert_eq!(counts_seen.completed.count, 0);
    assert_eq!(t.frame_count, 1);
    t.draw(|frame: Frame| frame);
    assert_eq!(t.frame_count, 2);
}

#[test]
fn count_wraps_to_zero_instead_of_failing() {
    assert_eq!(next_count(usize::MAX), 0);
    assert_eq!(next_count(0), 1);
    let area = rect(0, 0, 2, 1);
    let mut t = Terminal {
        previous: Canvas::empty(area),
        current: Canvas::empty(area),
        frame_count: usize::MAX,
    };
    let out = t.draw(|frame: Frame| frame);
    assert_eq!(out.completed.count, usize::MAX);
    assert_eq!(t.frame_count, 0);
    let out = t.draw(|frame: Frame| frame);
    assert_eq!(out.completed.count, 0);
    assert_eq!(t.frame_count, 1);
}

#[test]
fn cursor_hidden_unless_set() {
    let mut t = Terminal::new(rect(0, 0, 3, 3));
    let out = t.draw(|frame: Frame| frame);
    assert_eq!(out.cursor, None);
}

#[test]
fn last_cursor_call_wins() {
    let mut t = Terminal::new(rect(0, 0, 3, 3));
    let out = t.draw(|mut frame: Frame| {
        frame.set_cursor(0, 0);
        frame.set_cursor(2, 1);
        frame
    });
    assert_eq!(out.cursor, Some((2, 1)));
    // the next cycle starts hidden again
    let out = t.draw(|frame: Frame| frame);
    assert_eq!(out.cursor, None);
}

#[test]
fn frame_reports_the_viewport_size() {
    let mut t = Terminal::new(rect(0, 0, 7, 3));
    t.draw(|frame: Frame| {
        assert_eq!(frame.size(), rect(0, 0, 7, 3));
        frame
    });
}

#[test]
fn resize_blanks_and_forces_a_repaint() {
    let mut t = Terminal::new(rect(0, 0, 4, 1));
    let draw_content = |mut frame: Frame| {
        frame.buffer_mut().set_text(0, 0, "hi", Style::reset());
        frame
    };
    t.draw(draw_content);
    t.resize(rect(0, 0, 6, 1));
    let out = t.draw(draw_content);
    // previous was blanked, so the two changed cells are repainted
    assert_eq!(out.patch.len(), 1);
    assert_eq!(out.patch[0].cells.len(), 2);
    assert_eq!(out.completed.area, rect(0, 0, 6, 1));
}

#[test]
fn render_str_draws_at_the_area_origin() {
    let mut c = Canvas::empty(rect(0, 0, 20, 1));
    render_str("hello world", rect(0, 0, 20, 1), &mut c);
    let expected = "hello world";
    for (i, ch) in expected.chars().enumerate() {
        assert_eq!(c.cell_at(i as u16, 0).unwrap().symbol, ch);
    }
    assert_eq!(c.cell_at(11, 0).unwrap().symbol, ' ');
}

#[test]
fn render_str_clips_to_the_area() {
    let mut c = Canvas::empty(rect(0, 0, 10, 1));
    render_str("Hello World", rect(0, 0, 5, 1), &mut c);
    let expected = ['H', 'e', 'l', 'l', 'o'];
    for (i, ch) in expected.iter().enumerate() {
        assert_eq!(c.cell_at(i as u16, 0).unwrap().symbol, *ch);
    }
    for x in 5..10 {
        assert_eq!(c.cell_at(x, 0).unwrap().symbol, ' ');
    }
}

#[test]
fn a_string_renders_as_a_widget() {
    let mut c = Canvas::empty(rect(0, 0, 6, 1));
    let greeting = String::from("Hi");
    greeting.render_ref(rect(0, 0, 6, 1), &mut c);
    assert_eq!(c.cell_at(0, 0).unwrap().symbol, 'H');
    assert_eq!(c.cell_at(1, 0).unwrap().symbol, 'i');
}

#[test]
fn a_reference_drawable_renders_by_value() {
    let mut c = Canvas::empty(rect(0, 0, 6, 1));
    let greeting = String::from("yo");
    (&greeting).render(rect(0, 0, 6, 1), &mut c);
    assert_eq!(c.cell_at(0, 0).unwrap().symbol, 'y');
    assert_eq!(c.cell_at(1, 0).unwrap().symbol, 'o');
}

#[test]
fn drawing_through_a_widget_in_a_cycle() {
    let mut t = Terminal::new(rect(0, 0, 5, 1));
    let label = String::from("Hello");
    let out = t.draw(|mut frame: Frame| {
        let area = frame.size();
        label.render_ref(area, frame.buffer_mut());
        frame
    });
    assert_eq!(out.patch.len(), 1);
    assert_eq!(out.patch[0].cells.len(), 5);
}

#[test]
fn a_str_renders_as_a_widget() {
    let mut c = Canvas::empty(rect(0, 0, 6, 1));
    "hey".render(rect(0, 0, 6, 1), &mut c);
    assert_eq!(c.cell_at(0, 0).unwrap().symbol, 'h');
    assert_eq!(c.cell_at(1, 0).unwrap().symbol, 'e');
    assert_eq!(c.cell_at(2, 0).unwrap().symbol, 'y');
}
