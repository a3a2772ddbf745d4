use termcanvas::canvas::{Canvas, InvalidCoordinate};
use termcanvas::cell::{Cell, CONTINUATION};
use termcanvas::geometry::Rect;
use termcanvas::style::{Color, Modifiers, Style};

fn rect(x: u16, y: u16, width: u16, height: u16) -> Rect {
    Rect::new(x, y, width, height)
}

#[test]
fn blank_canvas_reads_back_blank() {
    let c = Canvas::empty(rect(0, 0, 3, 2));
    for y in 0..2 {
        for x in 0..3 {
            assert_eq!(c.cell_at(x, y), Ok(Cell::blank()));
        }
    }
}

#[test]
fn cell_at_out_of_bounds_is_invalid_coordinate() {
    let c = Canvas::empty(rect(1, 1, 2, 2));
    assert_eq!(c.cell_at(0, 0), Err(InvalidCoordinate));
    assert_eq!(c.cell_at(3, 1), Err(InvalidCoordinate));
    assert_eq!(c.cell_at(1, 3), Err(InvalidCoordinate));
    assert!(c.cell_at(1, 1).is_ok());
    assert!(c.cell_at(2, 2).is_ok());
}

#[test]
fn set_cell_writes_and_clips() {
    let mut c = Canvas::empty(rect(0, 0, 2, 2));
    let red = Style { fg: Color::Red, bg: Color::Reset, modifiers: Modifiers::none() };
    c.set_cell(1, 1, Cell { symbol: 'x', style: red });
    assert_eq!(c.cell_at(1, 1), Ok(Cell { symbol: 'x', style: red }));
    // out-of-bounds writes are silently ignored
    let before = c.duplicate();
    c.set_cell(2, 0, Cell { symbol: 'y', style: red });
    c.set_cell(0, 2, Cell { symbol: 'y', style: red });
    assert_eq!(c, before);
}

#[test]
fn set_text_writes_a_run() {
    let mut c = Canvas::empty(rect(0, 0, 5, 1));
    c.set_text(0, 0, "Hello", Style::reset());
    let expected = ['H', 'e', 'l', 'l', 'o'];
    for (i, ch) in expected.iter().enumerate() {
        assert_eq!(c.cell_at(i as u16, 0).unwrap().symbol, *ch);
    }
}

#[test]
fn set_text_truncates_at_right_edge() {
    let mut c = Canvas::empty(rect(0, 0, 5, 1));
    c.set_text(0, 0, "Hello World", Style::reset());
    let expected = ['H', 'e', 'l', 'l', 'o'];
    for (i, ch) in expected.iter().enumerate() {
        assert_eq!(c.cell_at(i as u16, 0).unwrap().symbol, *ch);
    }
}

#[test]
fn set_text_n_clips_to_the_width_bound() {
    // a 5-wide target area on a wider canvas keeps "Hello", clips "World"
    let mut c = Canvas::empty(rect(0, 0, 10, 1));
    c.set_text_n(0, 0, "Hello World", 5, Style::reset());
    let expected = ['H', 'e', 'l', 'l', 'o'];
    for (i, ch) in expected.iter().enumerate() {
        assert_eq!(c.cell_at(i as u16, 0).unwrap().symbol, *ch);
    }
    for x in 5..10 {
        assert_eq!(c.cell_at(x, 0), Ok(Cell::blank()));
    }
}

#[test]
fn wide_symbol_takes_two_cells_with_continuation() {
    let mut c = Canvas::empty(rect(0, 0, 4, 1));
    let style = Style::reset();
    c.set_text(0, 0, "\u{65e5}x", style);
    assert_eq!(c.cell_at(0, 0).unwrap().symbol, '\u{65e5}');
    assert_eq!(c.cell_at(1, 0).unwrap().symbol, CONTINUATION);
    assert_eq!(c.cell_at(2, 0).unwrap().symbol, 'x');
    assert_eq!(c.cell_at(3, 0), Ok(Cell::blank()));
}

#[test]
fn wide_symbol_not_fitting_last_column_stops_the_run() {
    let mut c = Canvas::empty(rect(0, 0, 2, 1));
    c.set_text(1, 0, "\u{65e5}", Style::reset());
    // the wide symbol needs two columns but only one is left: nothing written
    assert_eq!(c.cell_at(1, 0), Ok(Cell::blank()));
}

#[test]
fn control_characters_take_no_cell() {
    let mut c = Canvas::empty(rect(0, 0, 3, 1));
    c.set_text(0, 0, "a\u{7}b", Style::reset());
    assert_eq!(c.cell_at(0, 0).unwrap().symbol, 'a');
    assert_eq!(c.cell_at(1, 0).unwrap().symbol, 'b');
    assert_eq!(c.cell_at(2, 0), Ok(Cell::blank()));
}

#[test]
fn set_text_outside_rows_is_a_no_op() {
    let mut c = Canvas::empty(rect(0, 0, 3, 1));
    let before = c.duplicate();
    c.set_text(0, 1, "abc", Style::reset());
    assert_eq!(c, before);
}

#[test]
fn resize_discards_content_and_blanks() {
    let mut c = Canvas::empty(rect(0, 0, 2, 1));
    c.set_text(0, 0, "ab", Style::reset());
    c.resize(rect(0, 0, 3, 2));
    assert_eq!(c.area, rect(0, 0, 3, 2));
    for y in 0..2 {
        for x in 0..3 {
            assert_eq!(c.cell_at(x, y), Ok(Cell::blank()));
        }
    }
}

#[test]
fn canvas_equality_is_area_and_cells() {
    let mut a = Canvas::empty(rect(0, 0, 2, 1));
    let mut b = Canvas::empty(rect(0, 0, 2, 1));
    assert_eq!(a, b);
    a.set_text(0, 0, "x", Style::reset());
    assert_ne!(a, b);
    b.set_text(0, 0, "x", Style::reset());
    assert_eq!(a, b);
    let c = Canvas::empty(rect(1, 0, 2, 1));
    assert_ne!(a, c);
}

#[test]
fn styled_text_keeps_its_style() {
    let style = Style {
        fg: Color::Rgb(10, 20, 30),
        bg: Color::Indexed(7),
        modifiers: Modifiers { bold: true, italic: false, underlined: false, reversed: false },
    };
    let mut c = Canvas::empty(rect(0, 0, 2, 1));
    c.set_text(0, 0, "ab", style);
    assert_eq!(c.cell_at(0, 0).unwrap(), Cell { symbol: 'a', style });
    assert_eq!(c.cell_at(1, 0).unwrap(), Cell { symbol: 'b', style });
}
