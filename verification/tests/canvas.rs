use clockguess::canvas::{Canvas, CellStyle, Point, TextAlign};

#[test]
fn draws_horizontal_line() {
    let mut canvas = Canvas::new(5, 3);

    canvas.line(Point { x: 0, y: 1 }, Point { x: 4, y: 1 }, '#');

    assert_eq!(canvas.render(), "     \n#####\n     ");
}

#[test]
fn draws_vertical_line() {
    let mut canvas = Canvas::new(3, 3);

    canvas.line(Point { x: 1, y: 0 }, Point { x: 1, y: 2 }, '#');

    assert_eq!(canvas.render(), " # \n # \n # ");
}

#[test]
fn draws_diagonal_line() {
    let mut canvas = Canvas::new(3, 3);

    canvas.line(Point { x: 0, y: 0 }, Point { x: 2, y: 2 }, '#');

    assert_eq!(canvas.render(), "#  \n # \n  #");
}

#[test]
fn draws_steep_line() {
    let mut canvas = Canvas::new(3, 5);

    canvas.line(Point { x: 0, y: 0 }, Point { x: 2, y: 4 }, '#');

    assert_eq!(canvas.render(), "#  \n # \n # \n  #\n  #");
}

#[test]
fn draws_text() {
    let mut canvas = Canvas::new(5, 1);

    canvas.text(Point { x: 1, y: 0 }, "12", CellStyle::default());

    assert_eq!(canvas.render(), " 12  ");
}

#[test]
fn centers_text() {
    let mut canvas = Canvas::new(5, 1);

    canvas.text_aligned(
        Point { x: 2, y: 0 },
        "12",
        CellStyle::default(),
        TextAlign::Center,
    );

    assert_eq!(canvas.render(), " 12  ");
}

#[test]
fn renders_styled_text() {
    let mut canvas = Canvas::new(1, 1);

    canvas.set_styled(
        Point { x: 0, y: 0 },
        '#',
        CellStyle { foreground: Some(9), bold: false },
    );

    let rendered = canvas.render();

    assert!(rendered.contains('#'));
    assert_ne!(rendered, "#");
}

// Further cases.

#[test]
fn draws_lines_backwards_and_off_canvas() {
    let mut canvas = Canvas::new(4, 2);
    canvas.line(Point { x: 3, y: 1 }, Point { x: 0, y: 1 }, '=');
    assert_eq!(canvas.render(), "    \n====");

    let mut clipped = Canvas::new(3, 3);
    clipped.line(Point { x: -2, y: 1 }, Point { x: 5, y: 1 }, '-');
    assert_eq!(clipped.render(), "   \n---\n   ");

    let mut dot = Canvas::new(2, 2);
    dot.line(Point { x: 1, y: 1 }, Point { x: 1, y: 1 }, '*');
    assert_eq!(dot.render(), "  \n *");
}

#[test]
fn aligns_and_clips_text() {
    let mut canvas = Canvas::new(5, 2);
    canvas.text_aligned(Point { x: 4, y: 0 }, "ab", CellStyle::plain(), TextAlign::Right);
    canvas.text_aligned(Point { x: 3, y: 1 }, "xyz", CellStyle::plain(), TextAlign::Left);
    assert_eq!(canvas.render(), "   ab\n   xy");

    let mut off = Canvas::new(3, 1);
    off.text(Point { x: -1, y: 0 }, "abcd", CellStyle::plain());
    off.text(Point { x: 0, y: 5 }, "zz", CellStyle::plain());
    assert_eq!(off.render(), "bcd");
}

#[test]
fn sets_clears_and_reports_size() {
    let mut canvas = Canvas::new(3, 2);
    assert_eq!((canvas.width(), canvas.height()), (3, 2));
    canvas.set(2, 1, '@');
    canvas.set(3, 0, '!');
    canvas.set(-1, 0, '!');
    assert_eq!(canvas.render(), "   \n  @");
    canvas.clear('.');
    assert_eq!(canvas.render(), "...\n...");
}

#[test]
fn bold_style_is_rendered_with_escape_codes() {
    let mut canvas = Canvas::new(2, 1);
    canvas.set_styled(Point { x: 1, y: 0 }, '@', CellStyle { foreground: None, bold: true });
    let rendered = canvas.render();
    assert!(rendered.starts_with(' '));
    assert!(rendered.contains('@'));
    assert!(rendered.len() > 2);
}
