use braille_canvas::render::color_transition;
use braille_canvas::{BrailleCanvas, Color};

#[test]
fn blank_cell_without_border() {
    let c = BrailleCanvas::new(1, 1);
    assert_eq!(c.render_with_options(false, None), "\u{2800}\n");
}

#[test]
fn blank_cell_with_border() {
    let c = BrailleCanvas::new(1, 1);
    assert_eq!(c.render(), "┌─┐\n│\u{2800}│\n└─┘");
}

#[test]
fn render_twice_gives_same_text() {
    let mut c = BrailleCanvas::new(3, 2);
    c.line(0, 0, 5, 7, Some(Color::Red));
    c.set_char(0, 0, 'z', None);
    let a = c.render();
    let b = c.render();
    assert_eq!(a, b);
}

#[test]
fn color_escape_only_on_change() {
    let mut c = BrailleCanvas::new(3, 1);
    c.set_pixel_screen(0, 0, Some(Color::Red));
    c.set_pixel_screen(2, 0, Some(Color::Red));
    let out = c.render_with_options(false, None);
    assert_eq!(out, "\x1b[31m\u{2801}\u{2801}\x1b[0m\u{2800}\n");
}

#[test]
fn reset_before_uncolored_cell_and_new_escape_after() {
    let mut c = BrailleCanvas::new(3, 1);
    c.set_pixel_screen(0, 0, Some(Color::BrightBlue));
    c.set_pixel_screen(4, 0, Some(Color::Green));
    let out = c.render_with_options(false, None);
    assert_eq!(out, "\x1b[94m\u{2801}\x1b[0m\u{2800}\x1b[32m\u{2801}\x1b[0m\n");
}

#[test]
fn every_row_ends_without_active_color() {
    let mut c = BrailleCanvas::new(1, 2);
    c.set_pixel_screen(0, 0, Some(Color::Cyan));
    c.set_pixel_screen(0, 4, Some(Color::Cyan));
    let out = c.render_with_options(true, None);
    assert_eq!(
        out,
        "┌─┐\n│\x1b[36m\u{2801}\x1b[0m│\n│\x1b[36m\u{2801}\x1b[0m│\n└─┘"
    );
}

#[test]
fn true_color_escape() {
    let mut c = BrailleCanvas::new(1, 1);
    c.set_pixel_screen(0, 0, Some(Color::TrueColor { r: 1, g: 22, b: 255 }));
    let out = c.render_with_options(false, None);
    assert_eq!(out, "\x1b[38;2;1;22;255m\u{2801}\x1b[0m\n");
}

#[test]
fn named_color_codes() {
    let cases = [
        (Color::Black, "30"),
        (Color::Red, "31"),
        (Color::Green, "32"),
        (Color::Yellow, "33"),
        (Color::Blue, "34"),
        (Color::Magenta, "35"),
        (Color::Cyan, "36"),
        (Color::White, "37"),
        (Color::BrightBlack, "90"),
        (Color::BrightRed, "91"),
        (Color::BrightGreen, "92"),
        (Color::BrightYellow, "93"),
        (Color::BrightBlue, "94"),
        (Color::BrightMagenta, "95"),
        (Color::BrightCyan, "96"),
        (Color::BrightWhite, "97"),
    ];
    for (color, code) in cases {
        let mut c = BrailleCanvas::new(1, 1);
        c.set_pixel_screen(0, 0, Some(color));
        let out = c.render_with_options(false, None);
        assert_eq!(out, format!("\x1b[{}m\u{2801}\x1b[0m\n", code));
    }
}

#[test]
fn text_override_replaces_glyph_and_keeps_color() {
    let mut c = BrailleCanvas::new(2, 1);
    c.set_pixel_screen(0, 0, None);
    c.set_char(0, 0, 'Q', Some(Color::White));
    let out = c.render_with_options(false, None);
    assert_eq!(out, "\x1b[37mQ\x1b[0m\u{2800}\n");
}

#[test]
fn no_color_render_ignores_colors_and_text() {
    let mut c = BrailleCanvas::new(2, 2);
    c.set_pixel_screen(0, 0, Some(Color::Red));
    c.set_char(1, 0, 'Q', Some(Color::White));
    assert_eq!(c.render_no_color(), "\u{2801}\u{2800}\n\u{2800}\u{2800}\n");
}

#[test]
fn title_is_centered_over_bordered_width() {
    let c = BrailleCanvas::new(3, 1);
    let out = c.render_with_options(true, Some("ab"));
    assert_eq!(out, " ab  \n┌───┐\n│\u{2800}\u{2800}\u{2800}│\n└───┘");
}

#[test]
fn long_title_is_kept_whole() {
    let c = BrailleCanvas::new(1, 1);
    let out = c.render_with_options(false, Some("héllo"));
    assert_eq!(out, "héllo\n\u{2800}\n");
}

#[test]
fn render_to_appends_to_existing_text() {
    let c = BrailleCanvas::new(1, 1);
    let mut s = String::from(">");
    c.render_to(&mut s, false, None);
    assert_eq!(s, ">\u{2800}\n");
}

#[test]
fn render_to_reuses_buffer_between_frames() {
    let mut c = BrailleCanvas::new(1, 1);
    let mut buf = String::new();
    c.render_to(&mut buf, true, Some("t"));
    assert_eq!(buf, " t \n┌─┐\n│\u{2800}│\n└─┘");
    buf.clear();
    c.set_pixel_screen(0, 0, None);
    c.render_to(&mut buf, false, None);
    assert_eq!(buf, "\u{2801}\n");
}

#[test]
fn true_color_digits_of_each_length() {
    let mut c = BrailleCanvas::new(1, 1);
    c.set_pixel_screen(0, 0, Some(Color::TrueColor { r: 0, g: 9, b: 100 }));
    let out = c.render_with_options(false, None);
    assert_eq!(out, "\x1b[38;2;0;9;100m\u{2801}\x1b[0m\n");
}

#[test]
fn color_change_between_two_colors_needs_no_reset() {
    let mut c = BrailleCanvas::new(2, 1);
    c.set_pixel_screen(0, 0, Some(Color::Red));
    c.set_pixel_screen(2, 0, Some(Color::TrueColor { r: 10, g: 20, b: 30 }));
    let out = c.render_with_options(false, None);
    assert_eq!(out, "\x1b[31m\u{2801}\x1b[38;2;10;20;30m\u{2801}\x1b[0m\n");
}

#[test]
fn color_transition_steps() {
    let mut out = String::new();
    let s = color_transition(&mut out, None, None);
    assert_eq!((out.as_str(), s), ("", None));
    let s = color_transition(&mut out, s, Some(Color::Yellow));
    assert_eq!((out.as_str(), s), ("\x1b[33m", Some(Color::Yellow)));
    let s = color_transition(&mut out, s, Some(Color::Yellow));
    assert_eq!((out.as_str(), s), ("\x1b[33m", Some(Color::Yellow)));
    let s = color_transition(&mut out, s, None);
    assert_eq!((out.as_str(), s), ("\x1b[33m\x1b[0m", None));
}
