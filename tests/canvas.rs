use braille_canvas::{BrailleCanvas, Color, ColorBlend};

fn glyph(mask: u32) -> char {
    char::from_u32(0x2800 + mask).unwrap()
}

#[test]
fn pixel_size_is_two_by_four_per_cell() {
    let mut c = BrailleCanvas::new(3, 2);
    assert_eq!(c.pixel_width(), 6);
    assert_eq!(c.pixel_height(), 8);
    c.set_pixel_screen(1, 1, Some(Color::Red));
    c.clear();
    assert_eq!(c.pixel_width(), 6);
    assert_eq!(c.pixel_height(), 8);
    assert_eq!(c.width(), 3);
    assert_eq!(c.height(), 2);
}

#[test]
fn zero_sized_canvas_has_no_pixels() {
    let c = BrailleCanvas::new(0, 0);
    assert_eq!(c.pixel_width(), 0);
    assert_eq!(c.pixel_height(), 0);
    assert_eq!(c.render_with_options(false, None), "");
    assert_eq!(c.render(), "┌┐\n└┘");
}

#[test]
fn each_dot_has_its_own_bit() {
    let expected: [(usize, usize, u8); 8] = [
        (0, 0, 0x01),
        (0, 1, 0x02),
        (0, 2, 0x04),
        (0, 3, 0x40),
        (1, 0, 0x08),
        (1, 1, 0x10),
        (1, 2, 0x20),
        (1, 3, 0x80),
    ];
    for (x, y, bit) in expected {
        let mut c = BrailleCanvas::new(1, 1);
        c.set_pixel_screen(x, y, None);
        assert_eq!(c.mask_at(0), bit);
    }
}

#[test]
fn dots_set_in_turn_are_ored() {
    let mut c = BrailleCanvas::new(1, 1);
    c.set_pixel_screen(0, 0, None);
    c.set_pixel_screen(1, 3, None);
    assert_eq!(c.mask_at(0), 0x81);
    for y in 0..4 {
        for x in 0..2 {
            c.set_pixel_screen(x, y, None);
        }
    }
    assert_eq!(c.mask_at(0), 0xFF);
    assert_eq!(c.render_no_color(), format!("{}\n", glyph(0xFF)));
}

#[test]
fn cartesian_origin_is_bottom_left() {
    let mut c = BrailleCanvas::new(1, 1);
    c.set_pixel(0, 0, None);
    assert_eq!(c.mask_at(0), 0x40);
    c.set_pixel(1, 3, None);
    assert_eq!(c.mask_at(0), 0x48);
    c.unset_pixel(0, 0);
    assert_eq!(c.mask_at(0), 0x08);
}

#[test]
fn pixels_off_the_canvas_are_ignored() {
    let mut c = BrailleCanvas::new(1, 1);
    c.set_pixel_screen(2, 0, Some(Color::Red));
    c.set_pixel_screen(0, 4, Some(Color::Red));
    c.set_pixel(0, 4, Some(Color::Red));
    c.set_pixel(0, 100, Some(Color::Red));
    assert_eq!(c.mask_at(0), 0);
    assert_eq!(c.color_at(0), None);
}

#[test]
fn unset_last_dot_clears_color() {
    let mut c = BrailleCanvas::new(1, 1);
    c.set_pixel_screen(0, 0, Some(Color::Green));
    assert_eq!(c.color_at(0), Some(Color::Green));
    c.unset_pixel_screen(0, 0);
    assert_eq!(c.mask_at(0), 0);
    assert_eq!(c.color_at(0), None);
}

#[test]
fn unset_one_of_several_dots_keeps_color() {
    let mut c = BrailleCanvas::new(1, 1);
    c.set_pixel_screen(0, 0, Some(Color::Green));
    c.set_pixel_screen(1, 1, None);
    c.unset_pixel_screen(0, 0);
    assert_eq!(c.mask_at(0), 0x10);
    assert_eq!(c.color_at(0), Some(Color::Green));
}

#[test]
fn toggle_flips_a_dot() {
    let mut c = BrailleCanvas::new(1, 1);
    c.toggle_pixel_screen(1, 2, Some(Color::Blue));
    assert_eq!(c.mask_at(0), 0x20);
    assert_eq!(c.color_at(0), Some(Color::Blue));
    c.toggle_pixel_screen(1, 2, Some(Color::Blue));
    assert_eq!(c.mask_at(0), 0);
    assert_eq!(c.color_at(0), None);
    c.toggle_pixel_screen(5, 5, Some(Color::Blue));
    assert_eq!(c.mask_at(0), 0);
}

#[test]
fn keep_first_blend_keeps_first_color() {
    let mut c = BrailleCanvas::new(1, 1);
    c.blend_mode = ColorBlend::KeepFirst;
    c.set_pixel_screen(0, 0, Some(Color::Red));
    c.set_pixel_screen(1, 0, Some(Color::Blue));
    assert_eq!(c.color_at(0), Some(Color::Red));
}

#[test]
fn overwrite_blend_keeps_last_color() {
    let mut c = BrailleCanvas::new(1, 1);
    assert_eq!(c.blend_mode, ColorBlend::Overwrite);
    c.set_pixel_screen(0, 0, Some(Color::Red));
    c.set_pixel_screen(1, 0, Some(Color::Blue));
    assert_eq!(c.color_at(0), Some(Color::Blue));
}

#[test]
fn keep_first_color_is_released_when_cell_empties() {
    let mut c = BrailleCanvas::new(1, 1);
    c.blend_mode = ColorBlend::KeepFirst;
    c.set_pixel_screen(0, 0, Some(Color::Red));
    c.unset_pixel_screen(0, 0);
    c.set_pixel_screen(0, 0, Some(Color::Blue));
    assert_eq!(c.color_at(0), Some(Color::Blue));
}

#[test]
fn clear_empties_every_layer() {
    let mut c = BrailleCanvas::new(2, 1);
    c.set_pixel_screen(0, 0, Some(Color::Red));
    c.set_char(1, 0, 'x', Some(Color::Cyan));
    c.clear();
    for i in 0..2 {
        assert_eq!(c.mask_at(i), 0);
        assert_eq!(c.color_at(i), None);
        assert_eq!(c.char_at(i), None);
    }
}

#[test]
fn line_beyond_one_edge_draws_nothing() {
    let mut c = BrailleCanvas::new(2, 2);
    c.line(-5, 0, -1, 7, Some(Color::Red));
    c.line_screen(4, 0, 9, 7, None);
    c.line_screen(0, -3, 3, -1, None);
    c.line_screen(0, 8, 3, 20, None);
    for i in 0..4 {
        assert_eq!(c.mask_at(i), 0);
        assert_eq!(c.color_at(i), None);
    }
}

#[test]
fn line_across_the_canvas_is_clipped() {
    let mut c = BrailleCanvas::new(2, 1);
    c.line_screen(-5, 0, 10, 0, None);
    assert_eq!(c.mask_at(0), 0x09);
    assert_eq!(c.mask_at(1), 0x09);
}

#[test]
fn diagonal_line_crossing_corner_is_clipped() {
    let mut c = BrailleCanvas::new(1, 1);
    c.line_screen(-2, -2, 5, 5, None);
    // Only the diagonal dots (0,0) and (1,1) fall on the 2x4 canvas.
    assert_eq!(c.mask_at(0), 0x01 | 0x10);
}

#[test]
fn line_with_extreme_endpoints_stays_on_canvas() {
    let mut c = BrailleCanvas::new(1, 1);
    c.line_screen(isize::MIN, 0, isize::MAX, 0, None);
    assert_eq!(c.mask_at(0), 0x09);
}

#[test]
fn vertical_cartesian_line() {
    let mut c = BrailleCanvas::new(1, 1);
    c.line(0, 0, 0, 3, None);
    assert_eq!(c.mask_at(0), 0x47);
}

#[test]
fn single_point_line() {
    let mut c = BrailleCanvas::new(1, 1);
    c.line_screen(1, 1, 1, 1, None);
    assert_eq!(c.mask_at(0), 0x10);
}

#[test]
fn shallow_line_steps_like_bresenham() {
    let mut c = BrailleCanvas::new(2, 1);
    c.line_screen(0, 0, 3, 1, None);
    // (0,0) (1,0) (2,1) (3,1)
    assert_eq!(c.mask_at(0), 0x01 | 0x08);
    assert_eq!(c.mask_at(1), 0x02 | 0x10);
}

#[test]
fn rect_outline() {
    let mut c = BrailleCanvas::new(2, 1);
    c.rect(0, 0, 4, 4, None);
    assert_eq!(c.mask_at(0), 0x01 | 0x02 | 0x04 | 0x40 | 0x08 | 0x80);
    assert_eq!(c.mask_at(1), 0x08 | 0x10 | 0x20 | 0x80 | 0x01 | 0x40);
}

#[test]
fn rect_filled_covers_area() {
    let mut c = BrailleCanvas::new(2, 1);
    c.rect_filled(0, 0, 4, 4, Some(Color::Yellow));
    assert_eq!(c.mask_at(0), 0xFF);
    assert_eq!(c.mask_at(1), 0xFF);
    assert_eq!(c.color_at(1), Some(Color::Yellow));
}

#[test]
fn rect_filled_of_zero_height_draws_nothing() {
    let mut c = BrailleCanvas::new(2, 1);
    c.rect_filled(0, 0, 4, 0, None);
    assert_eq!(c.mask_at(0), 0);
}

#[test]
fn circle_of_radius_zero() {
    let mut c = BrailleCanvas::new(1, 1);
    c.circle(0, 0, 0, None);
    // The center, then the one midpoint step at offset (1, -1), whose
    // symmetric pixel (1, 1) is on the canvas.
    assert_eq!(c.mask_at(0), 0x40 | 0x20);
}

#[test]
fn circle_outline_is_symmetric() {
    let mut c = BrailleCanvas::new(4, 2);
    c.circle(3, 3, 2, None);
    // Screen row of cartesian y is 7 - y; check the four extreme points.
    let lit = |c: &BrailleCanvas, x: usize, y: usize| {
        let sy = 7 - y;
        let cell = (sy / 4) * 4 + x / 2;
        let bits = [[0x01u8, 0x02, 0x04, 0x40], [0x08, 0x10, 0x20, 0x80]];
        c.mask_at(cell) & bits[x % 2][sy % 4] != 0
    };
    assert!(lit(&c, 5, 3));
    assert!(lit(&c, 1, 3));
    assert!(lit(&c, 3, 5));
    assert!(lit(&c, 3, 1));
    assert!(!lit(&c, 3, 3));
}

#[test]
fn circle_near_origin_skips_negative_pixels() {
    let mut c = BrailleCanvas::new(1, 1);
    c.circle(0, 0, 1, None);
    // (0,1) and (1,0) in cartesian coordinates.
    assert_eq!(c.mask_at(0), 0x04 | 0x80);
}

#[test]
fn filled_circle_covers_center() {
    let mut c = BrailleCanvas::new(2, 1);
    c.circle_filled(1, 1, 1, Some(Color::Magenta));
    // Cartesian rows 0..=2, columns 0..=2 around (1,1).
    assert_eq!(c.mask_at(0) & 0x10, 0x10);
    assert_eq!(c.color_at(0), Some(Color::Magenta));
}

#[test]
fn set_char_counts_rows_from_bottom() {
    let mut c = BrailleCanvas::new(2, 2);
    c.set_char(1, 0, 'A', Some(Color::Red));
    assert_eq!(c.char_at(3), Some('A'));
    assert_eq!(c.color_at(3), Some(Color::Red));
    c.set_char(0, 1, 'B', None);
    assert_eq!(c.char_at(0), Some('B'));
    assert_eq!(c.color_at(0), None);
}

#[test]
fn set_char_off_the_canvas_is_ignored() {
    let mut c = BrailleCanvas::new(2, 2);
    c.set_char(2, 0, 'A', None);
    c.set_char(0, 2, 'B', None);
    for i in 0..4 {
        assert_eq!(c.char_at(i), None);
    }
}
