use braille_canvas::{ChartContext, Color};

#[test]
fn chart_starts_blank() {
    let ctx = ChartContext::new(2, 1);
    assert_eq!(ctx.canvas.pixel_width(), 4);
    assert_eq!(ctx.canvas.render_no_color(), "\u{2800}\u{2800}\n");
}

#[test]
fn plot_points_skips_off_canvas() {
    let mut ctx = ChartContext::new(1, 1);
    ctx.plot_points(&[(0, 0), (-1, 0), (0, 9), (1, 3)], Some(Color::Red));
    assert_eq!(ctx.canvas.mask_at(0), 0x40 | 0x08);
    assert_eq!(ctx.canvas.color_at(0), Some(Color::Red));
}

#[test]
fn polyline_breaks_at_missing_points() {
    let mut ctx = ChartContext::new(2, 1);
    ctx.polyline(&[Some((0, 0)), Some((1, 0)), None, Some((3, 3))], None);
    assert_eq!(ctx.canvas.mask_at(0), 0x40 | 0x80);
    assert_eq!(ctx.canvas.mask_at(1), 0);
}

#[test]
fn closed_polyline_returns_to_start() {
    let mut ctx = ChartContext::new(1, 1);
    ctx.closed_polyline(&[Some((0, 0)), Some((1, 0)), Some((1, 3))], None);
    // Edges (0,0)-(1,0), (1,0)-(1,3), (1,3)-(0,0).
    let m = ctx.canvas.mask_at(0);
    assert_eq!(m & 0x40, 0x40);
    assert_eq!(m & 0x80, 0x80);
    assert_eq!(m & 0x08, 0x08);
}

#[test]
fn closed_polyline_needs_two_vertices() {
    let mut ctx = ChartContext::new(1, 1);
    ctx.closed_polyline(&[Some((0, 0))], None);
    assert_eq!(ctx.canvas.mask_at(0), 0);
}

#[test]
fn bars_share_the_width() {
    let mut ctx = ChartContext::new(2, 1);
    ctx.bars(&[(Some(4), Some(Color::Red)), (None, None), (Some(1), Some(Color::Blue))]);
    // Width 4 over 3 bars: one column each; bar 0 full height, bar 2 two rows.
    assert_eq!(ctx.canvas.mask_at(0), 0x01 | 0x02 | 0x04 | 0x40);
    assert_eq!(ctx.canvas.mask_at(1), 0x04 | 0x40);
    assert_eq!(ctx.canvas.color_at(1), Some(Color::Blue));
}

#[test]
fn bars_past_the_edge_are_dropped() {
    let mut ctx = ChartContext::new(1, 1);
    ctx.bars(&[(Some(0), None), (Some(0), None), (Some(0), None)]);
    assert_eq!(ctx.canvas.mask_at(0), 0x40 | 0x80);
}

#[test]
fn text_at_is_cut_at_right_edge() {
    let mut ctx = ChartContext::new(3, 2);
    ctx.text_at(1, 1, "abc", Some(Color::Green));
    assert_eq!(ctx.canvas.char_at(1), Some('a'));
    assert_eq!(ctx.canvas.char_at(2), Some('b'));
    assert_eq!(ctx.canvas.char_at(0), None);
    assert_eq!(ctx.canvas.color_at(2), Some(Color::Green));
}

#[test]
fn spokes_start_at_center() {
    let mut ctx = ChartContext::new(2, 1);
    ctx.spokes(&[(1, 0, Some(Color::Red))]);
    // Center (2,2) cartesian to (3,2): screen row 1.
    assert_eq!(ctx.canvas.mask_at(1), 0x02 | 0x10);
}

#[test]
fn axis_lines_on_left_and_bottom() {
    let mut ctx = ChartContext::new(1, 1);
    ctx.axis_lines(None);
    assert_eq!(ctx.canvas.mask_at(0), 0x01 | 0x02 | 0x04 | 0x40 | 0x80);
}

#[test]
fn grid_divides_evenly() {
    let mut ctx = ChartContext::new(2, 1);
    ctx.draw_grid(2, 1, None);
    // Column 2 of 4, full height.
    assert_eq!(ctx.canvas.mask_at(1), 0x01 | 0x02 | 0x04 | 0x40);
    assert_eq!(ctx.canvas.mask_at(0), 0);
}

#[test]
fn grid_rounds_to_nearest_pixel() {
    let mut ctx = ChartContext::new(1, 2);
    ctx.draw_grid(1, 3, None);
    // Height 8 in thirds: rows round(8/3)=3 and round(16/3)=5, cartesian.
    assert_eq!(ctx.canvas.mask_at(1), 0x01 | 0x08);
    assert_eq!(ctx.canvas.mask_at(0), 0x04 | 0x20);
}
