//! The chart layer in device space: a canvas plus the pixel work of each
//! chart kind, once data has been mapped to pixel coordinates.

use crate::canvas::{dims_fit, BrailleCanvas, CanvasModel};
use crate::color::Color;
use vstd::arithmetic::div_mod::{lemma_mod_self_0, lemma_small_mod};
use vstd::prelude::*;
use vstd::string::StrSliceExecFns;

verus! {

impl CanvasModel {
    /// Lights cartesian pixels `pts[i..]` in order.
    pub open spec fn plot_from(self, pts: Seq<(isize, isize)>, i: int, color: Option<Color>) -> CanvasModel
        decreases pts.len() - i,
    {
        if i < 0 || i >= pts.len() {
            self
        } else {
            self.set_cart(pts[i].0 as int, pts[i].1 as int, color).plot_from(pts, i + 1, color)
        }
    }

    /// Segment from point `a` to point `b` when both are present.
    pub open spec fn link(self, a: Option<(isize, isize)>, b: Option<(isize, isize)>, color: Option<Color>) -> CanvasModel {
        match (a, b) {
            (Some(p), Some(q)) => self.draw_line(p.0 as int, p.1 as int, q.0 as int, q.1 as int, color, true),
            _ => self,
        }
    }

    /// Segments between consecutive points from index `i` on.
    pub open spec fn polyline_from(self, pts: Seq<Option<(isize, isize)>>, i: int, color: Option<Color>) -> CanvasModel
        decreases pts.len() - i,
    {
        if i < 0 || i + 1 >= pts.len() {
            self
        } else {
            self.link(pts[i], pts[i + 1], color).polyline_from(pts, i + 1, color)
        }
    }

    /// Segments from vertex `i` on to the next vertex, the last one closing
    /// back to the first.
    pub open spec fn polygon_from(self, pts: Seq<Option<(isize, isize)>>, i: int, color: Option<Color>) -> CanvasModel
        decreases pts.len() - i,
    {
        if i < 0 || i >= pts.len() {
            self
        } else {
            self.link(pts[i], pts[(i + 1) % (pts.len() as int)], color).polygon_from(pts, i + 1, color)
        }
    }

    /// Vertical cartesian segments from row 0 to row `height` for columns
    /// `x` up to `x_end - 1`.
    pub open spec fn bar_columns(self, x: int, x_end: int, height: int, color: Option<Color>) -> CanvasModel
        decreases x_end - x,
    {
        if x >= x_end {
            self
        } else {
            self.draw_line(x, 0, x, height, color, true).bar_columns(x + 1, x_end, height, color)
        }
    }

    /// Bars `i..` of width `bw`: bar `k` covers columns `k * bw` to
    /// `k * bw + bw - 1` (cut at the canvas edge) up to its height, capped at
    /// the canvas height; an absent height draws nothing.
    pub open spec fn bars_from(
        self,
        bars: Seq<(Option<usize>, Option<Color>)>,
        i: int,
        bw: int,
    ) -> CanvasModel
        decreases bars.len() - i,
    {
        if i < 0 || i >= bars.len() {
            self
        } else {
            let x_start = i * bw;
            let next = match bars[i].0 {
                Some(hgt) => if x_start < self.pixel_width() {
                    self.bar_columns(
                        x_start,
                        if x_start + bw < self.pixel_width() { x_start + bw } else { self.pixel_width() },
                        if hgt < self.pixel_height() { hgt as int } else { self.pixel_height() },
                        bars[i].1,
                    )
                } else {
                    self
                },
                None => self,
            };
            next.bars_from(bars, i + 1, bw)
        }
    }

    /// Characters `t[i..]` placed left to right from cell column `col + i`
    /// of cell row `row`, cut at the right edge.
    pub open spec fn text_from(self, col: int, row: int, t: Seq<char>, i: int, color: Option<Color>) -> CanvasModel
        decreases t.len() - i,
    {
        if i < 0 || i >= t.len() {
            self
        } else {
            self.with_char(col + i, row, t[i], color).text_from(col, row, t, i + 1, color)
        }
    }

    /// Segments from the center pixel `(pixel_width / 2, pixel_height / 2)`
    /// to the center plus each offset, from index `i` on.
    pub open spec fn spokes_from(self, offsets: Seq<(isize, isize, Option<Color>)>, i: int) -> CanvasModel
        decreases offsets.len() - i,
    {
        if i < 0 || i >= offsets.len() {
            self
        } else {
            let cx = self.pixel_width() / 2;
            let cy = self.pixel_height() / 2;
            self.draw_line(cx, cy, cx + offsets[i].0, cy + offsets[i].1, offsets[i].2, true).spokes_from(
                offsets,
                i + 1,
            )
        }
    }

    /// Full-height vertical segments at the grid columns `i` to `divs - 1`.
    pub open spec fn grid_columns_from(self, i: int, divs: int, color: Option<Color>) -> CanvasModel
        decreases divs - i,
    {
        if i >= divs {
            self
        } else {
            let x = grid_pos(i, divs, self.pixel_width());
            self.draw_line(x, 0, x, self.pixel_height(), color, true).grid_columns_from(i + 1, divs, color)
        }
    }

    /// Full-width horizontal segments at the grid rows `i` to `divs - 1`.
    pub open spec fn grid_rows_from(self, i: int, divs: int, color: Option<Color>) -> CanvasModel
        decreases divs - i,
    {
        if i >= divs {
            self
        } else {
            let y = grid_pos(i, divs, self.pixel_height());
            self.draw_line(0, y, self.pixel_width(), y, color, true).grid_rows_from(i + 1, divs, color)
        }
    }
}

/// Division line `i` of `divs` equal parts of `len` pixels: `i * len / divs`
/// rounded to the nearest pixel, halves upward.
pub open spec fn grid_pos(i: int, divs: int, len: int) -> int {
    (2 * i * len + divs) / (2 * divs)
}

/// Grid positions never pass the far edge.
proof fn lemma_grid_pos_bound(i: int, divs: int, len: int)
    requires
        0 <= i < divs,
        0 <= len,
    ensures
        0 <= grid_pos(i, divs, len) <= len,
{
    let n = 2 * i * len + divs;
    let d = 2 * divs;
    assert(0 <= 2 * i * len) by (nonlinear_arith)
        requires
            0 <= i,
            0 <= len,
    ;
    assert(n < (len + 1) * d) by (nonlinear_arith)
        requires
            n == 2 * i * len + divs,
            d == 2 * divs,
            0 <= i < divs,
            0 <= len,
    ;
    vstd::arithmetic::div_mod::lemma_div_by_multiple_is_strongly_ordered(n, (len + 1) * d, len + 1, d);
    vstd::arithmetic::div_mod::lemma_div_by_multiple(len + 1, d);
    vstd::arithmetic::div_mod::lemma_div_pos_is_pos(n, d);
}

/// The width of each of `n` bars across `w` pixels: an equal share, at least one.
pub open spec fn bar_width(w: int, n: int) -> int {
    if w / n > 1 {
        w / n
    } else {
        1
    }
}

/// Bars that start at or past the right edge draw nothing.
pub proof fn lemma_bars_past_edge(m: CanvasModel, bars: Seq<(Option<usize>, Option<Color>)>, i: int, bw: int)
    requires
        0 <= i,
        1 <= bw,
        i * bw >= m.pixel_width(),
    ensures
        m.bars_from(bars, i, bw) == m,
    decreases bars.len() - i,
{
    if i < bars.len() {
        assert((i + 1) * bw == i * bw + bw) by (nonlinear_arith);
        lemma_bars_past_edge(m, bars, i + 1, bw);
    }
}

/// Characters placed at or past the right edge change nothing.
pub proof fn lemma_text_past_edge(m: CanvasModel, col: int, row: int, t: Seq<char>, i: int, color: Option<Color>)
    requires
        0 <= i,
        col + i >= m.width,
    ensures
        m.text_from(col, row, t, i, color) == m,
    decreases t.len() - i,
{
    if i < t.len() {
        lemma_text_past_edge(m, col, row, t, i + 1, color);
    }
}

/// A chart drawing surface: one canvas, no other state.
pub struct ChartContext {
    pub canvas: BrailleCanvas,
}

impl ChartContext {
    pub open spec fn wf(&self) -> bool {
        self.canvas.wf()
    }

    /// A chart over an empty canvas of `width` by `height` cells.
    pub fn new(width: usize, height: usize) -> (r: ChartContext)
        requires
            dims_fit(width as int, height as int),
        ensures
            r.wf(),
            r.canvas@ == CanvasModel::blank(width as nat, height as nat),
    {
        ChartContext { canvas: BrailleCanvas::new(width, height) }
    }

    /// Scatter plot in device space: lights each cartesian pixel of
    /// `points`, skipping those off the canvas.
    pub fn plot_points(&mut self, points: &[(isize, isize)], color: Option<Color>)
        requires
            old(self).wf(),
        ensures
            final(self).wf(),
            final(self).canvas@ == old(self).canvas@.plot_from(points@, 0, color),
    {
        let w = self.canvas.pixel_width();
        let h = self.canvas.pixel_height();
        let ghost target = old(self).canvas@.plot_from(points@, 0, color);
        let mut i: usize = 0;
        while i < points.len()
            invariant
                self.wf(),
                w == self.canvas@.pixel_width(),
                h == self.canvas@.pixel_height(),
                i <= points@.len(),
                self.canvas@.plot_from(points@, i as int, color) == target,
            decreases points@.len() - i,
        {
            let (px, py) = points[i];
            if px >= 0 && py >= 0 && (px as usize) < w && (py as usize) < h {
                self.canvas.set_pixel(px as usize, py as usize, color);
            }
            i = i + 1;
        }
    }

    fn draw_link(&mut self, a: Option<(isize, isize)>, b: Option<(isize, isize)>, color: Option<Color>)
        requires
            old(self).wf(),
        ensures
            final(self).wf(),
            final(self).canvas@ == old(self).canvas@.link(a, b, color),
    {
        if let (Some(p), Some(q)) = (a, b) {
            self.canvas.line(p.0, p.1, q.0, q.1, color);
        }
    }

    /// Line chart in device space: a cartesian segment between each pair of
    /// consecutive points; an absent point breaks the line on both sides.
    pub fn polyline(&mut self, points: &[Option<(isize, isize)>], color: Option<Color>)
        requires
            old(self).wf(),
        ensures
            final(self).wf(),
            final(self).canvas@ == old(self).canvas@.polyline_from(points@, 0, color),
    {
        let ghost target = old(self).canvas@.polyline_from(points@, 0, color);
        let n = points.len();
        if n < 2 {
            return ;
        }
        let mut i: usize = 0;
        while i < n - 1
            invariant
                self.wf(),
                n == points@.len(),
                n >= 2,
                i <= n - 1,
                self.canvas@.polyline_from(points@, i as int, color) == target,
            decreases n - i,
        {
            self.draw_link(points[i], points[i + 1], color);
            i = i + 1;
        }
    }

    /// Polygon outline in device space: a cartesian segment from each vertex
    /// to the next and from the last back to the first; fewer than two
    /// vertices draw nothing.
    pub fn closed_polyline(&mut self, vertices: &[Option<(isize, isize)>], color: Option<Color>)
        requires
            old(self).wf(),
        ensures
            final(self).wf(),
            final(self).canvas@ == (if vertices@.len() < 2 {
                old(self).canvas@
            } else {
                old(self).canvas@.polygon_from(vertices@, 0, color)
            }),
    {
        let n = vertices.len();
        if n < 2 {
            return ;
        }
        let ghost target = old(self).canvas@.polygon_from(vertices@, 0, color);
        let mut i: usize = 0;
        while i < n
            invariant
                self.wf(),
                n == vertices@.len(),
                n >= 2,
                i <= n,
                self.canvas@.polygon_from(vertices@, i as int, color) == target,
            decreases n - i,
        {
            let j = if i + 1 < n {
                i + 1
            } else {
                0
            };
            proof {
                if i + 1 < n {
                    lemma_small_mod((i + 1) as nat, n as nat);
                } else {
                    lemma_mod_self_0(n as int);
                }
            }
            assert(j == (i + 1) % (n as int));
            self.draw_link(vertices[i], vertices[j], color);
            i = i + 1;
        }
    }

    /// Bar chart in device space: `bars[k]` holds the height in pixels of
    /// bar `k` (absent: no bar) and its color. Each of the `n` bars is
    /// `max(pixel_width / n, 1)` columns wide from column `k * width`, cut at
    /// the right edge, and rises from row 0 to its height capped at the
    /// canvas height; bars starting past the right edge are not drawn.
    pub fn bars(&mut self, bars: &[(Option<usize>, Option<Color>)])
        requires
            old(self).wf(),
        ensures
            final(self).wf(),
            final(self).canvas@ == (if bars@.len() == 0 {
                old(self).canvas@
            } else {
                old(self).canvas@.bars_from(
                    bars@,
                    0,
                    bar_width(old(self).canvas@.pixel_width(), bars@.len() as int),
                )
            }),
    {
        let n = bars.len();
        if n == 0 {
            return ;
        }
        let w = self.canvas.pixel_width();
        let h = self.canvas.pixel_height();
        let bw = if w / n > 1 {
            w / n
        } else {
            1
        };
        assert(bw <= w || w == 0) by {
            vstd::arithmetic::div_mod::lemma_div_is_ordered_by_denominator(w as int, 1, n as int);
        }
        let ghost target = old(self).canvas@.bars_from(bars@, 0, bw as int);
        let mut i: usize = 0;
        let mut x_start: usize = 0;
        while i < n
            invariant_except_break
                self.canvas@.bars_from(bars@, i as int, bw as int) == target,
            invariant
                self.wf(),
                n == bars@.len(),
                w == self.canvas@.pixel_width(),
                h == self.canvas@.pixel_height(),
                w <= isize::MAX,
                h <= isize::MAX,
                1 <= bw,
                bw <= w || w == 0,
                i <= n,
                x_start == i * bw,
            ensures
                self.wf(),
                self.canvas@ == target,
            decreases n - i,
        {
            if x_start >= w {
                proof {
                    lemma_bars_past_edge(self.canvas@, bars@, i as int, bw as int);
                }
                break ;
            }
            let (value, color) = bars[i];
            if let Some(hgt) = value {
                let bar_height = if hgt < h {
                    hgt
                } else {
                    h
                };
                let x_end = if x_start + bw < w {
                    x_start + bw
                } else {
                    w
                };
                let ghost inner = self.canvas@.bar_columns(
                    x_start as int,
                    x_end as int,
                    bar_height as int,
                    color,
                );
                let mut x = x_start;
                while x < x_end
                    invariant
                        self.wf(),
                        w == self.canvas@.pixel_width(),
                        h == self.canvas@.pixel_height(),
                        x_start <= x <= x_end,
                        x_end <= w,
                        w <= isize::MAX,
                        bar_height <= h,
                        h <= isize::MAX,
                        self.canvas@.bar_columns(x as int, x_end as int, bar_height as int, color)
                            == inner,
                    decreases x_end - x,
                {
                    self.canvas.line(x as isize, 0, x as isize, bar_height as isize, color);
                    x = x + 1;
                }
            }
            assert((i + 1) * bw == i * bw + bw) by (nonlinear_arith);
            x_start = x_start + bw;
            i = i + 1;
        }
    }

    /// Text in cell space: the characters of `text` from cell column `col`
    /// of cell row `row` (counted from the bottom) rightward, one per cell,
    /// cut at the right edge.
    pub fn text_at(&mut self, col: usize, row: usize, text: &str, color: Option<Color>)
        requires
            old(self).wf(),
        ensures
            final(self).wf(),
            final(self).canvas@ == old(self).canvas@.text_from(col as int, row as int, text@, 0, color),
    {
        let n = text.unicode_len();
        let w = self.canvas.width();
        let ghost target = old(self).canvas@.text_from(col as int, row as int, text@, 0, color);
        let mut i: usize = 0;
        while i < n
            invariant_except_break
                self.canvas@.text_from(col as int, row as int, text@, i as int, color) == target,
            invariant
                self.wf(),
                n == text@.len(),
                w == self.canvas@.width,
                i <= n,
            ensures
                self.wf(),
                self.canvas@ == target,
            decreases n - i,
        {
            if col >= w || i >= w - col {
                proof {
                    lemma_text_past_edge(self.canvas@, col as int, row as int, text@, i as int, color);
                }
                break ;
            }
            self.canvas.set_char(col + i, row, text.get_char(i), color);
            i = i + 1;
        }
    }

    /// Pie chart wedge boundaries in device space: a cartesian segment from
    /// the center pixel to the center plus each offset, in that offset's color.
    pub fn spokes(&mut self, offsets: &[(isize, isize, Option<Color>)])
        requires
            old(self).wf(),
            forall|k: int|
                0 <= k < offsets@.len() ==> -(isize::MAX / 2) <= #[trigger] offsets@[k].0 <= isize::MAX
                    / 2 && -(isize::MAX / 2) <= offsets@[k].1 <= isize::MAX / 2,
        ensures
            final(self).wf(),
            final(self).canvas@ == old(self).canvas@.spokes_from(offsets@, 0),
    {
        let cx = (self.canvas.pixel_width() / 2) as isize;
        let cy = (self.canvas.pixel_height() / 2) as isize;
        let ghost target = old(self).canvas@.spokes_from(offsets@, 0);
        let mut i: usize = 0;
        while i < offsets.len()
            invariant
                self.wf(),
                cx == self.canvas@.pixel_width() / 2,
                cy == self.canvas@.pixel_height() / 2,
                i <= offsets@.len(),
                forall|k: int|
                    0 <= k < offsets@.len() ==> -(isize::MAX / 2) <= #[trigger] offsets@[k].0
                        <= isize::MAX / 2 && -(isize::MAX / 2) <= offsets@[k].1 <= isize::MAX / 2,
                self.canvas@.spokes_from(offsets@, i as int) == target,
            decreases offsets@.len() - i,
        {
            let (dx, dy, color) = offsets[i];
            self.canvas.line(cx, cy, cx + dx, cy + dy, color);
            i = i + 1;
        }
    }

    /// The two axes: the left pixel column and the bottom pixel row.
    pub fn axis_lines(&mut self, color: Option<Color>)
        requires
            old(self).wf(),
        ensures
            final(self).wf(),
            final(self).canvas@ == old(self).canvas@.draw_line(
                0,
                0,
                0,
                old(self).canvas@.pixel_height() - 1,
                color,
                true,
            ).draw_line(0, 0, old(self).canvas@.pixel_width() - 1, 0, color, true),
    {
        let w = self.canvas.pixel_width() as isize;
        let h = self.canvas.pixel_height() as isize;
        self.canvas.line(0, 0, 0, h - 1, color);
        self.canvas.line(0, 0, w - 1, 0, color);
    }

    /// Grid lines dividing the canvas into `divs_x` equal columns and
    /// `divs_y` equal rows: a full-height cartesian segment at each inner
    /// column boundary, then a full-width one at each inner row boundary.
    pub fn draw_grid(&mut self, divs_x: usize, divs_y: usize, color: Option<Color>)
        requires
            old(self).wf(),
        ensures
            final(self).wf(),
            final(self).canvas@ == old(self).canvas@.grid_columns_from(1, divs_x as int, color).grid_rows_from(
                1,
                divs_y as int,
                color,
            ),
    {
        let w = self.canvas.pixel_width();
        let h = self.canvas.pixel_height();
        let ghost mid = old(self).canvas@.grid_columns_from(1, divs_x as int, color);
        let mut i: usize = 1;
        while i < divs_x
            invariant
                self.wf(),
                w == self.canvas@.pixel_width(),
                h == self.canvas@.pixel_height(),
                w <= isize::MAX,
                h <= isize::MAX,
                1 <= i,
                self.canvas@.grid_columns_from(i as int, divs_x as int, color) == mid,
            decreases divs_x - i,
        {
            let x = grid_position(i, divs_x, w);
            self.canvas.line(x as isize, 0, x as isize, h as isize, color);
            i = i + 1;
        }
        let ghost target = mid.grid_rows_from(1, divs_y as int, color);
        let mut j: usize = 1;
        while j < divs_y
            invariant
                self.wf(),
                w == self.canvas@.pixel_width(),
                h == self.canvas@.pixel_height(),
                w <= isize::MAX,
                h <= isize::MAX,
                1 <= j,
                self.canvas@.grid_rows_from(j as int, divs_y as int, color) == target,
            decreases divs_y - j,
        {
            let y = grid_position(j, divs_y, h);
            self.canvas.line(0, y as isize, w as isize, y as isize, color);
            j = j + 1;
        }
    }
}

/// Division line `i` of `divs` equal parts of `len` pixels.
fn grid_position(i: usize, divs: usize, len: usize) -> (r: usize)
    requires
        i < divs,
        len <= isize::MAX,
    ensures
        r == grid_pos(i as int, divs as int, len as int),
        r <= len,
{
    proof {
        lemma_grid_pos_bound(i as int, divs as int, len as int);
    }
    assert(2 * (i as int) * (len as int) + divs <= u128::MAX) by (nonlinear_arith)
        requires
            i < divs <= usize::MAX,
            len <= isize::MAX,
    ;
    let n: u128 = 2 * (i as u128) * (len as u128) + divs as u128;
    (n / (2 * divs as u128)) as usize
}

} // verus!
