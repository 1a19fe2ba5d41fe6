//! The pixel canvas: a grid of character cells, each holding a 2x4 block of
//! Braille dots, an optional color and an optional text character.

use crate::color::{Color, ColorBlend};
use crate::geometry::{
    abs, between, boundary_point, clip, in_rect, lemma_clip_step, lemma_code_pair, lemma_inv_between,
    lemma_outcode, lemma_walk_start, lemma_walk_step, walk_move, line_points, outcode, scaled, walk, walk_inv,
};
use vstd::prelude::*;

verus! {

/// The bit of a cell mask that stands for dot column `sx` (0 or 1) and dot
/// row `sy` (0 to 3), as in the Unicode Braille Patterns block.
pub open spec fn dot_bit(sx: int, sy: int) -> u8 {
    if sx == 0 {
        if sy == 0 {
            0x01
        } else if sy == 1 {
            0x02
        } else if sy == 2 {
            0x04
        } else {
            0x40
        }
    } else {
        if sy == 0 {
            0x08
        } else if sy == 1 {
            0x10
        } else if sy == 2 {
            0x20
        } else {
            0x80
        }
    }
}

/// The largest circle radius: the midpoint decision value then fits a machine word.
pub const MAX_RADIUS: isize = 0x4000_0000;

/// A center that keeps every span endpoint of a radius-`r` circle representable.
pub open spec fn center_fits(c: int, r: int) -> bool {
    isize::MIN + abs(r) + 2 <= c <= isize::MAX - abs(r) - 2
}

/// Cell dimensions whose pixel dimensions and cell count fit machine words.
pub open spec fn dims_fit(width: int, height: int) -> bool {
    &&& 0 <= width
    &&& 0 <= height
    &&& width * height <= usize::MAX
    &&& 2 * width <= isize::MAX
    &&& 4 * height <= isize::MAX
}

/// The abstract state of a canvas.
pub struct CanvasModel {
    pub width: nat,
    pub height: nat,
    pub blend: ColorBlend,
    pub masks: Seq<u8>,
    pub colors: Seq<Option<Color>>,
    pub text: Seq<Option<char>>,
}

impl CanvasModel {
    pub open spec fn cells(self) -> int {
        (self.width * self.height) as int
    }

    pub open spec fn pixel_width(self) -> int {
        (2 * self.width) as int
    }

    pub open spec fn pixel_height(self) -> int {
        (4 * self.height) as int
    }

    pub open spec fn well_formed(self) -> bool {
        &&& dims_fit(self.width as int, self.height as int)
        &&& self.masks.len() == self.cells()
        &&& self.colors.len() == self.cells()
        &&& self.text.len() == self.cells()
    }

    /// `(px, py)` is a pixel of the canvas, in either coordinate system.
    pub open spec fn in_pixels(self, px: int, py: int) -> bool {
        0 <= px < self.pixel_width() && 0 <= py < self.pixel_height()
    }

    /// The index of the cell that holds screen pixel `(px, py)`.
    pub open spec fn cell_of(self, px: int, py: int) -> int {
        (py / 4) * self.width + px / 2
    }

    /// The screen row of cartesian row `y` (and the other way round).
    pub open spec fn flip(self, y: int) -> int {
        self.pixel_height() - 1 - y
    }

    /// Lights screen pixel `(px, py)`, storing `color` as the blend mode says.
    pub open spec fn set_screen(self, px: int, py: int, color: Option<Color>) -> CanvasModel {
        if !self.in_pixels(px, py) {
            self
        } else {
            let i = self.cell_of(px, py);
            CanvasModel {
                masks: self.masks.update(i, self.masks[i] | dot_bit(px % 2, py % 4)),
                colors: match color {
                    None => self.colors,
                    Some(c) => if self.blend == ColorBlend::Overwrite || self.colors[i] is None {
                        self.colors.update(i, Some(c))
                    } else {
                        self.colors
                    },
                },
                ..self
            }
        }
    }

    /// Darkens screen pixel `(px, py)`; a cell left without dots loses its color.
    pub open spec fn unset_screen(self, px: int, py: int) -> CanvasModel {
        if !self.in_pixels(px, py) {
            self
        } else {
            let i = self.cell_of(px, py);
            let m = self.masks[i] & !dot_bit(px % 2, py % 4);
            CanvasModel {
                masks: self.masks.update(i, m),
                colors: if m == 0 {
                    self.colors.update(i, None)
                } else {
                    self.colors
                },
                ..self
            }
        }
    }

    /// Whether screen pixel `(px, py)` is lit.
    pub open spec fn is_lit(self, px: int, py: int) -> bool {
        self.in_pixels(px, py) && self.masks[self.cell_of(px, py)] & dot_bit(px % 2, py % 4)
            != 0
    }

    /// Flips screen pixel `(px, py)`: a lit one is unset, a dark one is set.
    pub open spec fn toggle_screen(self, px: int, py: int, color: Option<Color>) -> CanvasModel {
        if self.is_lit(px, py) {
            self.unset_screen(px, py)
        } else {
            self.set_screen(px, py, color)
        }
    }

    /// Lights cartesian pixel `(x, y)` (origin at the bottom left).
    pub open spec fn set_cart(self, x: int, y: int, color: Option<Color>) -> CanvasModel {
        self.set_screen(x, self.flip(y), color)
    }

    /// Darkens cartesian pixel `(x, y)`.
    pub open spec fn unset_cart(self, x: int, y: int) -> CanvasModel {
        self.unset_screen(x, self.flip(y))
    }

    /// Lights one pixel in the chosen coordinate system.
    pub open spec fn set_at(self, x: int, y: int, color: Option<Color>, cartesian: bool) -> CanvasModel {
        if cartesian {
            self.set_cart(x, y, color)
        } else {
            self.set_screen(x, y, color)
        }
    }

    /// Lights every pixel of `pts`, in order.
    pub open spec fn set_all(self, pts: Seq<(int, int)>, color: Option<Color>, cartesian: bool) -> CanvasModel
        decreases pts.len(),
    {
        if pts.len() == 0 {
            self
        } else {
            self.set_at(pts[0].0, pts[0].1, color, cartesian).set_all(pts.drop_first(), color, cartesian)
        }
    }

    /// Draws segment `(x0, y0)-(x1, y1)`, clipped to the canvas.
    pub open spec fn draw_line(
        self,
        x0: int,
        y0: int,
        x1: int,
        y1: int,
        color: Option<Color>,
        cartesian: bool,
    ) -> CanvasModel {
        self.set_all(
            line_points(x0, y0, x1, y1, self.pixel_width(), self.pixel_height()),
            color,
            cartesian,
        )
    }

    /// The outline of the `w` by `h` screen rectangle with top-left corner `(x, y)`.
    pub open spec fn draw_rect(self, x: int, y: int, w: int, h: int, color: Option<Color>) -> CanvasModel {
        let x1 = x + w - 1;
        let y1 = y + h - 1;
        self.draw_line(x, y, x1, y, color, false).draw_line(x1, y, x1, y1, color, false).draw_line(
            x1,
            y1,
            x,
            y1,
            color,
            false,
        ).draw_line(x, y1, x, y, color, false)
    }

    /// Screen rows `y` to `y + n - 1`, each a segment from column `x0` to `x1`.
    pub open spec fn fill_rows(self, x0: int, x1: int, y: int, n: nat, color: Option<Color>) -> CanvasModel
        decreases n,
    {
        if n == 0 {
            self
        } else {
            self.draw_line(x0, y, x1, y, color, false).fill_rows(x0, x1, y + 1, (n - 1) as nat, color)
        }
    }

    /// The eight pixels symmetric to offset `(x, y)` around center `(cx, cy)`,
    /// in cartesian coordinates.
    pub open spec fn plot_octants(self, cx: int, cy: int, x: int, y: int, color: Option<Color>) -> CanvasModel {
        self.set_cart(cx + x, cy + y, color).set_cart(cx - x, cy + y, color).set_cart(
            cx + x,
            cy - y,
            color,
        ).set_cart(cx - x, cy - y, color).set_cart(cx + y, cy + x, color).set_cart(
            cx - y,
            cy + x,
            color,
        ).set_cart(cx + y, cy - x, color).set_cart(cx - y, cy - x, color)
    }

    /// The four horizontal cartesian spans between the symmetric pixels of
    /// offset `(x, y)` around center `(cx, cy)`.
    pub open spec fn plot_spans(self, cx: int, cy: int, x: int, y: int, color: Option<Color>) -> CanvasModel {
        self.draw_line(cx - x, cy + y, cx + x, cy + y, color, true).draw_line(
            cx - x,
            cy - y,
            cx + x,
            cy - y,
            color,
            true,
        ).draw_line(cx - y, cy + x, cx + y, cy + x, color, true).draw_line(
            cx - y,
            cy - x,
            cx + y,
            cy - x,
            color,
            true,
        )
    }

    /// The rest of a midpoint circle from octant offset `(x, y)` with decision
    /// value `d`: pixels (`filled` false) or spans (`filled` true) for each
    /// later offset.
    pub open spec fn circle_from(
        self,
        cx: int,
        cy: int,
        x: int,
        y: int,
        d: int,
        color: Option<Color>,
        filled: bool,
    ) -> CanvasModel
        decreases y - x + 2,
    {
        if y >= x {
            let nx = x + 1;
            let ny = if d > 0 { y - 1 } else { y };
            let nd = if d > 0 { d + 4 * (nx - ny) + 10 } else { d + 4 * nx + 6 };
            let next = if filled {
                self.plot_spans(cx, cy, nx, ny, color)
            } else {
                self.plot_octants(cx, cy, nx, ny, color)
            };
            next.circle_from(cx, cy, nx, ny, nd, color, filled)
        } else {
            self
        }
    }

    /// A midpoint circle of radius `r` around cartesian `(cx, cy)`: its
    /// outline, or with `filled` its interior spans.
    pub open spec fn draw_circle(self, cx: int, cy: int, r: int, color: Option<Color>, filled: bool) -> CanvasModel {
        let first = if filled {
            self.plot_spans(cx, cy, 0, r, color)
        } else {
            self.plot_octants(cx, cy, 0, r, color)
        };
        first.circle_from(cx, cy, 0, r, 3 - 2 * r, color, filled)
    }

    /// A canvas of `width` by `height` empty cells that blends by overwrite.
    pub open spec fn blank(width: nat, height: nat) -> CanvasModel {
        CanvasModel {
            width,
            height,
            blend: ColorBlend::Overwrite,
            masks: Seq::new(width * height, |i: int| 0u8),
            colors: Seq::new(width * height, |i: int| None),
            text: Seq::new(width * height, |i: int| None),
        }
    }

    /// All cells empty: no dots, no colors, no text.
    pub open spec fn cleared(self) -> CanvasModel {
        CanvasModel {
            masks: Seq::new(self.cells() as nat, |i: int| 0u8),
            colors: Seq::new(self.cells() as nat, |i: int| None),
            text: Seq::new(self.cells() as nat, |i: int| None),
            ..self
        }
    }

    /// Places character `c` in cell column `col` of cell row `row`, counted
    /// from the bottom; a given color replaces the cell's color.
    pub open spec fn with_char(self, col: int, row: int, c: char, color: Option<Color>) -> CanvasModel {
        if 0 <= col < self.width && 0 <= row < self.height {
            let i = (self.height - 1 - row) * self.width + col;
            CanvasModel {
                text: self.text.update(i, Some(c)),
                colors: match color {
                    Some(k) => self.colors.update(i, Some(k)),
                    None => self.colors,
                },
                ..self
            }
        } else {
            self
        }
    }
}

/// Lighting pixels never changes the dimensions or the blend mode.
pub proof fn lemma_set_all_keeps_shape(m: CanvasModel, pts: Seq<(int, int)>, color: Option<Color>, cartesian: bool)
    ensures
        m.set_all(pts, color, cartesian).width == m.width,
        m.set_all(pts, color, cartesian).height == m.height,
        m.set_all(pts, color, cartesian).blend == m.blend,
    decreases pts.len(),
{
    if pts.len() > 0 {
        lemma_set_all_keeps_shape(m.set_at(pts[0].0, pts[0].1, color, cartesian), pts.drop_first(), color, cartesian);
    }
}

pub proof fn lemma_cell_index(width: int, height: int, col: int, row: int)
    requires
        0 <= col < width,
        0 <= row < height,
    ensures
        0 <= row * width + col < width * height,
{
    assert(0 <= row * width) by (nonlinear_arith)
        requires
            0 <= row,
            0 <= width,
    ;
    assert(row * width + col < width * height) by (nonlinear_arith)
        requires
            0 <= col < width,
            0 <= row < height,
    ;
}

/// The cell of a pixel lies on the canvas.
pub proof fn lemma_cell_of_in_range(m: CanvasModel, px: int, py: int)
    requires
        m.in_pixels(px, py),
    ensures
        0 <= m.cell_of(px, py) < m.cells(),
        0 <= px / 2 < m.width,
        0 <= py / 4 < m.height,
{
    lemma_cell_index(m.width as int, m.height as int, px / 2, py / 4);
}

/// A canvas of Braille cells with a parallel color layer and text layer.
pub struct BrailleCanvas {
    width: usize,
    height: usize,
    /// How pixel writes treat a color already stored in a cell.
    pub blend_mode: ColorBlend,
    buffer: Vec<u8>,
    colors: Vec<Option<Color>>,
    text_layer: Vec<Option<char>>,
}

impl View for BrailleCanvas {
    type V = CanvasModel;

    closed spec fn view(&self) -> CanvasModel {
        CanvasModel {
            width: self.width as nat,
            height: self.height as nat,
            blend: self.blend_mode,
            masks: self.buffer@,
            colors: self.colors@,
            text: self.text_layer@,
        }
    }
}

impl BrailleCanvas {
    pub open spec fn wf(&self) -> bool {
        self@.well_formed()
    }

    /// An empty canvas of `width` by `height` cells, blending by overwrite.
    pub fn new(width: usize, height: usize) -> (r: BrailleCanvas)
        requires
            dims_fit(width as int, height as int),
        ensures
            r.wf(),
            r@ == CanvasModel::blank(width as nat, height as nat),
    {
        let size = width * height;
        let mut buffer: Vec<u8> = Vec::new();
        let mut colors: Vec<Option<Color>> = Vec::new();
        let mut text_layer: Vec<Option<char>> = Vec::new();
        let mut i: usize = 0;
        while i < size
            invariant
                i <= size,
                buffer@ == Seq::new(i as nat, |k: int| 0u8),
                colors@ == Seq::new(i as nat, |k: int| None::<Color>),
                text_layer@ == Seq::new(i as nat, |k: int| None::<char>),
            decreases size - i,
        {
            buffer.push(0);
            colors.push(None);
            text_layer.push(None);
            i = i + 1;
            assert(buffer@ =~= Seq::new(i as nat, |k: int| 0u8));
            assert(colors@ =~= Seq::new(i as nat, |k: int| None::<Color>));
            assert(text_layer@ =~= Seq::new(i as nat, |k: int| None::<char>));
        }
        BrailleCanvas {
            width,
            height,
            blend_mode: ColorBlend::Overwrite,
            buffer,
            colors,
            text_layer,
        }
    }

    /// Width in cells.
    pub fn width(&self) -> (r: usize)
        ensures
            r == self@.width,
    {
        self.width
    }

    /// Height in cells.
    pub fn height(&self) -> (r: usize)
        ensures
            r == self@.height,
    {
        self.height
    }

    /// Width in pixels: two dot columns per cell.
    pub fn pixel_width(&self) -> (r: usize)
        requires
            self.wf(),
        ensures
            r == self@.pixel_width(),
    {
        self.width * 2
    }

    /// Height in pixels: four dot rows per cell.
    pub fn pixel_height(&self) -> (r: usize)
        requires
            self.wf(),
        ensures
            r == self@.pixel_height(),
    {
        self.height * 4
    }

    /// The dot mask of cell `i` in reading order.
    pub fn mask_at(&self, i: usize) -> (r: u8)
        requires
            i < self@.masks.len(),
        ensures
            r == self@.masks[i as int],
    {
        self.buffer[i]
    }

    /// The color of cell `i` in reading order.
    pub fn color_at(&self, i: usize) -> (r: Option<Color>)
        requires
            i < self@.colors.len(),
        ensures
            r == self@.colors[i as int],
    {
        self.colors[i]
    }

    /// The text override of cell `i` in reading order.
    pub fn char_at(&self, i: usize) -> (r: Option<char>)
        requires
            i < self@.text.len(),
        ensures
            r == self@.text[i as int],
    {
        self.text_layer[i]
    }

    /// Empties every cell in place, keeping the dimensions.
    pub fn clear(&mut self)
        requires
            old(self).wf(),
        ensures
            final(self).wf(),
            final(self)@ == old(self)@.cleared(),
    {
        let n = self.buffer.len();
        let mut i: usize = 0;
        while i < n
            invariant
                self.wf(),
                self.width == old(self).width,
                self.height == old(self).height,
                self.blend_mode == old(self).blend_mode,
                n == self.buffer@.len(),
                i <= n,
                forall|k: int| 0 <= k < i ==> self.buffer@[k] == 0u8,
                forall|k: int| 0 <= k < i ==> self.colors@[k] == None::<Color>,
                forall|k: int| 0 <= k < i ==> self.text_layer@[k] == None::<char>,
            decreases n - i,
        {
            self.buffer.set(i, 0);
            self.colors.set(i, None);
            self.text_layer.set(i, None);
            i = i + 1;
        }
        assert(self@.masks =~= old(self)@.cleared().masks);
        assert(self@.colors =~= old(self)@.cleared().colors);
        assert(self@.text =~= old(self)@.cleared().text);
    }

    /// The index of cell (`col`, `row`), rows counted from the top.
    fn idx(&self, col: usize, row: usize) -> (r: usize)
        requires
            self.wf(),
            col < self.width,
            row < self.height,
        ensures
            r == row * self.width + col,
            r < self@.cells(),
    {
        proof {
            lemma_cell_index(self.width as int, self.height as int, col as int, row as int);
        }
        row * self.width + col
    }

    /// The mask bit of dot column `sub_x` and dot row `sub_y`.
    fn get_mask(sub_x: usize, sub_y: usize) -> (r: u8)
        requires
            sub_x < 2,
            sub_y < 4,
        ensures
            r == dot_bit(sub_x as int, sub_y as int),
    {
        match (sub_x, sub_y) {
            (0, 0) => 0x01,
            (1, 0) => 0x08,
            (0, 1) => 0x02,
            (1, 1) => 0x10,
            (0, 2) => 0x04,
            (1, 2) => 0x20,
            (0, 3) => 0x40,
            _ => 0x80,
        }
    }

    fn set_pixel_impl(&mut self, px: usize, py: usize, color: Option<Color>)
        requires
            old(self).wf(),
        ensures
            final(self).wf(),
            final(self)@ == old(self)@.set_screen(px as int, py as int, color),
    {
        if px >= self.pixel_width() || py >= self.pixel_height() {
            return ;
        }
        proof {
            lemma_cell_of_in_range(self@, px as int, py as int);
        }
        let index = self.idx(px / 2, py / 4);
        let m = self.buffer[index];
        self.buffer.set(index, m | Self::get_mask(px % 2, py % 4));
        if let Some(c) = color {
            match self.blend_mode {
                ColorBlend::Overwrite => self.colors.set(index, Some(c)),
                ColorBlend::KeepFirst => {
                    if self.colors[index].is_none() {
                        self.colors.set(index, Some(c));
                    }
                },
            }
        }
        assert(self@ =~= old(self)@.set_screen(px as int, py as int, color));
    }

    fn unset_pixel_impl(&mut self, px: usize, py: usize)
        requires
            old(self).wf(),
        ensures
            final(self).wf(),
            final(self)@ == old(self)@.unset_screen(px as int, py as int),
    {
        if px >= self.pixel_width() || py >= self.pixel_height() {
            return ;
        }
        proof {
            lemma_cell_of_in_range(self@, px as int, py as int);
        }
        let index = self.idx(px / 2, py / 4);
        let m = self.buffer[index] & !Self::get_mask(px % 2, py % 4);
        self.buffer.set(index, m);
        if m == 0 {
            self.colors.set(index, None);
        }
        assert(self@ =~= old(self)@.unset_screen(px as int, py as int));
    }

    /// Lights cartesian pixel `(x, y)`; pixels off the canvas are ignored.
    pub fn set_pixel(&mut self, x: usize, y: usize, color: Option<Color>)
        requires
            old(self).wf(),
        ensures
            final(self).wf(),
            final(self)@ == old(self)@.set_cart(x as int, y as int, color),
    {
        let h = self.pixel_height();
        if y >= h {
            return ;
        }
        self.set_pixel_impl(x, h - 1 - y, color);
    }

    /// Lights screen pixel `(x, y)`; pixels off the canvas are ignored.
    pub fn set_pixel_screen(&mut self, x: usize, y: usize, color: Option<Color>)
        requires
            old(self).wf(),
        ensures
            final(self).wf(),
            final(self)@ == old(self)@.set_screen(x as int, y as int, color),
    {
        self.set_pixel_impl(x, y, color);
    }

    /// Darkens cartesian pixel `(x, y)`; pixels off the canvas are ignored.
    pub fn unset_pixel(&mut self, x: usize, y: usize)
        requires
            old(self).wf(),
        ensures
            final(self).wf(),
            final(self)@ == old(self)@.unset_cart(x as int, y as int),
    {
        let h = self.pixel_height();
        if y >= h {
            return ;
        }
        self.unset_pixel_impl(x, h - 1 - y);
    }

    /// Darkens screen pixel `(x, y)`; pixels off the canvas are ignored.
    pub fn unset_pixel_screen(&mut self, x: usize, y: usize)
        requires
            old(self).wf(),
        ensures
            final(self).wf(),
            final(self)@ == old(self)@.unset_screen(x as int, y as int),
    {
        self.unset_pixel_impl(x, y);
    }

    /// Flips screen pixel `(x, y)`: a lit pixel is darkened, a dark one is
    /// lit with `color`.
    pub fn toggle_pixel_screen(&mut self, x: usize, y: usize, color: Option<Color>)
        requires
            old(self).wf(),
        ensures
            final(self).wf(),
            final(self)@ == old(self)@.toggle_screen(x as int, y as int, color),
    {
        if x >= self.pixel_width() || y >= self.pixel_height() {
            return ;
        }
        proof {
            lemma_cell_of_in_range(self@, x as int, y as int);
        }
        let index = self.idx(x / 2, y / 4);
        let mask = Self::get_mask(x % 2, y % 4);
        if (self.buffer[index] & mask) != 0 {
            self.unset_pixel_impl(x, y);
        } else {
            self.set_pixel_impl(x, y, color);
        }
    }

    /// Writes character `c` over cell (`col`, `row`), rows counted from the
    /// bottom; the character replaces the cell's dots when rendered. A given
    /// color replaces the cell's color. Cells off the canvas are ignored.
    pub fn set_char(&mut self, col: usize, row: usize, c: char, color: Option<Color>)
        requires
            old(self).wf(),
        ensures
            final(self).wf(),
            final(self)@ == old(self)@.with_char(col as int, row as int, c, color),
    {
        if col < self.width && row < self.height {
            let idx = self.idx(col, self.height - 1 - row);
            self.text_layer.set(idx, Some(c));
            if let Some(col_val) = color {
                self.colors.set(idx, Some(col_val));
            }
        }
        assert(self@ =~= old(self)@.with_char(col as int, row as int, c, color));
    }

    /// Lights one pixel in the chosen coordinate system.
    fn plot(&mut self, x: usize, y: usize, color: Option<Color>, cartesian: bool)
        requires
            old(self).wf(),
        ensures
            final(self).wf(),
            final(self)@ == old(self)@.set_at(x as int, y as int, color, cartesian),
    {
        if cartesian {
            self.set_pixel(x, y, color);
        } else {
            self.set_pixel_screen(x, y, color);
        }
    }

    /// The region code of `(x, y)` relative to the pixel rectangle.
    fn compute_outcode(&self, x: i128, y: i128) -> (r: u8)
        requires
            self.wf(),
        ensures
            r == outcode(x as int, y as int, self@.pixel_width(), self@.pixel_height()),
    {
        let w = self.pixel_width() as i128;
        let h = self.pixel_height() as i128;
        let horizontal: u8 = if x < 0 {
            1
        } else if x >= w {
            2
        } else {
            0
        };
        let vertical: u8 = if y < 0 {
            4
        } else if y >= h {
            8
        } else {
            0
        };
        horizontal | vertical
    }

    /// Clips segment `(x0, y0)-(x1, y1)` to the pixel rectangle, then lights
    /// every pixel the stepper visits on what is left, in screen or
    /// cartesian coordinates.
    fn bresenham(
        &mut self,
        x0: i128,
        y0: i128,
        x1: i128,
        y1: i128,
        color: Option<Color>,
        cartesian: bool,
    )
        requires
            old(self).wf(),
            isize::MIN <= x0 <= isize::MAX,
            isize::MIN <= y0 <= isize::MAX,
            isize::MIN <= x1 <= isize::MAX,
            isize::MIN <= y1 <= isize::MAX,
        ensures
            final(self).wf(),
            final(self)@ == old(self)@.set_all(
                line_points(
                    x0 as int,
                    y0 as int,
                    x1 as int,
                    y1 as int,
                    old(self)@.pixel_width(),
                    old(self)@.pixel_height(),
                ),
                color,
                cartesian,
            ),
    {
        let w = self.pixel_width() as i128;
        let h = self.pixel_height() as i128;
        let ghost target = old(self)@.set_all(
            line_points(x0 as int, y0 as int, x1 as int, y1 as int, w as int, h as int),
            color,
            cartesian,
        );
        let ghost whole = clip(x0 as int, y0 as int, x1 as int, y1 as int, w as int, h as int);
        let ghost ends = (x0 as int, y0 as int, x1 as int, y1 as int);
        let mut x0 = x0;
        let mut y0 = y0;
        let mut x1 = x1;
        let mut y1 = y1;
        let mut outcode0 = self.compute_outcode(x0, y0);
        let mut outcode1 = self.compute_outcode(x1, y1);
        loop
            invariant
                self.wf(),
                self@ == old(self)@,
                w == self@.pixel_width(),
                h == self@.pixel_height(),
                isize::MIN <= x0 <= isize::MAX,
                isize::MIN <= y0 <= isize::MAX,
                isize::MIN <= x1 <= isize::MAX,
                isize::MIN <= y1 <= isize::MAX,
                outcode0 == outcode(x0 as int, y0 as int, w as int, h as int),
                outcode1 == outcode(x1 as int, y1 as int, w as int, h as int),
                clip(x0 as int, y0 as int, x1 as int, y1 as int, w as int, h as int) == whole,
                whole == clip(ends.0, ends.1, ends.2, ends.3, w as int, h as int),
                target == old(self)@.set_all(
                    line_points(ends.0, ends.1, ends.2, ends.3, w as int, h as int),
                    color,
                    cartesian,
                ),
            ensures
                (outcode0 | outcode1) == 0 || (outcode0 & outcode1) != 0,
            decreases abs(x1 - x0) + abs(y1 - y0),
        {
            proof {
                lemma_outcode(x0 as int, y0 as int, w as int, h as int);
                lemma_outcode(x1 as int, y1 as int, w as int, h as int);
                lemma_code_pair(outcode0, outcode1);
            }
            if (outcode0 | outcode1) == 0 {
                break ;
            } else if (outcode0 & outcode1) != 0 {
                break ;
            }
            let outcode_out = if outcode0 != 0 {
                outcode0
            } else {
                outcode1
            };
            proof {
                lemma_clip_step(x0 as int, y0 as int, x1 as int, y1 as int, w as int, h as int);
                lemma_code_pair(outcode_out, outcode_out);
            }
            let ghost p = boundary_point(
                outcode_out,
                x0 as int,
                y0 as int,
                x1 as int,
                y1 as int,
                w as int,
                h as int,
            );
            let x: i128;
            let y: i128;
            if outcode_out & 8 != 0 {
                x = x0 + scaled(x1 - x0, h - 1 - y0, y1 - y0);
                y = h - 1;
            } else if outcode_out & 4 != 0 {
                x = x0 + scaled(x1 - x0, 0 - y0, y1 - y0);
                y = 0;
            } else if outcode_out & 2 != 0 {
                y = y0 + scaled(y1 - y0, w - 1 - x0, x1 - x0);
                x = w - 1;
            } else {
                y = y0 + scaled(y1 - y0, 0 - x0, x1 - x0);
                x = 0;
            }
            assert(x == p.0 && y == p.1);
            if outcode0 != 0 {
                x0 = x;
                y0 = y;
                outcode0 = self.compute_outcode(x0, y0);
            } else {
                x1 = x;
                y1 = y;
                outcode1 = self.compute_outcode(x1, y1);
            }
        }
        proof {
            lemma_outcode(x0 as int, y0 as int, w as int, h as int);
            lemma_outcode(x1 as int, y1 as int, w as int, h as int);
            lemma_code_pair(outcode0, outcode1);
        }
        if (outcode0 | outcode1) != 0 {
            proof {
                assert(whole is None);
                assert(line_points(ends.0, ends.1, ends.2, ends.3, w as int, h as int) =~= Seq::empty());
                assert(old(self)@.set_all(Seq::empty(), color, cartesian) == old(self)@);
            }
            return ;
        }
        assert(whole == Some((x0 as int, y0 as int, x1 as int, y1 as int)));
        let dx: i128 = if x1 >= x0 {
            x1 - x0
        } else {
            x0 - x1
        };
        let dy: i128 = if y1 >= y0 {
            y0 - y1
        } else {
            y1 - y0
        };
        let mut err: i128 = dx + dy;
        let mut x = x0;
        let mut y = y0;
        let ghost mut fuel: nat = (dx - dy) as nat;
        proof {
            lemma_walk_start(x0 as int, y0 as int, x1 as int, y1 as int);
        }
        loop
            invariant_except_break
                self@.set_all(
                    walk(x0 as int, y0 as int, x1 as int, y1 as int, x as int, y as int, err as int, fuel),
                    color,
                    cartesian,
                ) == target,
            invariant
                self.wf(),
                self@.width == old(self)@.width,
                self@.height == old(self)@.height,
                w == self@.pixel_width(),
                h == self@.pixel_height(),
                in_rect(x0 as int, y0 as int, w as int, h as int),
                in_rect(x1 as int, y1 as int, w as int, h as int),
                walk_inv(x0 as int, y0 as int, x1 as int, y1 as int, x as int, y as int, err as int),
                fuel >= abs(x1 - x) + abs(y1 - y),
            ensures
                self.wf(),
                self@ == target,
            decreases abs(x1 - x) + abs(y1 - y),
        {
            proof {
                lemma_inv_between(x0 as int, y0 as int, x1 as int, y1 as int, x as int, y as int, err as int);
            }
            self.plot(x as usize, y as usize, color, cartesian);
            let ghost pts = walk(x0 as int, y0 as int, x1 as int, y1 as int, x as int, y as int, err as int, fuel);
            if x == x1 && y == y1 {
                assert(pts.drop_first() =~= Seq::<(int, int)>::empty());
                assert(self@.set_all(Seq::empty(), color, cartesian) == self@);
                break ;
            }
            proof {
                lemma_walk_step(x0 as int, y0 as int, x1 as int, y1 as int, x as int, y as int, err as int);
            }
            let (nx, ny, nerr) = walk_move(x0, y0, x1, y1, x, y, err);
            x = nx;
            y = ny;
            err = nerr;
            proof {
                fuel = (fuel - 1) as nat;
                assert(pts.drop_first() =~= walk(x0 as int, y0 as int, x1 as int, y1 as int, x as int, y as int, err as int, fuel));
            }
        }
    }

    /// Draws a segment in cartesian coordinates, clipped to the canvas.
    pub fn line(&mut self, x0: isize, y0: isize, x1: isize, y1: isize, color: Option<Color>)
        requires
            old(self).wf(),
        ensures
            final(self).wf(),
            final(self)@ == old(self)@.draw_line(x0 as int, y0 as int, x1 as int, y1 as int, color, true),
            final(self)@.width == old(self)@.width,
            final(self)@.height == old(self)@.height,
    {
        proof {
            lemma_set_all_keeps_shape(
                old(self)@,
                line_points(x0 as int, y0 as int, x1 as int, y1 as int, self@.pixel_width(), self@.pixel_height()),
                color,
                true,
            );
        }
        self.bresenham(x0 as i128, y0 as i128, x1 as i128, y1 as i128, color, true);
    }

    /// Draws a segment in screen coordinates, clipped to the canvas.
    pub fn line_screen(&mut self, x0: isize, y0: isize, x1: isize, y1: isize, color: Option<Color>)
        requires
            old(self).wf(),
        ensures
            final(self).wf(),
            final(self)@ == old(self)@.draw_line(x0 as int, y0 as int, x1 as int, y1 as int, color, false),
            final(self)@.width == old(self)@.width,
            final(self)@.height == old(self)@.height,
    {
        proof {
            lemma_set_all_keeps_shape(
                old(self)@,
                line_points(x0 as int, y0 as int, x1 as int, y1 as int, self@.pixel_width(), self@.pixel_height()),
                color,
                false,
            );
        }
        self.bresenham(x0 as i128, y0 as i128, x1 as i128, y1 as i128, color, false);
    }

    /// Draws the outline of the `w` by `h` screen rectangle whose top-left
    /// corner is `(x, y)`.
    pub fn rect(&mut self, x: isize, y: isize, w: usize, h: usize, color: Option<Color>)
        requires
            old(self).wf(),
            isize::MIN <= x + w - 1 <= isize::MAX,
            isize::MIN <= y + h - 1 <= isize::MAX,
        ensures
            final(self).wf(),
            final(self)@ == old(self)@.draw_rect(x as int, y as int, w as int, h as int, color),
    {
        let x1 = (x as i128 + w as i128 - 1) as isize;
        let y1 = (y as i128 + h as i128 - 1) as isize;
        self.line_screen(x, y, x1, y, color);
        self.line_screen(x1, y, x1, y1, color);
        self.line_screen(x1, y1, x, y1, color);
        self.line_screen(x, y1, x, y, color);
    }

    /// Fills the `w` by `h` screen rectangle whose top-left corner is `(x, y)`,
    /// one row at a time.
    pub fn rect_filled(&mut self, x: isize, y: isize, w: usize, h: usize, color: Option<Color>)
        requires
            old(self).wf(),
            isize::MIN <= x + w - 1 <= isize::MAX,
            y + h <= isize::MAX,
        ensures
            final(self).wf(),
            final(self)@ == old(self)@.fill_rows(x as int, x + w - 1, y as int, h as nat, color),
    {
        let x1 = (x as i128 + w as i128 - 1) as isize;
        let max_y = (y as i128 + h as i128) as isize;
        let mut cy = y;
        while cy < max_y
            invariant
                self.wf(),
                y <= cy <= max_y,
                max_y == y + h,
                x1 == x + w - 1,
                old(self)@.fill_rows(x as int, x1 as int, y as int, h as nat, color)
                    == self@.fill_rows(x as int, x1 as int, cy as int, (max_y - cy) as nat, color),
            decreases max_y - cy,
        {
            self.line_screen(x, cy, x1, cy, color);
            cy = cy + 1;
        }
    }

    /// Lights cartesian pixel `(px, py)` given as signed coordinates.
    fn plot_signed(&mut self, px: i128, py: i128, color: Option<Color>)
        requires
            old(self).wf(),
            px <= usize::MAX,
            py <= usize::MAX,
        ensures
            final(self).wf(),
            final(self)@ == old(self)@.set_cart(px as int, py as int, color),
    {
        if px >= 0 && py >= 0 {
            self.set_pixel(px as usize, py as usize, color);
        }
    }

    fn draw_octants(&mut self, cx: i128, cy: i128, x: i128, y: i128, color: Option<Color>)
        requires
            old(self).wf(),
            isize::MIN <= cx <= isize::MAX,
            isize::MIN <= cy <= isize::MAX,
            -MAX_RADIUS - 2 <= x <= MAX_RADIUS + 2,
            -MAX_RADIUS - 2 <= y <= MAX_RADIUS + 2,
        ensures
            final(self).wf(),
            final(self)@ == old(self)@.plot_octants(cx as int, cy as int, x as int, y as int, color),
    {
        self.plot_signed(cx + x, cy + y, color);
        self.plot_signed(cx - x, cy + y, color);
        self.plot_signed(cx + x, cy - y, color);
        self.plot_signed(cx - x, cy - y, color);
        self.plot_signed(cx + y, cy + x, color);
        self.plot_signed(cx - y, cy + x, color);
        self.plot_signed(cx + y, cy - x, color);
        self.plot_signed(cx - y, cy - x, color);
    }

    fn draw_spans(&mut self, cx: i128, cy: i128, x: i128, y: i128, color: Option<Color>)
        requires
            old(self).wf(),
            -MAX_RADIUS - 2 <= x <= MAX_RADIUS + 2,
            -MAX_RADIUS - 2 <= y <= MAX_RADIUS + 2,
            isize::MIN + abs(x as int) <= cx <= isize::MAX - abs(x as int),
            isize::MIN + abs(y as int) <= cx <= isize::MAX - abs(y as int),
            isize::MIN + abs(x as int) <= cy <= isize::MAX - abs(x as int),
            isize::MIN + abs(y as int) <= cy <= isize::MAX - abs(y as int),
        ensures
            final(self).wf(),
            final(self)@ == old(self)@.plot_spans(cx as int, cy as int, x as int, y as int, color),
    {
        self.bresenham(cx - x, cy + y, cx + x, cy + y, color, true);
        self.bresenham(cx - x, cy - y, cx + x, cy - y, color, true);
        self.bresenham(cx - y, cy + x, cx + y, cy + x, color, true);
        self.bresenham(cx - y, cy - x, cx + y, cy - x, color, true);
    }

    /// Draws the outline of the circle of radius `r` around cartesian
    /// `(xc, yc)` with the midpoint algorithm; pixels off the canvas are skipped.
    pub fn circle(&mut self, xc: isize, yc: isize, r: isize, color: Option<Color>)
        requires
            old(self).wf(),
            -MAX_RADIUS <= r <= MAX_RADIUS,
        ensures
            final(self).wf(),
            final(self)@ == old(self)@.draw_circle(xc as int, yc as int, r as int, color, false),
    {
        self.midpoint(xc, yc, r, color, false);
    }

    /// Fills the circle of radius `r` around cartesian `(xc, yc)` with
    /// horizontal spans between the midpoint algorithm's symmetric pixels.
    pub fn circle_filled(&mut self, xc: isize, yc: isize, r: isize, color: Option<Color>)
        requires
            old(self).wf(),
            -MAX_RADIUS <= r <= MAX_RADIUS,
            center_fits(xc as int, r as int),
            center_fits(yc as int, r as int),
        ensures
            final(self).wf(),
            final(self)@ == old(self)@.draw_circle(xc as int, yc as int, r as int, color, true),
    {
        self.midpoint(xc, yc, r, color, true);
    }

    fn midpoint(&mut self, xc: isize, yc: isize, r: isize, color: Option<Color>, filled: bool)
        requires
            old(self).wf(),
            -MAX_RADIUS <= r <= MAX_RADIUS,
            filled ==> center_fits(xc as int, r as int) && center_fits(yc as int, r as int),
        ensures
            final(self).wf(),
            final(self)@ == old(self)@.draw_circle(xc as int, yc as int, r as int, color, filled),
    {
        let cx = xc as i128;
        let cy = yc as i128;
        let rr = r as i128;
        let mut x: i128 = 0;
        let mut y: i128 = rr;
        let mut d: i128 = 3 - 2 * rr;
        self.draw_step(cx, cy, x, y, r, color, filled);
        let ghost target = old(self)@.draw_circle(xc as int, yc as int, r as int, color, filled);
        while y >= x
            invariant
                self.wf(),
                cx == xc,
                cy == yc,
                rr == r,
                -MAX_RADIUS <= r <= MAX_RADIUS,
                filled ==> center_fits(xc as int, r as int) && center_fits(yc as int, r as int),
                0 <= x <= abs(r as int) + 1,
                -abs(r as int) - 1 <= y <= abs(r as int),
                d == midpoint_value(x as int, y as int, rr as int),
                self@.circle_from(cx as int, cy as int, x as int, y as int, d as int, color, filled)
                    == target,
            decreases y - x + 2,
        {
            proof {
                lemma_midpoint_bounds(x as int, y as int, rr as int);
                lemma_midpoint_update(x as int, y as int, d as int, rr as int);
            }
            x = x + 1;
            if d > 0 {
                y = y - 1;
                d = d + 4 * (x - y) + 10;
            } else {
                d = d + 4 * x + 6;
            }
            self.draw_step(cx, cy, x, y, r, color, filled);
        }
    }

    fn draw_step(&mut self, cx: i128, cy: i128, x: i128, y: i128, r: isize, color: Option<Color>, filled: bool)
        requires
            old(self).wf(),
            -MAX_RADIUS <= r <= MAX_RADIUS,
            isize::MIN <= cx <= isize::MAX,
            isize::MIN <= cy <= isize::MAX,
            filled ==> center_fits(cx as int, r as int) && center_fits(cy as int, r as int),
            -abs(r as int) - 2 <= x <= abs(r as int) + 2,
            -abs(r as int) - 2 <= y <= abs(r as int) + 2,
        ensures
            final(self).wf(),
            final(self)@ == (if filled {
                old(self)@.plot_spans(cx as int, cy as int, x as int, y as int, color)
            } else {
                old(self)@.plot_octants(cx as int, cy as int, x as int, y as int, color)
            }),
    {
        if filled {
            self.draw_spans(cx, cy, x, y, color);
        } else {
            self.draw_octants(cx, cy, x, y, color);
        }
    }
}

/// The midpoint decision value and offsets stay small enough for `i128`.
proof fn lemma_midpoint_bounds(x: int, y: int, r: int)
    requires
        -MAX_RADIUS <= r <= MAX_RADIUS,
        0 <= x <= abs(r) + 1,
        -abs(r) - 1 <= y <= abs(r),
    ensures
        -0x1_0000_0000_0000_0000_0000 <= midpoint_value(x, y, r) <= 0x1_0000_0000_0000_0000_0000,
{
    assert(0 <= x * x <= 0x1_0000_0001 * 0x1_0000_0001) by (nonlinear_arith)
        requires
            0 <= x <= 0x1_0000_0001,
    ;
    assert(0 <= y * y <= 0x1_0000_0001 * 0x1_0000_0001) by (nonlinear_arith)
        requires
            -0x1_0000_0001 <= y <= 0x1_0000_0001,
    ;
    assert(0 <= r * r <= 0x1_0000_0001 * 0x1_0000_0001) by (nonlinear_arith)
        requires
            -0x1_0000_0001 <= r <= 0x1_0000_0001,
    ;
}

/// The midpoint decision value at octant offset `(x, y)` in closed form.
pub open spec fn midpoint_value(x: int, y: int, r: int) -> int {
    2 * (x * x) + 2 * (y * y) - 2 * (r * r) + 8 * x - 6 * y + 3 + 4 * r
}

/// The decision value after one move matches its closed form.
proof fn lemma_midpoint_update(x: int, y: int, d: int, r: int)
    requires
        d == midpoint_value(x, y, r),
    ensures
        d + 4 * ((x + 1) - (y - 1)) + 10 == midpoint_value(x + 1, y - 1, r),
        d + 4 * (x + 1) + 6 == midpoint_value(x + 1, y, r),
{
    assert((x + 1) * (x + 1) == x * x + 2 * x + 1) by (nonlinear_arith);
    assert((y - 1) * (y - 1) == y * y - 2 * y + 1) by (nonlinear_arith);
}

} // verus!
