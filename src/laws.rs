//! Properties that relate several canvas operations, proved over the model.

use crate::canvas::{dot_bit, lemma_cell_of_in_range, CanvasModel};
use crate::color::{Color, ColorBlend};
use crate::geometry::{
    abs, clip, lemma_code_pair, lemma_line_points_inside, lemma_outcode, lemma_walk_ends,
    lemma_walk_start, line_points, outcode,
};
use vstd::prelude::*;

verus! {

/// The pixel size is always two dots per cell across and four down, and
/// clearing the canvas keeps it, along with well-formedness.
pub proof fn law_pixel_size(m: CanvasModel)
    ensures
        m.pixel_width() == 2 * m.width,
        m.pixel_height() == 4 * m.height,
        m.cleared().pixel_width() == m.pixel_width(),
        m.cleared().pixel_height() == m.pixel_height(),
        m.well_formed() ==> m.cleared().well_formed(),
{
}

/// The eight dot positions of a cell have eight different single-bit masks.
pub proof fn law_dot_bits_distinct(sx: int, sy: int, tx: int, ty: int)
    requires
        0 <= sx < 2,
        0 <= sy < 4,
        0 <= tx < 2,
        0 <= ty < 4,
        sx != tx || sy != ty,
    ensures
        dot_bit(sx, sy) != dot_bit(tx, ty),
        dot_bit(sx, sy) & dot_bit(tx, ty) == 0,
{
    let a = dot_bit(sx, sy);
    let b = dot_bit(tx, ty);
    assert(a & b == 0) by (bit_vector)
        requires
            a == 1 || a == 2 || a == 4 || a == 8 || a == 16 || a == 32 || a == 64 || a == 128,
            b == 1 || b == 2 || b == 4 || b == 8 || b == 16 || b == 32 || b == 64 || b == 128,
            a != b,
    ;
}

/// Setting one dot of an empty cell leaves exactly that dot's bit in the
/// cell's mask.
pub proof fn law_set_single_dot(m: CanvasModel, px: int, py: int, color: Option<Color>)
    requires
        m.well_formed(),
        m.in_pixels(px, py),
        m.masks[m.cell_of(px, py)] == 0,
    ensures
        m.set_screen(px, py, color).masks[m.cell_of(px, py)] == dot_bit(px % 2, py % 4),
{
    lemma_cell_of_in_range(m, px, py);
    let b = dot_bit(px % 2, py % 4);
    assert(0u8 | b == b) by (bit_vector);
}

/// Setting two dots of one cell in turn ORs both bits into its mask.
pub proof fn law_set_dots_or(
    m: CanvasModel,
    px: int,
    py: int,
    qx: int,
    qy: int,
    c1: Option<Color>,
    c2: Option<Color>,
)
    requires
        m.well_formed(),
        m.in_pixels(px, py),
        m.in_pixels(qx, qy),
        m.cell_of(px, py) == m.cell_of(qx, qy),
    ensures
        m.set_screen(px, py, c1).set_screen(qx, qy, c2).masks[m.cell_of(px, py)] == m.masks[m.cell_of(
            px,
            py,
        )] | dot_bit(px % 2, py % 4) | dot_bit(qx % 2, qy % 4),
{
    lemma_cell_of_in_range(m, px, py);
}

/// Unsetting the only lit dot of a cell also drops the cell's color.
pub proof fn law_unset_last_dot(m: CanvasModel, px: int, py: int)
    requires
        m.well_formed(),
        m.in_pixels(px, py),
        m.masks[m.cell_of(px, py)] == dot_bit(px % 2, py % 4),
    ensures
        m.unset_screen(px, py).masks[m.cell_of(px, py)] == 0,
        m.unset_screen(px, py).colors[m.cell_of(px, py)] is None,
{
    lemma_cell_of_in_range(m, px, py);
    let b = dot_bit(px % 2, py % 4);
    assert(b & !b == 0) by (bit_vector);
}

/// Unsetting one of several lit dots of a cell keeps the cell's color.
pub proof fn law_unset_one_of_several(m: CanvasModel, px: int, py: int)
    requires
        m.well_formed(),
        m.in_pixels(px, py),
        m.masks[m.cell_of(px, py)] & dot_bit(px % 2, py % 4) != 0,
        m.masks[m.cell_of(px, py)] != dot_bit(px % 2, py % 4),
    ensures
        m.unset_screen(px, py).masks[m.cell_of(px, py)] != 0,
        m.unset_screen(px, py).colors[m.cell_of(px, py)] == m.colors[m.cell_of(px, py)],
{
    lemma_cell_of_in_range(m, px, py);
    let b = dot_bit(px % 2, py % 4);
    let k = m.masks[m.cell_of(px, py)];
    assert(k & !b != 0) by (bit_vector)
        requires
            b == 1 || b == 2 || b == 4 || b == 8 || b == 16 || b == 32 || b == 64 || b == 128,
            k & b != 0,
            k != b,
    ;
}

/// A segment whose endpoints are both beyond the same edge of the canvas
/// draws nothing.
pub proof fn law_line_beyond_one_edge(
    m: CanvasModel,
    x0: int,
    y0: int,
    x1: int,
    y1: int,
    color: Option<Color>,
    cartesian: bool,
)
    requires
        (x0 < 0 && x1 < 0) || (x0 >= m.pixel_width() && x1 >= m.pixel_width()) || (y0 < 0 && y1
            < 0) || (y0 >= m.pixel_height() && y1 >= m.pixel_height()),
    ensures
        line_points(x0, y0, x1, y1, m.pixel_width(), m.pixel_height()) == Seq::<(int, int)>::empty(),
        m.draw_line(x0, y0, x1, y1, color, cartesian) == m,
{
    let w = m.pixel_width();
    let h = m.pixel_height();
    lemma_outcode(x0, y0, w, h);
    lemma_outcode(x1, y1, w, h);
    lemma_code_pair(outcode(x0, y0, w, h), outcode(x1, y1, w, h));
    assert(clip(x0, y0, x1, y1, w, h) is None);
}

/// Every pixel a segment draws lies on the canvas, whatever its endpoints.
pub proof fn law_line_stays_inside(m: CanvasModel, x0: int, y0: int, x1: int, y1: int)
    ensures
        forall|k: int|
            0 <= k < line_points(x0, y0, x1, y1, m.pixel_width(), m.pixel_height()).len() ==> {
                let p = #[trigger] line_points(x0, y0, x1, y1, m.pixel_width(), m.pixel_height())[k];
                m.in_pixels(p.0, p.1)
            },
{
    lemma_line_points_inside(x0, y0, x1, y1, m.pixel_width(), m.pixel_height());
}

/// A segment with both endpoints on the canvas is drawn whole: its pixels
/// run from the first endpoint to the second.
pub proof fn law_line_inside_joins_endpoints(m: CanvasModel, x0: int, y0: int, x1: int, y1: int)
    requires
        m.in_pixels(x0, y0),
        m.in_pixels(x1, y1),
    ensures
        line_points(x0, y0, x1, y1, m.pixel_width(), m.pixel_height()).len() >= 1,
        line_points(x0, y0, x1, y1, m.pixel_width(), m.pixel_height())[0] == (x0, y0),
        line_points(x0, y0, x1, y1, m.pixel_width(), m.pixel_height()).last() == (x1, y1),
{
    let w = m.pixel_width();
    let h = m.pixel_height();
    lemma_outcode(x0, y0, w, h);
    lemma_outcode(x1, y1, w, h);
    lemma_code_pair(outcode(x0, y0, w, h), outcode(x1, y1, w, h));
    assert(clip(x0, y0, x1, y1, w, h) == Some((x0, y0, x1, y1)));
    lemma_walk_start(x0, y0, x1, y1);
    lemma_walk_ends(
        x0,
        y0,
        x1,
        y1,
        x0,
        y0,
        abs(x1 - x0) - abs(y1 - y0),
        (abs(x1 - x0) + abs(y1 - y0)) as nat,
    );
}

/// With keep-first blending, two colors written into an uncolored cell
/// leave the first; with overwrite blending, the second.
pub proof fn law_blend_two_writes(
    m: CanvasModel,
    px: int,
    py: int,
    qx: int,
    qy: int,
    a: Color,
    b: Color,
)
    requires
        m.well_formed(),
        m.in_pixels(px, py),
        m.in_pixels(qx, qy),
        m.cell_of(px, py) == m.cell_of(qx, qy),
    ensures
        m.blend == ColorBlend::KeepFirst && m.colors[m.cell_of(px, py)] is None ==> m.set_screen(
            px,
            py,
            Some(a),
        ).set_screen(qx, qy, Some(b)).colors[m.cell_of(px, py)] == Some(a),
        m.blend == ColorBlend::Overwrite ==> m.set_screen(px, py, Some(a)).set_screen(
            qx,
            qy,
            Some(b),
        ).colors[m.cell_of(px, py)] == Some(b),
{
    lemma_cell_of_in_range(m, px, py);
}

} // verus!
