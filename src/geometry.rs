//! Segment clipping against the pixel rectangle (region codes) and the
//! integer stepping that walks a clipped segment.

use vstd::arithmetic::div_mod::{lemma_div_by_multiple, lemma_div_is_ordered, lemma_div_pos_is_pos};
use vstd::prelude::*;

verus! {

pub open spec fn abs(a: int) -> int {
    if a < 0 {
        -a
    } else {
        a
    }
}

/// Integer division rounding toward zero, as machine division does.
pub open spec fn trunc_div(a: int, b: int) -> int {
    let q = abs(a) / abs(b);
    if (a < 0) != (b < 0) {
        -q
    } else {
        q
    }
}

/// `v` lies between `a` and `b`, inclusive, in either order.
pub open spec fn between(v: int, a: int, b: int) -> bool {
    (a <= v <= b) || (b <= v <= a)
}

/// Horizontal region bits: 1 left of the rectangle, 2 right of it.
pub open spec fn h_code(x: int, w: int) -> u8 {
    if x < 0 {
        1
    } else if x >= w {
        2
    } else {
        0
    }
}

/// Vertical region bits: 4 above row 0, 8 at or past row `h`.
pub open spec fn v_code(y: int, h: int) -> u8 {
    if y < 0 {
        4
    } else if y >= h {
        8
    } else {
        0
    }
}

/// The region code of `(x, y)` relative to `[0, w) x [0, h)`.
pub open spec fn outcode(x: int, y: int, w: int, h: int) -> u8 {
    h_code(x, w) | v_code(y, h)
}

pub open spec fn in_rect(x: int, y: int, w: int, h: int) -> bool {
    0 <= x < w && 0 <= y < h
}

/// The point where the segment leaves through the boundary that `code`
/// names first (bottom, top, right, left), computed from the first endpoint.
pub open spec fn boundary_point(code: u8, x0: int, y0: int, x1: int, y1: int, w: int, h: int) -> (int, int) {
    if code & 8 != 0 {
        (x0 + trunc_div((x1 - x0) * (h - 1 - y0), y1 - y0), h - 1)
    } else if code & 4 != 0 {
        (x0 + trunc_div((x1 - x0) * (0 - y0), y1 - y0), 0)
    } else if code & 2 != 0 {
        (w - 1, y0 + trunc_div((y1 - y0) * (w - 1 - x0), x1 - x0))
    } else {
        (0, y0 + trunc_div((y1 - y0) * (0 - x0), x1 - x0))
    }
}

/// The part of segment `(x0, y0)-(x1, y1)` that region-code clipping keeps
/// inside `[0, w) x [0, h)`, or `None` when it rejects the segment.
pub open spec fn clip(x0: int, y0: int, x1: int, y1: int, w: int, h: int) -> Option<(int, int, int, int)>
    decreases abs(x1 - x0) + abs(y1 - y0),
        when 0 <= w && 0 <= h
{
    let c0 = outcode(x0, y0, w, h);
    let c1 = outcode(x1, y1, w, h);
    if c0 | c1 == 0 {
        Some((x0, y0, x1, y1))
    } else if c0 & c1 != 0 {
        None
    } else if c0 != 0 {
        proof {
            lemma_clip_step(x0, y0, x1, y1, w, h);
        }
        let p = boundary_point(c0, x0, y0, x1, y1, w, h);
        clip(p.0, p.1, x1, y1, w, h)
    } else {
        proof {
            lemma_clip_step(x0, y0, x1, y1, w, h);
        }
        let p = boundary_point(c1, x0, y0, x1, y1, w, h);
        clip(x0, y0, p.0, p.1, w, h)
    }
}

/// Bits of a region code and the rectangle tests they stand for.
pub proof fn lemma_code_bits(hc: u8, vc: u8)
    requires
        hc == 0 || hc == 1 || hc == 2,
        vc == 0 || vc == 4 || vc == 8,
    ensures
        ((hc | vc) & 1 != 0) == (hc == 1),
        ((hc | vc) & 2 != 0) == (hc == 2),
        ((hc | vc) & 4 != 0) == (vc == 4),
        ((hc | vc) & 8 != 0) == (vc == 8),
        ((hc | vc) == 0) == (hc == 0 && vc == 0),
        (hc | vc) < 16,
{
    assert(((hc | vc) & 1 != 0) == (hc == 1)) by (bit_vector)
        requires
            hc == 0 || hc == 1 || hc == 2,
            vc == 0 || vc == 4 || vc == 8,
    ;
    assert(((hc | vc) & 2 != 0) == (hc == 2)) by (bit_vector)
        requires
            hc == 0 || hc == 1 || hc == 2,
            vc == 0 || vc == 4 || vc == 8,
    ;
    assert(((hc | vc) & 4 != 0) == (vc == 4)) by (bit_vector)
        requires
            hc == 0 || hc == 1 || hc == 2,
            vc == 0 || vc == 4 || vc == 8,
    ;
    assert(((hc | vc) & 8 != 0) == (vc == 8)) by (bit_vector)
        requires
            hc == 0 || hc == 1 || hc == 2,
            vc == 0 || vc == 4 || vc == 8,
    ;
    assert(((hc | vc) == 0) == (hc == 0 && vc == 0) && (hc | vc) < 16) by (bit_vector)
        requires
            hc == 0 || hc == 1 || hc == 2,
            vc == 0 || vc == 4 || vc == 8,
    ;
}

/// How two region codes combine.
pub proof fn lemma_code_pair(a: u8, b: u8)
    requires
        a < 16,
        b < 16,
    ensures
        ((a | b) == 0) == (a == 0 && b == 0),
        ((a & b) != 0) == ((a & 1 != 0 && b & 1 != 0) || (a & 2 != 0 && b & 2 != 0) || (a & 4 != 0
            && b & 4 != 0) || (a & 8 != 0 && b & 8 != 0)),
        a != 0 ==> (a & 1 != 0 || a & 2 != 0 || a & 4 != 0 || a & 8 != 0),
{
    assert(((a | b) == 0) == (a == 0 && b == 0)) by (bit_vector);
    assert(((a & b) != 0) == ((a & 1 != 0 && b & 1 != 0) || (a & 2 != 0 && b & 2 != 0) || (a & 4
        != 0 && b & 4 != 0) || (a & 8 != 0 && b & 8 != 0))) by (bit_vector)
        requires
            a < 16,
            b < 16,
    ;
    assert(a != 0 ==> (a & 1 != 0 || a & 2 != 0 || a & 4 != 0 || a & 8 != 0)) by (bit_vector)
        requires
            a < 16,
    ;
}

/// What the region code of a point says about its position.
pub proof fn lemma_outcode(x: int, y: int, w: int, h: int)
    ensures
        (outcode(x, y, w, h) & 1 != 0) == (x < 0),
        (outcode(x, y, w, h) & 2 != 0) == (x >= 0 && x >= w),
        (outcode(x, y, w, h) & 4 != 0) == (y < 0),
        (outcode(x, y, w, h) & 8 != 0) == (y >= 0 && y >= h),
        (outcode(x, y, w, h) == 0) == in_rect(x, y, w, h),
        outcode(x, y, w, h) < 16,
{
    lemma_code_bits(h_code(x, w), v_code(y, h));
}

/// Scaling `d` by a ratio in `[0, 1]` with truncation stays between 0 and `d`.
pub proof fn lemma_scaled(d: int, num: int, den: int)
    requires
        den != 0,
        abs(num) <= abs(den),
        num == 0 || ((num < 0) == (den < 0)),
    ensures
        between(trunc_div(d * num, den), 0, d),
        abs(d * num) == abs(d) * abs(num),
        abs(d * num) / abs(den) <= abs(d),
{
    let a = abs(d);
    let n = abs(num);
    let dd = abs(den);
    assert(abs(d * num) == a * n) by (nonlinear_arith)
        requires
            a == abs(d),
            n == abs(num),
    ;
    assert(a * n <= a * dd) by (nonlinear_arith)
        requires
            0 <= a,
            0 <= n <= dd,
    ;
    assert(0 <= a * n) by (nonlinear_arith)
        requires
            0 <= a,
            0 <= n,
    ;
    lemma_div_is_ordered(a * n, a * dd, dd);
    lemma_div_by_multiple(a, dd);
    lemma_div_pos_is_pos(a * n, dd);
    let q = a * n / dd;
    if q != 0 {
        assert(a * n != 0);
        assert(d != 0 && num != 0) by (nonlinear_arith)
            requires
                a * n != 0,
                a == abs(d),
                n == abs(num),
        ;
        assert((d * num < 0) == ((d < 0) != (num < 0))) by (nonlinear_arith)
            requires
                d != 0,
                num != 0,
        ;
    }
}

/// One clipping step moves an outside endpoint onto the boundary: the new
/// segment lies within the old one's bounding box and is strictly shorter.
pub proof fn lemma_clip_step(x0: int, y0: int, x1: int, y1: int, w: int, h: int)
    requires
        0 <= w,
        0 <= h,
        outcode(x0, y0, w, h) | outcode(x1, y1, w, h) != 0,
        outcode(x0, y0, w, h) & outcode(x1, y1, w, h) == 0,
    ensures
        ({
            let c0 = outcode(x0, y0, w, h);
            let c1 = outcode(x1, y1, w, h);
            let p = boundary_point(if c0 != 0 { c0 } else { c1 }, x0, y0, x1, y1, w, h);
            &&& between(p.0, x0, x1)
            &&& between(p.1, y0, y1)
            &&& c0 != 0 ==> abs(x1 - p.0) + abs(y1 - p.1) < abs(x1 - x0) + abs(y1 - y0)
            &&& c0 == 0 ==> abs(p.0 - x0) + abs(p.1 - y0) < abs(x1 - x0) + abs(y1 - y0)
        }),
{
    let c0 = outcode(x0, y0, w, h);
    let c1 = outcode(x1, y1, w, h);
    lemma_outcode(x0, y0, w, h);
    lemma_outcode(x1, y1, w, h);
    lemma_code_pair(c0, c1);
    let c = if c0 != 0 {
        c0
    } else {
        c1
    };
    lemma_code_pair(c, c);
    if c & 8 != 0 {
        lemma_scaled(x1 - x0, h - 1 - y0, y1 - y0);
    } else if c & 4 != 0 {
        lemma_scaled(x1 - x0, 0 - y0, y1 - y0);
    } else if c & 2 != 0 {
        lemma_scaled(y1 - y0, w - 1 - x0, x1 - x0);
    } else {
        lemma_scaled(y1 - y0, 0 - x0, x1 - x0);
    }
}

/// `d * num / den` rounded toward zero, for a ratio `num / den` in `[0, 1]`;
/// the product is formed without overflow.
pub fn scaled(d: i128, num: i128, den: i128) -> (r: i128)
    requires
        den != 0,
        abs(num as int) <= abs(den as int),
        num == 0 || ((num < 0) == (den < 0)),
        abs(d as int) <= u64::MAX,
        abs(den as int) <= u64::MAX,
    ensures
        r == trunc_div(d * num, den as int),
        between(r as int, 0, d as int),
{
    proof {
        lemma_scaled(d as int, num as int, den as int);
    }
    let ad: u128 = if d < 0 {
        (0 - d) as u128
    } else {
        d as u128
    };
    let an: u128 = if num < 0 {
        (0 - num) as u128
    } else {
        num as u128
    };
    let aden: u128 = if den < 0 {
        (0 - den) as u128
    } else {
        den as u128
    };
    assert(ad * an <= (u64::MAX as int) * (u64::MAX as int)) by (nonlinear_arith)
        requires
            ad <= u64::MAX,
            an <= u64::MAX,
    ;
    let q: u128 = ad * an / aden;
    let product_negative = (d < 0 && num > 0) || (d > 0 && num < 0);
    assert(product_negative == (d * num < 0)) by (nonlinear_arith)
        requires
            product_negative == ((d < 0 && num > 0) || (d > 0 && num < 0)),
    ;
    if product_negative != (den < 0) {
        0 - (q as i128)
    } else {
        q as i128
    }
}

/// Unit step from `a` toward `b` (backward when they are equal).
pub open spec fn dir(a: int, b: int) -> int {
    if a < b {
        1
    } else {
        -1
    }
}

/// One move of the integer line stepper on segment `(x0, y0)-(x1, y1)`
/// from `(x, y)` with error term `err`: the new position and error term.
pub open spec fn walk_step(x0: int, y0: int, x1: int, y1: int, x: int, y: int, err: int) -> (int, int, int) {
    let dx = abs(x1 - x0);
    let dy = -abs(y1 - y0);
    let e2 = 2 * err;
    let xa = if e2 >= dy { x + dir(x0, x1) } else { x };
    let ea = if e2 >= dy { err + dy } else { err };
    let ya = if e2 <= dx { y + dir(y0, y1) } else { y };
    let eb = if e2 <= dx { ea + dx } else { ea };
    (xa, ya, eb)
}

/// The pixels the stepper visits from `(x, y)` until it reaches `(x1, y1)`
/// (or runs out of `fuel` moves).
pub open spec fn walk(x0: int, y0: int, x1: int, y1: int, x: int, y: int, err: int, fuel: nat) -> Seq<(int, int)>
    decreases fuel,
{
    if (x == x1 && y == y1) || fuel == 0 {
        seq![(x, y)]
    } else {
        let s = walk_step(x0, y0, x1, y1, x, y, err);
        seq![(x, y)] + walk(x0, y0, x1, y1, s.0, s.1, s.2, (fuel - 1) as nat)
    }
}

/// The pixels of segment `(x0, y0)-(x1, y1)`, from the first endpoint to the second.
pub open spec fn segment_points(x0: int, y0: int, x1: int, y1: int) -> Seq<(int, int)> {
    walk(
        x0,
        y0,
        x1,
        y1,
        x0,
        y0,
        abs(x1 - x0) - abs(y1 - y0),
        (abs(x1 - x0) + abs(y1 - y0)) as nat,
    )
}

/// The pixels drawn for segment `(x0, y0)-(x1, y1)` on a `w` by `h` pixel
/// rectangle: the clipped part, walked by the stepper.
pub open spec fn line_points(x0: int, y0: int, x1: int, y1: int, w: int, h: int) -> Seq<(int, int)> {
    match clip(x0, y0, x1, y1, w, h) {
        Some(q) => segment_points(q.0, q.1, q.2, q.3),
        None => seq![],
    }
}

/// The stepper's state on the way: `i` moves along x and `j` along y taken,
/// never past the far endpoint, with the error term they determine.
pub open spec fn walk_inv(x0: int, y0: int, x1: int, y1: int, x: int, y: int, err: int) -> bool {
    let dx = abs(x1 - x0);
    let dy = abs(y1 - y0);
    let i = abs(x - x0);
    let j = abs(y - y0);
    &&& i <= dx
    &&& j <= dy
    &&& x == x0 + dir(x0, x1) * i
    &&& y == y0 + dir(y0, y1) * j
    &&& err == (j + 1) * dx - (i + 1) * dy
    &&& -2 * dy <= err <= 2 * dx
}

pub proof fn lemma_walk_start(x0: int, y0: int, x1: int, y1: int)
    ensures
        walk_inv(x0, y0, x1, y1, x0, y0, abs(x1 - x0) - abs(y1 - y0)),
{
}

/// One move of the stepper on a segment with non-negative coordinates up to
/// `isize::MAX`.
pub fn walk_move(x0: i128, y0: i128, x1: i128, y1: i128, x: i128, y: i128, err: i128) -> (r: (
    i128,
    i128,
    i128,
))
    requires
        0 <= x0 <= isize::MAX,
        0 <= y0 <= isize::MAX,
        0 <= x1 <= isize::MAX,
        0 <= y1 <= isize::MAX,
        walk_inv(x0 as int, y0 as int, x1 as int, y1 as int, x as int, y as int, err as int),
    ensures
        (r.0 as int, r.1 as int, r.2 as int) == walk_step(
            x0 as int,
            y0 as int,
            x1 as int,
            y1 as int,
            x as int,
            y as int,
            err as int,
        ),
{
    proof {
        lemma_inv_between(x0 as int, y0 as int, x1 as int, y1 as int, x as int, y as int, err as int);
    }
    let dx: i128 = if x1 >= x0 {
        x1 - x0
    } else {
        x0 - x1
    };
    let dy: i128 = if y1 >= y0 {
        y0 - y1
    } else {
        y1 - y0
    };
    let sx: i128 = if x0 < x1 {
        1
    } else {
        -1
    };
    let sy: i128 = if y0 < y1 {
        1
    } else {
        -1
    };
    let e2 = 2 * err;
    let mut nx = x;
    let mut ny = y;
    let mut nerr = err;
    if e2 >= dy {
        nerr = nerr + dy;
        nx = nx + sx;
    }
    if e2 <= dx {
        nerr = nerr + dx;
        ny = ny + sy;
    }
    (nx, ny, nerr)
}

/// A stepper position lies in the segment's bounding box.
pub proof fn lemma_inv_between(x0: int, y0: int, x1: int, y1: int, x: int, y: int, err: int)
    requires
        walk_inv(x0, y0, x1, y1, x, y, err),
    ensures
        between(x, x0, x1),
        between(y, y0, y1),
        abs(x1 - x) == abs(x1 - x0) - abs(x - x0),
        abs(y1 - y) == abs(y1 - y0) - abs(y - y0),
{
    let i = abs(x - x0);
    if x0 < x1 {
        assert(dir(x0, x1) * i == i);
    } else {
        assert(dir(x0, x1) == -1);
        assert(-1 * i == -i);
    }
    let j = abs(y - y0);
    if y0 < y1 {
        assert(dir(y0, y1) * j == j);
    } else {
        assert(dir(y0, y1) == -1);
        assert(-1 * j == -j);
    }
}

/// Each move keeps the stepper's state and brings it strictly closer to
/// the far endpoint.
pub proof fn lemma_walk_step(x0: int, y0: int, x1: int, y1: int, x: int, y: int, err: int)
    requires
        walk_inv(x0, y0, x1, y1, x, y, err),
        !(x == x1 && y == y1),
    ensures
        ({
            let s = walk_step(x0, y0, x1, y1, x, y, err);
            &&& walk_inv(x0, y0, x1, y1, s.0, s.1, s.2)
            &&& abs(x1 - s.0) + abs(y1 - s.1) < abs(x1 - x) + abs(y1 - y)
        }),
{
    let dx = abs(x1 - x0);
    let dy = abs(y1 - y0);
    let i = abs(x - x0);
    let j = abs(y - y0);
    let e2 = 2 * err;
    let xs = e2 >= -dy;
    let ys = e2 <= dx;
    lemma_inv_between(x0, y0, x1, y1, x, y, err);
    if i == dx && j < dy {
        assert((j + 1) * dx <= dx * dy) by (nonlinear_arith)
            requires
                j + 1 <= dy,
                0 <= dx,
        ;
        assert((i + 1) * dy == dx * dy + dy) by (nonlinear_arith)
            requires
                i == dx,
        ;
        assert(2 * err < -dy);
    }
    if j == dy && i < dx {
        assert((i + 1) * dy <= dx * dy) by (nonlinear_arith)
            requires
                i + 1 <= dx,
                0 <= dy,
        ;
        assert((j + 1) * dx == dx * dy + dx) by (nonlinear_arith)
            requires
                j == dy,
        ;
        assert(2 * err > dx);
    }
    assert(xs || ys);
    assert((j + 2) * dx == (j + 1) * dx + dx) by (nonlinear_arith);
    assert((i + 2) * dy == (i + 1) * dy + dy) by (nonlinear_arith);
}

/// Every pixel the stepper visits lies in the bounding box of the segment.
pub proof fn lemma_walk_in_box(x0: int, y0: int, x1: int, y1: int, x: int, y: int, err: int, fuel: nat)
    requires
        walk_inv(x0, y0, x1, y1, x, y, err),
    ensures
        forall|k: int|
            0 <= k < walk(x0, y0, x1, y1, x, y, err, fuel).len() ==> {
                let p = #[trigger] walk(x0, y0, x1, y1, x, y, err, fuel)[k];
                between(p.0, x0, x1) && between(p.1, y0, y1)
            },
    decreases fuel,
{
    lemma_inv_between(x0, y0, x1, y1, x, y, err);
    if !((x == x1 && y == y1) || fuel == 0) {
        let s = walk_step(x0, y0, x1, y1, x, y, err);
        lemma_walk_step(x0, y0, x1, y1, x, y, err);
        lemma_walk_in_box(x0, y0, x1, y1, s.0, s.1, s.2, (fuel - 1) as nat);
        let rest = walk(x0, y0, x1, y1, s.0, s.1, s.2, (fuel - 1) as nat);
        assert forall|k: int|
            0 <= k < walk(x0, y0, x1, y1, x, y, err, fuel).len() implies {
                let p = #[trigger] walk(x0, y0, x1, y1, x, y, err, fuel)[k];
                between(p.0, x0, x1) && between(p.1, y0, y1)
            } by {
            if k > 0 {
                assert(walk(x0, y0, x1, y1, x, y, err, fuel)[k] == rest[k - 1]);
            }
        }
    }
}

/// With enough moves left, the stepper starts where it stands and ends on
/// the far endpoint.
pub proof fn lemma_walk_ends(x0: int, y0: int, x1: int, y1: int, x: int, y: int, err: int, fuel: nat)
    requires
        walk_inv(x0, y0, x1, y1, x, y, err),
        fuel >= abs(x1 - x) + abs(y1 - y),
    ensures
        walk(x0, y0, x1, y1, x, y, err, fuel).len() >= 1,
        walk(x0, y0, x1, y1, x, y, err, fuel)[0] == (x, y),
        walk(x0, y0, x1, y1, x, y, err, fuel).last() == (x1, y1),
    decreases fuel,
{
    if !(x == x1 && y == y1) {
        let s = walk_step(x0, y0, x1, y1, x, y, err);
        lemma_walk_step(x0, y0, x1, y1, x, y, err);
        lemma_walk_ends(x0, y0, x1, y1, s.0, s.1, s.2, (fuel - 1) as nat);
    }
}

/// Both endpoints of a clipped segment lie in the rectangle.
pub proof fn lemma_clip_inside(x0: int, y0: int, x1: int, y1: int, w: int, h: int)
    requires
        0 <= w,
        0 <= h,
    ensures
        clip(x0, y0, x1, y1, w, h) matches Some(q) ==> in_rect(q.0, q.1, w, h) && in_rect(
            q.2,
            q.3,
            w,
            h,
        ),
    decreases abs(x1 - x0) + abs(y1 - y0),
{
    let c0 = outcode(x0, y0, w, h);
    let c1 = outcode(x1, y1, w, h);
    lemma_outcode(x0, y0, w, h);
    lemma_outcode(x1, y1, w, h);
    lemma_code_pair(c0, c1);
    if c0 | c1 == 0 {
    } else if c0 & c1 != 0 {
    } else if c0 != 0 {
        lemma_clip_step(x0, y0, x1, y1, w, h);
        let p = boundary_point(c0, x0, y0, x1, y1, w, h);
        lemma_clip_inside(p.0, p.1, x1, y1, w, h);
    } else {
        lemma_clip_step(x0, y0, x1, y1, w, h);
        let p = boundary_point(c1, x0, y0, x1, y1, w, h);
        lemma_clip_inside(x0, y0, p.0, p.1, w, h);
    }
}

/// Every pixel drawn for a segment lies in the rectangle.
pub proof fn lemma_line_points_inside(x0: int, y0: int, x1: int, y1: int, w: int, h: int)
    requires
        0 <= w,
        0 <= h,
    ensures
        forall|k: int|
            0 <= k < line_points(x0, y0, x1, y1, w, h).len() ==> {
                let p = #[trigger] line_points(x0, y0, x1, y1, w, h)[k];
                in_rect(p.0, p.1, w, h)
            },
{
    lemma_clip_inside(x0, y0, x1, y1, w, h);
    if let Some(q) = clip(x0, y0, x1, y1, w, h) {
        lemma_walk_start(q.0, q.1, q.2, q.3);
        lemma_walk_in_box(
            q.0,
            q.1,
            q.2,
            q.3,
            q.0,
            q.1,
            abs(q.2 - q.0) - abs(q.3 - q.1),
            (abs(q.2 - q.0) + abs(q.3 - q.1)) as nat,
        );
    }
}

} // verus!
