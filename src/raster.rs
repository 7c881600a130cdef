//! Scan conversion primitives: brush stamps and Bresenham paths.
use vstd::prelude::*;

use crate::canvas::{
    lemma_paint_add, lemma_paint_ext, lemma_paint_none, lemma_paint_twice, lemma_pix_bound,
    on_canvas, paint,
};
use crate::{CANVAS_BOTTOM, CANVAS_TOP, FRAME_LEN, WIDTH};

verus! {

/// Radius of the disc stamped by a brush of width `size`.
pub open spec fn stamp_radius(size: int) -> int {
    if size >= 1 {
        size - 1
    } else {
        0
    }
}

/// Whether `(x, y)` is covered by a brush of width `size` stamped at `(cx, cy)`.
pub open spec fn in_stamp(cx: int, cy: int, size: int, x: int, y: int) -> bool {
    (x - cx) * (x - cx) + (y - cy) * (y - cy) <= stamp_radius(size) * stamp_radius(size)
}

/// Offsets `(i, j)` that Bresenham's walk visits from `(i, j)` on to `(a, b)`, for a
/// line whose extent is `a` columns and `b` rows.
pub open spec fn line_steps(a: int, b: int, i: int, j: int) -> Seq<(int, int)>
    decreases (a - i) + (b - j),
{
    if 0 <= i <= a && 0 <= j <= b && !(i == a && j == b) {
        let e = line_err(a, b, i, j);
        let ni = if 2 * e >= -b { i + 1 } else { i };
        let nj = if 2 * e <= a { j + 1 } else { j };
        if ni <= a && nj <= b && ni + nj > i + j {
            seq![(i, j)] + line_steps(a, b, ni, nj)
        } else {
            seq![(i, j)]
        }
    } else {
        seq![(i, j)]
    }
}

/// Bresenham's error term after `i` column steps and `j` row steps.
pub open spec fn line_err(a: int, b: int, i: int, j: int) -> int {
    a - b + j * a - i * b
}

pub open spec fn abs_diff(p: int, q: int) -> int {
    if p < q {
        q - p
    } else {
        p - q
    }
}

/// The point `d` steps from `p` in the direction of `q`.
pub open spec fn toward(p: int, q: int, d: int) -> int {
    if p < q {
        p + d
    } else {
        p - d
    }
}

/// The lattice points of Bresenham's line from `(x0, y0)` to `(x1, y1)`, in order.
pub open spec fn line_path(x0: int, y0: int, x1: int, y1: int) -> Seq<(int, int)> {
    line_steps(abs_diff(x0, x1), abs_diff(y0, y1), 0, 0).map_values(
        |s: (int, int)| (toward(x0, x1, s.0), toward(y0, y1, s.1)),
    )
}

/// Whether a brush of width `size` stamped at each of `pts` covers `(x, y)`.
pub open spec fn covered(pts: Seq<(int, int)>, size: int, x: int, y: int) -> bool {
    exists|m: int| 0 <= m < pts.len() && #[trigger] in_stamp(pts[m].0, pts[m].1, size, x, y)
}

/// What a brush stroke from `(x0, y0)` to `(x1, y1)` covers.
pub open spec fn on_stroke(x0: int, y0: int, x1: int, y1: int, size: int, x: int, y: int) -> bool {
    covered(line_path(x0, y0, x1, y1), size, x, y)
}

pub proof fn lemma_line_step(a: int, b: int, i: int, j: int)
    requires
        0 <= i <= a,
        0 <= j <= b,
        !(i == a && j == b),
    ensures
        ({
            let e = line_err(a, b, i, j);
            let ni = if 2 * e >= -b { i + 1 } else { i };
            let nj = if 2 * e <= a { j + 1 } else { j };
            &&& ni <= a
            &&& nj <= b
            &&& ni + nj > i + j
            &&& line_steps(a, b, i, j) == seq![(i, j)] + line_steps(a, b, ni, nj)
            &&& line_err(a, b, ni, nj) == e - (if ni > i { b } else { 0 }) + (if nj > j { a } else { 0 })
        }),
{
    let e = line_err(a, b, i, j);
    if i == a {
        assert(a * (1 + j - b) <= 0) by (nonlinear_arith)
            requires
                a >= 0,
                j < b,
        ;
        assert(e == a * (1 + j - b) - b) by (nonlinear_arith)
            requires
                e == line_err(a, b, i, j),
                i == a,
        ;
    }
    if j == b {
        assert(b * (1 + i) <= b * a) by (nonlinear_arith)
            requires
                b >= 0,
                i < a,
        ;
        assert(e == a * (1 + b) - b * (1 + i)) by (nonlinear_arith)
            requires
                e == line_err(a, b, i, j),
                j == b,
        ;
        assert(a * (1 + b) - b * a == a) by (nonlinear_arith);
    }
    assert(line_err(a, b, i + 1, j) == e - b) by (nonlinear_arith)
        requires
            e == line_err(a, b, i, j),
    ;
    assert(line_err(a, b, i, j + 1) == e + a) by (nonlinear_arith)
        requires
            e == line_err(a, b, i, j),
    ;
    assert(line_err(a, b, i + 1, j + 1) == e - b + a) by (nonlinear_arith)
        requires
            e == line_err(a, b, i, j),
    ;
    let ni = if 2 * e >= -b { i + 1 } else { i };
    let nj = if 2 * e <= a { j + 1 } else { j };
    assert(ni <= a);
    assert(nj <= b);
    assert(ni + nj > i + j);
    assert(line_steps(a, b, i, j) == seq![(i, j)] + line_steps(a, b, ni, nj));
}

proof fn lemma_sq_bound(d: int, r: int)
    requires
        r >= 0,
        d * d <= r * r,
    ensures
        -r <= d <= r,
{
    if d > r {
        assert(d * d > r * r) by (nonlinear_arith)
            requires
                d > r,
                r >= 0,
        ;
    }
    if d < -r {
        assert(d * d > r * r) by (nonlinear_arith)
            requires
                d < -r,
                r >= 0,
        ;
    }
}

proof fn lemma_stamp_box(cx: int, cy: int, size: int, x: int, y: int)
    requires
        in_stamp(cx, cy, size, x, y),
    ensures
        cx - stamp_radius(size) <= x <= cx + stamp_radius(size),
        cy - stamp_radius(size) <= y <= cy + stamp_radius(size),
{
    let r = stamp_radius(size);
    let dx = x - cx;
    let dy = y - cy;
    assert(dx * dx >= 0 && dy * dy >= 0) by (nonlinear_arith);
    lemma_sq_bound(dx, r);
    lemma_sq_bound(dy, r);
}

/// A width-1 brush covers exactly its center.
pub proof fn lemma_unit_stamp(cx: int, cy: int, x: int, y: int)
    ensures
        in_stamp(cx, cy, 1, x, y) <==> (x == cx && y == cy),
{
    if in_stamp(cx, cy, 1, x, y) {
        lemma_stamp_box(cx, cy, 1, x, y);
    }
}

/// Draw a filled disc of width `size` (radius `size - 1`) centered at `(cx, cy)`.
pub fn draw_circle(buffer: &mut Vec<u32>, cx: usize, cy: usize, size: usize, color: u32)
    requires
        old(buffer)@.len() >= FRAME_LEN,
    ensures
        final(buffer)@ == paint(
            old(buffer)@,
            |x: int, y: int| in_stamp(cx as int, cy as int, size as int, x, y),
            color,
        ),
{
    let ghost b0 = buffer@;
    let ghost disc = |x: int, y: int| in_stamp(cx as int, cy as int, size as int, x, y);
    let r: usize = if size >= 1 { size - 1 } else { 0 };
    proof {
        assert((r as u128) * (r as u128) <= u128::MAX) by (nonlinear_arith)
            requires
                r <= usize::MAX,
        ;
    }
    let r2: u128 = (r as u128) * (r as u128);
    let lo_y = cy.saturating_sub(r);
    let mut y: usize = if lo_y < CANVAS_TOP { CANVAS_TOP } else { lo_y };
    let hi_y: usize = if cy.saturating_add(r) < CANVAS_BOTTOM - 1 { cy.saturating_add(r) } else { CANVAS_BOTTOM - 1 };
    let lo_x: usize = cx.saturating_sub(r);
    let hi_x: usize = if cx.saturating_add(r) < WIDTH - 1 { cx.saturating_add(r) } else { WIDTH - 1 };
    proof {
        lemma_paint_none(b0, color);
        assert forall|px: int, py: int| on_canvas(px, py) implies (false == (disc(px, py) && py < y)) by {
            if disc(px, py) {
                lemma_stamp_box(cx as int, cy as int, size as int, px, py);
            }
        }
        lemma_paint_ext(b0, |px: int, py: int| false, |px: int, py: int| disc(px, py) && py < y, color);
    }
    while y <= hi_y
        invariant
            b0.len() >= FRAME_LEN,
            CANVAS_TOP <= y,
            hi_y < CANVAS_BOTTOM,
            r == stamp_radius(size as int),
            r2 == r * r,
            lo_x as int == if cx >= r { cx - r } else { 0 },
            hi_x as int == if cx + r < WIDTH - 1 { cx + r } else { WIDTH - 1 },
            hi_y as int == if cy + r < CANVAS_BOTTOM - 1 { cy + r } else { CANVAS_BOTTOM - 1 },
            disc == |x: int, y: int| in_stamp(cx as int, cy as int, size as int, x, y),
            buffer@ == paint(b0, |px: int, py: int| disc(px, py) && py < y, color),
        decreases hi_y + 1 - y,
    {
        let dy: u128 = if y < cy { (cy - y) as u128 } else { (y - cy) as u128 };
        let mut x: usize = lo_x;
        proof {
            assert forall|px: int, py: int| on_canvas(px, py) implies ((disc(px, py) && py < y) == (disc(px, py) && (py < y || (py == y && px < x)))) by {
                if disc(px, py) {
                    lemma_stamp_box(cx as int, cy as int, size as int, px, py);
                }
            }
            lemma_paint_ext(b0, |px: int, py: int| disc(px, py) && py < y, |px: int, py: int| disc(px, py) && (py < y || (py == y && px < x)), color);
        }
        if dy <= r as u128 {
            proof {
                assert(dy * dy <= r2) by (nonlinear_arith)
                    requires
                        dy <= r,
                        r2 == r * r,
                ;
            }
            let rest: u128 = r2 - dy * dy;
            while x <= hi_x
                invariant
                    b0.len() >= FRAME_LEN,
                    CANVAS_TOP <= y <= hi_y,
                    hi_y < CANVAS_BOTTOM,
                    hi_x < WIDTH,
                    lo_x <= x,
                    lo_x as int == if cx >= r { cx - r } else { 0 },
                    r == stamp_radius(size as int),
                    dy == if y < cy { cy - y } else { y - cy },
                    rest == r * r - dy * dy,
                    hi_x as int == if cx + r < WIDTH - 1 { cx + r } else { WIDTH - 1 },
                    disc == |x: int, y: int| in_stamp(cx as int, cy as int, size as int, x, y),
                    buffer@ == paint(b0, |px: int, py: int| disc(px, py) && (py < y || (py == y && px < x)), color),
                decreases hi_x + 1 - x,
            {
                let dx: u128 = if x < cx { (cx - x) as u128 } else { (x - cx) as u128 };
                proof {
                    assert(dx <= r);
                    assert(dx * dx <= r * r && r * r <= u128::MAX) by (nonlinear_arith)
                        requires
                            dx <= r,
                            r <= usize::MAX,
                    ;
                    assert((x - cx) * (x - cx) == dx * dx && (y - cy) * (y - cy) == dy * dy) by (nonlinear_arith)
                        requires
                            dx == if x < cx { cx - x } else { x - cx },
                            dy == if y < cy { cy - y } else { y - cy },
                    ;
                }
                if dx * dx <= rest {
                    proof {
                        lemma_pix_bound(x as int, y as int);
                        lemma_paint_add(
                            b0,
                            |px: int, py: int| disc(px, py) && (py < y || (py == y && px < x)),
                            |px: int, py: int| disc(px, py) && (py < y || (py == y && px < x + 1)),
                            color,
                            x as int,
                            y as int,
                        );
                    }
                    buffer.set(y * WIDTH + x, color);
                } else {
                    proof {
                        lemma_paint_ext(
                            b0,
                            |px: int, py: int| disc(px, py) && (py < y || (py == y && px < x)),
                            |px: int, py: int| disc(px, py) && (py < y || (py == y && px < x + 1)),
                            color,
                        );
                    }
                }
                x = x + 1;
            }
        } else {
            proof {
                assert forall|px: int, py: int| on_canvas(px, py) implies ((disc(px, py) && (py < y || (py == y && px < x))) == (disc(px, py) && (py < y || (py == y && px < hi_x + 1)))) by {
                    if disc(px, py) {
                        lemma_stamp_box(cx as int, cy as int, size as int, px, py);
                    }
                }
                lemma_paint_ext(b0, |px: int, py: int| disc(px, py) && (py < y || (py == y && px < x)), |px: int, py: int| disc(px, py) && (py < y || (py == y && px < hi_x + 1)), color);
            }
            x = hi_x + 1;
        }
        proof {
            assert forall|px: int, py: int| on_canvas(px, py) implies ((disc(px, py) && (py < y || (py == y && px < x))) == (disc(px, py) && py < y + 1)) by {
                if disc(px, py) {
                    lemma_stamp_box(cx as int, cy as int, size as int, px, py);
                }
            }
            lemma_paint_ext(b0, |px: int, py: int| disc(px, py) && (py < y || (py == y && px < x)), |px: int, py: int| disc(px, py) && py < y + 1, color);
        }
        y = y + 1;
    }
    proof {
        assert forall|px: int, py: int| on_canvas(px, py) implies ((disc(px, py) && py < y) == disc(px, py)) by {
            if disc(px, py) {
                lemma_stamp_box(cx as int, cy as int, size as int, px, py);
            }
        }
        lemma_paint_ext(b0, |px: int, py: int| disc(px, py) && py < y, disc, color);
    }
}

/// Stamping one more point extends what the stamped points cover.
pub proof fn lemma_covered_push(pts: Seq<(int, int)>, k: int, size: int, x: int, y: int)
    requires
        0 <= k < pts.len(),
    ensures
        covered(pts.take(k + 1), size, x, y) == (covered(pts.take(k), size, x, y) || in_stamp(
            pts[k].0,
            pts[k].1,
            size,
            x,
            y,
        )),
{
    if covered(pts.take(k + 1), size, x, y) {
        let m = choose|m: int| 0 <= m < pts.take(k + 1).len() && #[trigger] in_stamp(pts.take(k + 1)[m].0, pts.take(k + 1)[m].1, size, x, y);
        if m < k {
            assert(pts.take(k)[m] == pts.take(k + 1)[m]);
        }
    }
    if covered(pts.take(k), size, x, y) {
        let m = choose|m: int| 0 <= m < pts.take(k).len() && #[trigger] in_stamp(pts.take(k)[m].0, pts.take(k)[m].1, size, x, y);
        assert(pts.take(k + 1)[m] == pts.take(k)[m]);
    }
    if in_stamp(pts[k].0, pts[k].1, size, x, y) {
        assert(pts.take(k + 1)[k] == pts[k]);
    }
}

/// Draw a brush stroke: a disc of width `brush_size` stamped at every point of the
/// Bresenham line from `(x0, y0)` to `(x1, y1)`, both ends included.
pub fn draw_brush_line(
    buffer: &mut Vec<u32>,
    x0: usize,
    y0: usize,
    x1: usize,
    y1: usize,
    color: u32,
    brush_size: usize,
)
    requires
        old(buffer)@.len() >= FRAME_LEN,
    ensures
        final(buffer)@ == paint(
            old(buffer)@,
            |x: int, y: int| on_stroke(x0 as int, y0 as int, x1 as int, y1 as int, brush_size as int, x, y),
            color,
        ),
{
    let ghost b0 = buffer@;
    let a: usize = if x0 < x1 { x1 - x0 } else { x0 - x1 };
    let b: usize = if y0 < y1 { y1 - y0 } else { y0 - y1 };
    let ghost steps = line_steps(a as int, b as int, 0, 0);
    let ghost path = line_path(x0 as int, y0 as int, x1 as int, y1 as int);
    let mut x: usize = x0;
    let mut y: usize = y0;
    let mut err: i128 = a as i128 - b as i128;
    let ghost mut i: int = 0;
    let ghost mut j: int = 0;
    let ghost mut k: int = 0;
    proof {
        lemma_paint_none(b0, color);
        lemma_paint_ext(b0, |px: int, py: int| false, |px: int, py: int| covered(path.take(0), brush_size as int, px, py), color);
    }
    loop
        invariant_except_break
            buffer@ == paint(b0, |px: int, py: int| covered(path.take(k), brush_size as int, px, py), color),
        invariant
            b0.len() >= FRAME_LEN,
            a == abs_diff(x0 as int, x1 as int),
            b == abs_diff(y0 as int, y1 as int),
            steps == line_steps(a as int, b as int, 0, 0),
            path == line_path(x0 as int, y0 as int, x1 as int, y1 as int),
            0 <= i <= a,
            0 <= j <= b,
            0 <= k < steps.len(),
            steps.skip(k) == line_steps(a as int, b as int, i, j),
            err == line_err(a as int, b as int, i, j),
            -2 * b <= err <= 2 * a,
            x == toward(x0 as int, x1 as int, i),
            y == toward(y0 as int, y1 as int, j),
        ensures
            buffer@ == paint(
                b0,
                |x: int, y: int| on_stroke(x0 as int, y0 as int, x1 as int, y1 as int, brush_size as int, x, y),
                color,
            ),
        decreases (a - i) + (b - j),
    {
        let ghost before = buffer@;
        proof {
            assert(steps.skip(k)[0] == steps[k]);
            assert(path[k] == (x as int, y as int));
        }
        draw_circle(buffer, x, y, brush_size, color);
        proof {
            lemma_paint_twice(
                b0,
                |px: int, py: int| covered(path.take(k), brush_size as int, px, py),
                |px: int, py: int| in_stamp(x as int, y as int, brush_size as int, px, py),
                color,
            );
            assert forall|px: int, py: int| on_canvas(px, py) implies ((covered(path.take(k), brush_size as int, px, py) || in_stamp(x as int, y as int, brush_size as int, px, py)) == covered(path.take(k + 1), brush_size as int, px, py)) by {
                lemma_covered_push(path, k, brush_size as int, px, py);
            }
            lemma_paint_ext(
                b0,
                |px: int, py: int| covered(path.take(k), brush_size as int, px, py) || in_stamp(x as int, y as int, brush_size as int, px, py),
                |px: int, py: int| covered(path.take(k + 1), brush_size as int, px, py),
                color,
            );
        }
        if x == x1 && y == y1 {
            proof {
                assert(i == a && j == b);
                assert(steps.skip(k).len() == 1);
                assert(path.take(k + 1) == path);
            }
            break;
        }
        proof {
            lemma_line_step(a as int, b as int, i, j);
            assert(steps.skip(k + 1) == steps.skip(k).skip(1));
        }
        let e2: i128 = 2 * err;
        let step_x = e2 >= -(b as i128);
        let step_y = e2 <= a as i128;
        if step_x {
            err = err - b as i128;
            x = if x0 < x1 { x + 1 } else { x - 1 };
        }
        if step_y {
            err = err + a as i128;
            y = if y0 < y1 { y + 1 } else { y - 1 };
        }
        proof {
            if step_x {
                i = i + 1;
            }
            if step_y {
                j = j + 1;
            }
            k = k + 1;
        }
    }
}

/// Draw a one-pixel Bresenham line from `(x0, y0)` to `(x1, y1)`, both ends included.
pub fn draw_line(buffer: &mut Vec<u32>, x0: usize, y0: usize, x1: usize, y1: usize, color: u32)
    requires
        old(buffer)@.len() >= FRAME_LEN,
    ensures
        final(buffer)@ == paint(
            old(buffer)@,
            |x: int, y: int| line_path(x0 as int, y0 as int, x1 as int, y1 as int).contains((x, y)),
            color,
        ),
{
    let ghost b0 = buffer@;
    draw_brush_line(buffer, x0, y0, x1, y1, color, 1);
    proof {
        let path = line_path(x0 as int, y0 as int, x1 as int, y1 as int);
        assert forall|px: int, py: int| on_canvas(px, py) implies (on_stroke(x0 as int, y0 as int, x1 as int, y1 as int, 1, px, py) == path.contains((px, py))) by {
            if on_stroke(x0 as int, y0 as int, x1 as int, y1 as int, 1, px, py) {
                let m = choose|m: int| 0 <= m < path.len() && #[trigger] in_stamp(path[m].0, path[m].1, 1, px, py);
                lemma_unit_stamp(path[m].0, path[m].1, px, py);
                assert(path[m] == (px, py));
            }
            if path.contains((px, py)) {
                let m = choose|m: int| 0 <= m < path.len() && path[m] == (px, py);
                lemma_unit_stamp(px, py, px, py);
                assert(in_stamp(path[m].0, path[m].1, 1, px, py));
            }
        }
        lemma_paint_ext(
            b0,
            |x: int, y: int| on_stroke(x0 as int, y0 as int, x1 as int, y1 as int, 1, x, y),
            |x: int, y: int| path.contains((x, y)),
            color,
        );
    }
}

} // verus!
