//! Shape outlines and fills over a drag box `(x1, y1)`-`(x2, y2)`.
use vstd::prelude::*;

use crate::canvas::{lemma_paint_ext, lemma_paint_none, lemma_paint_twice, on_canvas, paint};
use crate::raster::{draw_brush_line, draw_circle, in_stamp, on_stroke};
use crate::region::{fill_region, in_region, region_ok, Region};
use crate::ring::{ring_coord_at, ring_point, turn_at};
use crate::{ToolMode, FRAME_LEN};

verus! {

/// `2 pi` times `10^18`.
pub const TWO_PI_E18: u128 = 6283185307179586477;
/// `10^18`.
pub const E18: u128 = 1000000000000000000;

pub open spec fn lo(p: int, q: int) -> int {
    if p < q {
        p
    } else {
        q
    }
}

pub open spec fn hi(p: int, q: int) -> int {
    if p < q {
        q
    } else {
        p
    }
}

/// Side of the square that a drag box holds: its smaller dimension.
pub open spec fn square_side(x1: int, y1: int, x2: int, y2: int) -> int {
    let w = hi(x1, x2) - lo(x1, x2);
    let h = hi(y1, y2) - lo(y1, y2);
    if w < h {
        w
    } else {
        h
    }
}

/// The four brush strokes along the sides of the box `[l, r] x [t, b]`.
pub open spec fn on_box_outline(l: int, t: int, r: int, b: int, size: int, x: int, y: int) -> bool {
    on_stroke(l, t, r, t, size, x, y) || on_stroke(r, t, r, b, size, x, y) || on_stroke(
        r,
        b,
        l,
        b,
        size,
        x,
        y,
    ) || on_stroke(l, b, l, t, size, x, y)
}

/// Whether a triangle dragged from `(x1, y1)` to `(x2, y2)` points up: dragged upward.
pub open spec fn points_up(y1: int, y2: int) -> bool {
    y2 < y1
}

/// The three brush strokes of a triangle: apex at the middle of the top side when
/// it points up, of the bottom side otherwise; base on the opposite side.
pub open spec fn on_triangle_outline(x1: int, y1: int, x2: int, y2: int, size: int, x: int, y: int) -> bool {
    let left = lo(x1, x2);
    let right = hi(x1, x2);
    let mid = (left + right) / 2;
    let apex_y = if points_up(y1, y2) { lo(y1, y2) } else { hi(y1, y2) };
    let base_y = if points_up(y1, y2) { hi(y1, y2) } else { lo(y1, y2) };
    on_stroke(mid, apex_y, left, base_y, size, x, y) || on_stroke(mid, apex_y, right, base_y, size, x, y)
        || on_stroke(left, base_y, right, base_y, size, x, y)
}

/// Brush strokes joining samples `0..=n` of an ellipse (doubled center and radii).
pub open spec fn on_ring(cx2: int, cy2: int, rx2: int, ry2: int, n: int, size: int, x: int, y: int) -> bool {
    exists|i: int|
        1 <= i <= n && #[trigger] on_stroke(
            ring_point(cx2, cy2, rx2, ry2, i - 1, n).0,
            ring_point(cx2, cy2, rx2, ry2, i - 1, n).1,
            ring_point(cx2, cy2, rx2, ry2, i, n).0,
            ring_point(cx2, cy2, rx2, ry2, i, n).1,
            size,
            x,
            y,
        )
}

pub open spec fn clamp_steps(n: int) -> int {
    if n < 32 {
        32
    } else if n > usize::MAX {
        usize::MAX as int
    } else {
        n
    }
}

/// Samples on a circle of diameter `d`: twice its circumference, at least 32.
pub open spec fn circle_steps(d: int) -> int {
    clamp_steps(d * TWO_PI_E18 / E18 as int)
}

/// Samples on an ellipse with radii `rx`, `ry`: `4 (rx + ry)`, at least 32.
pub open spec fn oval_steps(rx: int, ry: int) -> int {
    clamp_steps(4 * (rx + ry))
}

/// Outline of the circle whose diameter is the smaller side of the drag box,
/// placed at the box's top-left corner; a single stamp at the box's center
/// when that diameter is below 2.
pub open spec fn on_circle_outline(x1: int, y1: int, x2: int, y2: int, size: int, x: int, y: int) -> bool {
    let d = square_side(x1, y1, x2, y2);
    let l = lo(x1, x2);
    let t = lo(y1, y2);
    if d < 2 {
        in_stamp((l + hi(x1, x2)) / 2, (t + hi(y1, y2)) / 2, size, x, y)
    } else {
        on_ring(2 * l + d, 2 * t + d, d, d, circle_steps(d), size, x, y)
    }
}

/// Outline of the ellipse inscribed in the drag box (center and radii rounded
/// down); a straight stroke between the drag points when a radius is 0.
pub open spec fn on_oval_outline(x1: int, y1: int, x2: int, y2: int, size: int, x: int, y: int) -> bool {
    let cx = (lo(x1, x2) + hi(x1, x2)) / 2;
    let cy = (lo(y1, y2) + hi(y1, y2)) / 2;
    let rx = (hi(x1, x2) - lo(x1, x2)) / 2;
    let ry = (hi(y1, y2) - lo(y1, y2)) / 2;
    if rx == 0 || ry == 0 {
        on_stroke(x1, y1, x2, y2, size, x, y)
    } else {
        on_ring(2 * cx, 2 * cy, 2 * rx, 2 * ry, oval_steps(rx, ry), size, x, y)
    }
}

/// What the outline of `tool` over the drag box covers.
pub open spec fn on_outline(tool: ToolMode, x1: int, y1: int, x2: int, y2: int, size: int, x: int, y: int) -> bool {
    match tool {
        ToolMode::Brush => false,
        ToolMode::Line => on_stroke(x1, y1, x2, y2, size, x, y),
        ToolMode::Square => {
            let l = lo(x1, x2);
            let t = lo(y1, y2);
            let s = square_side(x1, y1, x2, y2);
            on_box_outline(l, t, l + s, t + s, size, x, y)
        },
        ToolMode::Rectangle => on_box_outline(lo(x1, x2), lo(y1, y2), hi(x1, x2), hi(y1, y2), size, x, y),
        ToolMode::Circle => on_circle_outline(x1, y1, x2, y2, size, x, y),
        ToolMode::Oval => on_oval_outline(x1, y1, x2, y2, size, x, y),
        ToolMode::Triangle => on_triangle_outline(x1, y1, x2, y2, size, x, y),
    }
}

/// The filled region of a shape tool over the drag box.
pub open spec fn fill_shape(tool: ToolMode, x1: usize, y1: usize, x2: usize, y2: usize) -> Region {
    let l = lo(x1 as int, x2 as int) as usize;
    let t = lo(y1 as int, y2 as int) as usize;
    let r = hi(x1 as int, x2 as int) as usize;
    let b = hi(y1 as int, y2 as int) as usize;
    let s = square_side(x1 as int, y1 as int, x2 as int, y2 as int) as usize;
    match tool {
        ToolMode::Square => Region::Rect { left: l, top: t, right: (l + s) as usize, bottom: (t + s) as usize },
        ToolMode::Circle => Region::Round { left: l, top: t, d: s },
        ToolMode::Oval => Region::Ellipse { left: l, top: t, right: r, bottom: b },
        ToolMode::Triangle => Region::Tri { left: l, top: t, right: r, bottom: b, up: points_up(y1 as int, y2 as int) },
        _ => Region::Rect { left: l, top: t, right: r, bottom: b },
    }
}

/// What filling `tool` over the drag box covers; lines have no fill.
pub open spec fn in_fill(tool: ToolMode, x1: usize, y1: usize, x2: usize, y2: usize, x: int, y: int) -> bool {
    match tool {
        ToolMode::Brush | ToolMode::Line => false,
        _ => in_region(fill_shape(tool, x1, y1, x2, y2), x, y),
    }
}

/// The buffer after drawing a shape: the fill first, then the outline on top.
pub open spec fn shape_drawn(
    b: Seq<u32>,
    tool: ToolMode,
    x1: usize,
    y1: usize,
    x2: usize,
    y2: usize,
    edge: Option<u32>,
    fill: Option<u32>,
    size: usize,
) -> Seq<u32> {
    let filled = match fill {
        Some(c) => paint(b, |x: int, y: int| in_fill(tool, x1, y1, x2, y2, x, y), c),
        None => b,
    };
    match edge {
        Some(c) => paint(
            filled,
            |x: int, y: int| on_outline(tool, x1 as int, y1 as int, x2 as int, y2 as int, size as int, x, y),
            c,
        ),
        None => filled,
    }
}

fn ordered(p: usize, q: usize) -> (r: (usize, usize))
    ensures
        r.0 as int == lo(p as int, q as int),
        r.1 as int == hi(p as int, q as int),
{
    if p < q {
        (p, q)
    } else {
        (q, p)
    }
}

/// Brush strokes along the four sides of the box `[l, r] x [t, b]`.
fn draw_box_outline(buffer: &mut Vec<u32>, l: usize, t: usize, r: usize, b: usize, color: u32, size: usize)
    requires
        old(buffer)@.len() >= FRAME_LEN,
    ensures
        final(buffer)@ == paint(
            old(buffer)@,
            |x: int, y: int| on_box_outline(l as int, t as int, r as int, b as int, size as int, x, y),
            color,
        ),
{
    let ghost b0 = buffer@;
    draw_brush_line(buffer, l, t, r, t, color, size);
    draw_brush_line(buffer, r, t, r, b, color, size);
    draw_brush_line(buffer, r, b, l, b, color, size);
    draw_brush_line(buffer, l, b, l, t, color, size);
    proof {
        let s = size as int;
        let p1 = |x: int, y: int| on_stroke(l as int, t as int, r as int, t as int, s, x, y);
        let p2 = |x: int, y: int| on_stroke(r as int, t as int, r as int, b as int, s, x, y);
        let p3 = |x: int, y: int| on_stroke(r as int, b as int, l as int, b as int, s, x, y);
        let p4 = |x: int, y: int| on_stroke(l as int, b as int, l as int, t as int, s, x, y);
        let q12 = |x: int, y: int| p1(x, y) || p2(x, y);
        let q123 = |x: int, y: int| q12(x, y) || p3(x, y);
        lemma_paint_twice(b0, p1, p2, color);
        lemma_paint_twice(b0, q12, p3, color);
        lemma_paint_twice(b0, q123, p4, color);
        lemma_paint_ext(
            b0,
            |x: int, y: int| q123(x, y) || p4(x, y),
            |x: int, y: int| on_box_outline(l as int, t as int, r as int, b as int, s, x, y),
            color,
        );
    }
}

/// Brush strokes joining samples `0..=n` of an ellipse (doubled center and radii).
fn draw_ring(buffer: &mut Vec<u32>, cx2: u128, cy2: u128, rx2: u128, ry2: u128, n: u128, color: u32, size: usize)
    requires
        old(buffer)@.len() >= FRAME_LEN,
        cx2 <= 4 * (usize::MAX as int),
        cy2 <= 4 * (usize::MAX as int),
        rx2 <= 4 * (usize::MAX as int),
        ry2 <= 4 * (usize::MAX as int),
        0 < n <= usize::MAX,
    ensures
        final(buffer)@ == paint(
            old(buffer)@,
            |x: int, y: int| on_ring(cx2 as int, cy2 as int, rx2 as int, ry2 as int, n as int, size as int, x, y),
            color,
        ),
{
    let ghost b0 = buffer@;
    let ghost pt = |i: int| ring_point(cx2 as int, cy2 as int, rx2 as int, ry2 as int, i, n as int);
    let t0 = turn_at(0, n);
    let mut px = ring_coord_at(cx2, rx2, t0.0);
    let mut py = ring_coord_at(cy2, ry2, t0.1);
    let mut i: u128 = 1;
    proof {
        lemma_paint_none(b0, color);
        lemma_paint_ext(
            b0,
            |x: int, y: int| false,
            |x: int, y: int| exists|j: int| 1 <= j < i && #[trigger] on_stroke(pt(j - 1).0, pt(j - 1).1, pt(j).0, pt(j).1, size as int, x, y),
            color,
        );
    }
    while i <= n
        invariant
            b0.len() >= FRAME_LEN,
            cx2 <= 4 * (usize::MAX as int),
            cy2 <= 4 * (usize::MAX as int),
            rx2 <= 4 * (usize::MAX as int),
            ry2 <= 4 * (usize::MAX as int),
            0 < n <= usize::MAX,
            1 <= i <= n + 1,
            pt == |i: int| ring_point(cx2 as int, cy2 as int, rx2 as int, ry2 as int, i, n as int),
            (px as int, py as int) == pt(i - 1),
            buffer@ == paint(
                b0,
                |x: int, y: int| exists|j: int| 1 <= j < i && #[trigger] on_stroke(pt(j - 1).0, pt(j - 1).1, pt(j).0, pt(j).1, size as int, x, y),
                color,
            ),
        decreases n + 1 - i,
    {
        let t = turn_at(i, n);
        let qx = ring_coord_at(cx2, rx2, t.0);
        let qy = ring_coord_at(cy2, ry2, t.1);
        draw_brush_line(buffer, px, py, qx, qy, color, size);
        proof {
            let before = |x: int, y: int| exists|j: int| 1 <= j < i && #[trigger] on_stroke(pt(j - 1).0, pt(j - 1).1, pt(j).0, pt(j).1, size as int, x, y);
            let seg = |x: int, y: int| on_stroke(px as int, py as int, qx as int, qy as int, size as int, x, y);
            let after = |x: int, y: int| exists|j: int| 1 <= j < i + 1 && #[trigger] on_stroke(pt(j - 1).0, pt(j - 1).1, pt(j).0, pt(j).1, size as int, x, y);
            lemma_paint_twice(b0, before, seg, color);
            assert((qx as int, qy as int) == pt(i as int));
            assert forall|x: int, y: int| on_canvas(x, y) implies ((before(x, y) || seg(x, y)) == after(x, y)) by {
                if seg(x, y) {
                    assert(on_stroke(pt(i - 1).0, pt(i - 1).1, pt(i as int).0, pt(i as int).1, size as int, x, y));
                }
                if after(x, y) && !before(x, y) {
                    let j = choose|j: int| 1 <= j < i + 1 && #[trigger] on_stroke(pt(j - 1).0, pt(j - 1).1, pt(j).0, pt(j).1, size as int, x, y);
                    assert(j == i);
                }
            }
            lemma_paint_ext(b0, |x: int, y: int| before(x, y) || seg(x, y), after, color);
        }
        px = qx;
        py = qy;
        i = i + 1;
    }
    proof {
        assert forall|x: int, y: int| on_canvas(x, y) implies ((exists|j: int| 1 <= j < i && #[trigger] on_stroke(pt(j - 1).0, pt(j - 1).1, pt(j).0, pt(j).1, size as int, x, y)) == on_ring(cx2 as int, cy2 as int, rx2 as int, ry2 as int, n as int, size as int, x, y)) by {
            if exists|j: int| 1 <= j < i && #[trigger] on_stroke(pt(j - 1).0, pt(j - 1).1, pt(j).0, pt(j).1, size as int, x, y) {
                let j = choose|j: int| 1 <= j < i && #[trigger] on_stroke(pt(j - 1).0, pt(j - 1).1, pt(j).0, pt(j).1, size as int, x, y);
                assert(on_stroke(
                    ring_point(cx2 as int, cy2 as int, rx2 as int, ry2 as int, j - 1, n as int).0,
                    ring_point(cx2 as int, cy2 as int, rx2 as int, ry2 as int, j - 1, n as int).1,
                    ring_point(cx2 as int, cy2 as int, rx2 as int, ry2 as int, j, n as int).0,
                    ring_point(cx2 as int, cy2 as int, rx2 as int, ry2 as int, j, n as int).1,
                    size as int,
                    x,
                    y,
                ));
            }
            if on_ring(cx2 as int, cy2 as int, rx2 as int, ry2 as int, n as int, size as int, x, y) {
                let j = choose|j: int|
                    1 <= j <= n && #[trigger] on_stroke(
                        ring_point(cx2 as int, cy2 as int, rx2 as int, ry2 as int, j - 1, n as int).0,
                        ring_point(cx2 as int, cy2 as int, rx2 as int, ry2 as int, j - 1, n as int).1,
                        ring_point(cx2 as int, cy2 as int, rx2 as int, ry2 as int, j, n as int).0,
                        ring_point(cx2 as int, cy2 as int, rx2 as int, ry2 as int, j, n as int).1,
                        size as int,
                        x,
                        y,
                    );
                assert(on_stroke(pt(j - 1).0, pt(j - 1).1, pt(j).0, pt(j).1, size as int, x, y));
            }
        }
        lemma_paint_ext(
            b0,
            |x: int, y: int| exists|j: int| 1 <= j < i && #[trigger] on_stroke(pt(j - 1).0, pt(j - 1).1, pt(j).0, pt(j).1, size as int, x, y),
            |x: int, y: int| on_ring(cx2 as int, cy2 as int, rx2 as int, ry2 as int, n as int, size as int, x, y),
            color,
        );
    }
}

fn steps_of(n: u128) -> (r: u128)
    ensures
        r as int == clamp_steps(n as int),
        0 < r <= usize::MAX,
{
    if n < 32 {
        32
    } else if n > usize::MAX as u128 {
        usize::MAX as u128
    } else {
        n
    }
}

/// Draw the largest square that fits the drag box, anchored at its top-left corner.
pub fn draw_shape_square(buffer: &mut Vec<u32>, x1: usize, y1: usize, x2: usize, y2: usize, color: u32, brush_size: usize)
    requires
        old(buffer)@.len() >= FRAME_LEN,
    ensures
        final(buffer)@ == paint(
            old(buffer)@,
            |x: int, y: int| on_outline(ToolMode::Square, x1 as int, y1 as int, x2 as int, y2 as int, brush_size as int, x, y),
            color,
        ),
{
    let (left, right) = ordered(x1, x2);
    let (top, bottom) = ordered(y1, y2);
    let width = right - left;
    let height = bottom - top;
    let side = if width < height { width } else { height };
    draw_box_outline(buffer, left, top, left + side, top + side, color, brush_size);
}

/// Draw the outline of the drag box.
pub fn draw_shape_rectangle(buffer: &mut Vec<u32>, x1: usize, y1: usize, x2: usize, y2: usize, color: u32, brush_size: usize)
    requires
        old(buffer)@.len() >= FRAME_LEN,
    ensures
        final(buffer)@ == paint(
            old(buffer)@,
            |x: int, y: int| on_outline(ToolMode::Rectangle, x1 as int, y1 as int, x2 as int, y2 as int, brush_size as int, x, y),
            color,
        ),
{
    let (left, right) = ordered(x1, x2);
    let (top, bottom) = ordered(y1, y2);
    draw_box_outline(buffer, left, top, right, bottom, color, brush_size);
}

/// Draw the circle whose diameter is the smaller side of the drag box, traced
/// through `max(32, 2 pi d)` samples joined by brush strokes.
pub fn draw_shape_circle(buffer: &mut Vec<u32>, x1: usize, y1: usize, x2: usize, y2: usize, color: u32, brush_size: usize)
    requires
        old(buffer)@.len() >= FRAME_LEN,
    ensures
        final(buffer)@ == paint(
            old(buffer)@,
            |x: int, y: int| on_outline(ToolMode::Circle, x1 as int, y1 as int, x2 as int, y2 as int, brush_size as int, x, y),
            color,
        ),
{
    let ghost b0 = buffer@;
    let (left, right) = ordered(x1, x2);
    let (top, bottom) = ordered(y1, y2);
    let width = right - left;
    let height = bottom - top;
    let diameter = if width < height { width } else { height };
    if diameter < 2 {
        draw_circle(buffer, left + (right - left) / 2, top + (bottom - top) / 2, brush_size, color);
        proof {
            assert(left + (right - left) / 2 == (left + right) / 2);
            assert(top + (bottom - top) / 2 == (top + bottom) / 2);
        }
        return;
    }
    proof {
        assert((diameter as u128) * TWO_PI_E18 <= u128::MAX) by (nonlinear_arith)
            requires
                diameter <= usize::MAX,
        ;
    }
    let n = steps_of((diameter as u128) * TWO_PI_E18 / E18);
    let c2x = 2 * (left as u128) + diameter as u128;
    let c2y = 2 * (top as u128) + diameter as u128;
    draw_ring(buffer, c2x, c2y, diameter as u128, diameter as u128, n, color, brush_size);
    proof {
        lemma_paint_ext(
            b0,
            |x: int, y: int| on_ring(c2x as int, c2y as int, diameter as int, diameter as int, n as int, brush_size as int, x, y),
            |x: int, y: int| on_outline(ToolMode::Circle, x1 as int, y1 as int, x2 as int, y2 as int, brush_size as int, x, y),
            color,
        );
    }
}

/// Draw the ellipse inscribed in the drag box, traced through
/// `max(32, 4 (rx + ry))` samples joined by brush strokes.
pub fn draw_shape_oval(buffer: &mut Vec<u32>, x1: usize, y1: usize, x2: usize, y2: usize, color: u32, brush_size: usize)
    requires
        old(buffer)@.len() >= FRAME_LEN,
    ensures
        final(buffer)@ == paint(
            old(buffer)@,
            |x: int, y: int| on_outline(ToolMode::Oval, x1 as int, y1 as int, x2 as int, y2 as int, brush_size as int, x, y),
            color,
        ),
{
    let ghost b0 = buffer@;
    let (left, right) = ordered(x1, x2);
    let (top, bottom) = ordered(y1, y2);
    let cx = left + (right - left) / 2;
    let cy = top + (bottom - top) / 2;
    let rx = (right - left) / 2;
    let ry = (bottom - top) / 2;
    proof {
        assert(cx == (left + right) / 2);
        assert(cy == (top + bottom) / 2);
    }
    if rx == 0 || ry == 0 {
        draw_brush_line(buffer, x1, y1, x2, y2, color, brush_size);
        return;
    }
    let n = steps_of(4 * (rx as u128 + ry as u128));
    draw_ring(buffer, 2 * cx as u128, 2 * cy as u128, 2 * rx as u128, 2 * ry as u128, n, color, brush_size);
    proof {
        lemma_paint_ext(
            b0,
            |x: int, y: int| on_ring(2 * cx, 2 * cy, 2 * rx, 2 * ry, n as int, brush_size as int, x, y),
            |x: int, y: int| on_outline(ToolMode::Oval, x1 as int, y1 as int, x2 as int, y2 as int, brush_size as int, x, y),
            color,
        );
    }
}

/// Draw a triangle in the drag box: apex up when dragged upward, down otherwise.
pub fn draw_shape_triangle(buffer: &mut Vec<u32>, x1: usize, y1: usize, x2: usize, y2: usize, color: u32, brush_size: usize)
    requires
        old(buffer)@.len() >= FRAME_LEN,
    ensures
        final(buffer)@ == paint(
            old(buffer)@,
            |x: int, y: int| on_outline(ToolMode::Triangle, x1 as int, y1 as int, x2 as int, y2 as int, brush_size as int, x, y),
            color,
        ),
{
    let ghost b0 = buffer@;
    let (left, right) = ordered(x1, x2);
    let (top, bottom) = ordered(y1, y2);
    let pointing_up = y2 < y1;
    let mid_x = left + (right - left) / 2;
    let apex_y = if pointing_up { top } else { bottom };
    let base_y = if pointing_up { bottom } else { top };
    proof {
        assert(mid_x == (left + right) / 2);
    }
    draw_brush_line(buffer, mid_x, apex_y, left, base_y, color, brush_size);
    draw_brush_line(buffer, mid_x, apex_y, right, base_y, color, brush_size);
    draw_brush_line(buffer, left, base_y, right, base_y, color, brush_size);
    proof {
        let s = brush_size as int;
        let p1 = |x: int, y: int| on_stroke(mid_x as int, apex_y as int, left as int, base_y as int, s, x, y);
        let p2 = |x: int, y: int| on_stroke(mid_x as int, apex_y as int, right as int, base_y as int, s, x, y);
        let p3 = |x: int, y: int| on_stroke(left as int, base_y as int, right as int, base_y as int, s, x, y);
        let q12 = |x: int, y: int| p1(x, y) || p2(x, y);
        lemma_paint_twice(b0, p1, p2, color);
        lemma_paint_twice(b0, q12, p3, color);
        lemma_paint_ext(
            b0,
            |x: int, y: int| q12(x, y) || p3(x, y),
            |x: int, y: int| on_outline(ToolMode::Triangle, x1 as int, y1 as int, x2 as int, y2 as int, s, x, y),
            color,
        );
    }
}

/// Draw the outline of `tool` over the drag box; the brush tool draws nothing here.
pub fn draw_shape(
    buffer: &mut Vec<u32>,
    tool: ToolMode,
    x1: usize,
    y1: usize,
    x2: usize,
    y2: usize,
    color: u32,
    brush_size: usize,
)
    requires
        old(buffer)@.len() >= FRAME_LEN,
    ensures
        final(buffer)@ == paint(
            old(buffer)@,
            |x: int, y: int| on_outline(tool, x1 as int, y1 as int, x2 as int, y2 as int, brush_size as int, x, y),
            color,
        ),
{
    let ghost b0 = buffer@;
    match tool {
        ToolMode::Brush => {
            proof {
                lemma_paint_none(b0, color);
                lemma_paint_ext(
                    b0,
                    |x: int, y: int| false,
                    |x: int, y: int| on_outline(tool, x1 as int, y1 as int, x2 as int, y2 as int, brush_size as int, x, y),
                    color,
                );
            }
        },
        ToolMode::Line => {
            draw_brush_line(buffer, x1, y1, x2, y2, color, brush_size);
        },
        ToolMode::Square => {
            draw_shape_square(buffer, x1, y1, x2, y2, color, brush_size);
        },
        ToolMode::Rectangle => {
            draw_shape_rectangle(buffer, x1, y1, x2, y2, color, brush_size);
        },
        ToolMode::Circle => {
            draw_shape_circle(buffer, x1, y1, x2, y2, color, brush_size);
        },
        ToolMode::Oval => {
            draw_shape_oval(buffer, x1, y1, x2, y2, color, brush_size);
        },
        ToolMode::Triangle => {
            draw_shape_triangle(buffer, x1, y1, x2, y2, color, brush_size);
        },
    }
}

/// Fill the largest square that fits the drag box, anchored at its top-left corner.
pub fn fill_square(buffer: &mut Vec<u32>, x1: usize, y1: usize, x2: usize, y2: usize, color: u32)
    requires
        old(buffer)@.len() >= FRAME_LEN,
    ensures
        final(buffer)@ == paint(old(buffer)@, |x: int, y: int| in_fill(ToolMode::Square, x1, y1, x2, y2, x, y), color),
{
    let (left, right) = ordered(x1, x2);
    let (top, bottom) = ordered(y1, y2);
    let width = right - left;
    let height = bottom - top;
    let side = if width < height { width } else { height };
    fill_region(buffer, Region::Rect { left, top, right: left + side, bottom: top + side }, color);
}

/// Fill the drag box.
pub fn fill_rectangle(buffer: &mut Vec<u32>, x1: usize, y1: usize, x2: usize, y2: usize, color: u32)
    requires
        old(buffer)@.len() >= FRAME_LEN,
    ensures
        final(buffer)@ == paint(old(buffer)@, |x: int, y: int| in_fill(ToolMode::Rectangle, x1, y1, x2, y2, x, y), color),
{
    let (left, right) = ordered(x1, x2);
    let (top, bottom) = ordered(y1, y2);
    fill_region(buffer, Region::Rect { left, top, right, bottom }, color);
}

/// Fill the disc whose diameter is the smaller side of the drag box, placed at its
/// top-left corner: the points within `d / 2` of its center.
pub fn fill_circle(buffer: &mut Vec<u32>, x1: usize, y1: usize, x2: usize, y2: usize, color: u32)
    requires
        old(buffer)@.len() >= FRAME_LEN,
    ensures
        final(buffer)@ == paint(old(buffer)@, |x: int, y: int| in_fill(ToolMode::Circle, x1, y1, x2, y2, x, y), color),
{
    let (left, right) = ordered(x1, x2);
    let (top, bottom) = ordered(y1, y2);
    let width = right - left;
    let height = bottom - top;
    let d = if width < height { width } else { height };
    fill_region(buffer, Region::Round { left, top, d }, color);
}

/// Fill the ellipse inscribed in the drag box; nothing when it is flat.
pub fn fill_oval(buffer: &mut Vec<u32>, x1: usize, y1: usize, x2: usize, y2: usize, color: u32)
    requires
        old(buffer)@.len() >= FRAME_LEN,
    ensures
        final(buffer)@ == paint(old(buffer)@, |x: int, y: int| in_fill(ToolMode::Oval, x1, y1, x2, y2, x, y), color),
{
    let (left, right) = ordered(x1, x2);
    let (top, bottom) = ordered(y1, y2);
    fill_region(buffer, Region::Ellipse { left, top, right, bottom }, color);
}

/// Fill a triangle in the drag box row by row, with the same apex rule as its outline.
pub fn fill_triangle(buffer: &mut Vec<u32>, x1: usize, y1: usize, x2: usize, y2: usize, color: u32)
    requires
        old(buffer)@.len() >= FRAME_LEN,
    ensures
        final(buffer)@ == paint(old(buffer)@, |x: int, y: int| in_fill(ToolMode::Triangle, x1, y1, x2, y2, x, y), color),
{
    let (left, right) = ordered(x1, x2);
    let (top, bottom) = ordered(y1, y2);
    fill_region(buffer, Region::Tri { left, top, right, bottom, up: y2 < y1 }, color);
}

/// Draw a shape with optional fill and edge colors: the fill first, then the edge on top.
pub fn draw_shape_with_fill(
    buffer: &mut Vec<u32>,
    tool: ToolMode,
    x1: usize,
    y1: usize,
    x2: usize,
    y2: usize,
    edge_color: Option<u32>,
    fill_color: Option<u32>,
    brush_size: usize,
)
    requires
        old(buffer)@.len() >= FRAME_LEN,
    ensures
        final(buffer)@ == shape_drawn(old(buffer)@, tool, x1, y1, x2, y2, edge_color, fill_color, brush_size),
{
    let ghost b0 = buffer@;
    if let Some(fill) = fill_color {
        match tool {
            ToolMode::Brush | ToolMode::Line => {
                proof {
                    lemma_paint_none(b0, fill);
                    lemma_paint_ext(b0, |x: int, y: int| false, |x: int, y: int| in_fill(tool, x1, y1, x2, y2, x, y), fill);
                }
            },
            ToolMode::Square => {
                fill_square(buffer, x1, y1, x2, y2, fill);
            },
            ToolMode::Rectangle => {
                fill_rectangle(buffer, x1, y1, x2, y2, fill);
            },
            ToolMode::Circle => {
                fill_circle(buffer, x1, y1, x2, y2, fill);
            },
            ToolMode::Oval => {
                fill_oval(buffer, x1, y1, x2, y2, fill);
            },
            ToolMode::Triangle => {
                fill_triangle(buffer, x1, y1, x2, y2, fill);
            },
        }
    }
    if let Some(edge) = edge_color {
        draw_shape(buffer, tool, x1, y1, x2, y2, edge, brush_size);
    }
}

} // verus!
