//! Filled regions: rectangles, discs inscribed in a square, ellipses and
//! triangles, each with an exact integer membership test.
use vstd::prelude::*;

use crate::canvas::{lemma_paint_add, lemma_paint_ext, lemma_paint_none, lemma_pix_bound, on_canvas, paint};
use crate::wide::product_le;
use crate::{CANVAS_BOTTOM, CANVAS_TOP, FRAME_LEN, WIDTH};

verus! {

/// A region of the plane, given by its bounding box.
#[derive(Clone, Copy)]
pub enum Region {
    /// Every point of the box.
    Rect { left: usize, top: usize, right: usize, bottom: usize },
    /// The disc inscribed in the square of side `d` at `(left, top)`.
    Round { left: usize, top: usize, d: usize },
    /// The ellipse inscribed in the box.
    Ellipse { left: usize, top: usize, right: usize, bottom: usize },
    /// The triangle with its base on one side of the box and its apex at the middle
    /// of the other (the top side when `up`).
    Tri { left: usize, top: usize, right: usize, bottom: usize, up: bool },
}

/// Square of an integer.
pub open spec fn sq(v: int) -> int {
    v * v
}

/// Left end of row `y` of a triangle: the apex column moved toward `left` by the
/// share of the box's height that lies between the apex row and `y`, rounded outward.
pub open spec fn tri_left(left: int, top: int, right: int, bottom: int, up: bool, y: int) -> int {
    let mid = (left + right) / 2;
    let h = bottom - top;
    let s = if up { y - top } else { bottom - y };
    if h == 0 {
        mid
    } else {
        mid - (s * (mid - left) + h - 1) / h
    }
}

/// Right end of row `y` of a triangle, rounded inward.
pub open spec fn tri_right(left: int, top: int, right: int, bottom: int, up: bool, y: int) -> int {
    let mid = (left + right) / 2;
    let h = bottom - top;
    let s = if up { y - top } else { bottom - y };
    if h == 0 {
        mid
    } else {
        mid + s * (right - mid) / h
    }
}

pub open spec fn in_region(g: Region, x: int, y: int) -> bool {
    match g {
        Region::Rect { left, top, right, bottom } => left <= x <= right && top <= y <= bottom,
        Region::Round { left, top, d } => sq(2 * x - 2 * left - d) + sq(2 * y - 2 * top - d) <= sq(
            d as int,
        ),
        Region::Ellipse { left, top, right, bottom } => {
            let w = right - left;
            let h = bottom - top;
            &&& w > 0
            &&& h > 0
            &&& sq(2 * x - left - right) * sq(h) + sq(2 * y - top - bottom) * sq(w) <= sq(w) * sq(h)
        },
        Region::Tri { left, top, right, bottom, up } => {
            &&& top <= y <= bottom
            &&& tri_left(left as int, top as int, right as int, bottom as int, up, y) <= x
            &&& x <= tri_right(left as int, top as int, right as int, bottom as int, up, y)
        },
    }
}

/// Whether the region's box is ordered and its far corner fits in a `usize`.
pub open spec fn region_ok(g: Region) -> bool {
    match g {
        Region::Rect { left, top, right, bottom } => left <= right && top <= bottom,
        Region::Round { left, top, d } => left + d <= usize::MAX && top + d <= usize::MAX,
        Region::Ellipse { left, top, right, bottom } => left <= right && top <= bottom,
        Region::Tri { left, top, right, bottom, up } => left <= right && top <= bottom,
    }
}

/// Bounding box `(left, top, right, bottom)` of a region.
pub open spec fn region_box(g: Region) -> (int, int, int, int) {
    match g {
        Region::Rect { left, top, right, bottom } => (left as int, top as int, right as int, bottom as int),
        Region::Round { left, top, d } => (left as int, top as int, left + d, top + d),
        Region::Ellipse { left, top, right, bottom } => (left as int, top as int, right as int, bottom as int),
        Region::Tri { left, top, right, bottom, up } => (left as int, top as int, right as int, bottom as int),
    }
}

proof fn lemma_sq_le(v: int, r: int)
    requires
        r >= 0,
        sq(v) <= sq(r),
    ensures
        -r <= v <= r,
{
    if v > r {
        assert(sq(v) > sq(r)) by (nonlinear_arith)
            requires
                v > r,
                r >= 0,
        ;
    }
    if v < -r {
        assert(sq(v) > sq(r)) by (nonlinear_arith)
            requires
                v < -r,
                r >= 0,
        ;
    }
}

proof fn lemma_sq_nonneg(v: int)
    ensures
        sq(v) >= 0,
{
    assert(v * v >= 0) by (nonlinear_arith);
}

/// Every point of a region lies in its box.
pub proof fn lemma_region_box(g: Region, x: int, y: int)
    requires
        region_ok(g),
        in_region(g, x, y),
    ensures
        region_box(g).0 <= x <= region_box(g).2,
        region_box(g).1 <= y <= region_box(g).3,
{
    match g {
        Region::Rect { .. } => {},
        Region::Round { left, top, d } => {
            lemma_sq_nonneg(2 * x - 2 * left - d);
            lemma_sq_nonneg(2 * y - 2 * top - d);
            lemma_sq_le(2 * x - 2 * left - d, d as int);
            lemma_sq_le(2 * y - 2 * top - d, d as int);
        },
        Region::Ellipse { left, top, right, bottom } => {
            let w = right - left;
            let h = bottom - top;
            let dx = 2 * x - left - right;
            let dy = 2 * y - top - bottom;
            lemma_sq_nonneg(dx);
            lemma_sq_nonneg(dy);
            lemma_sq_nonneg(w);
            lemma_sq_nonneg(h);
            assert(sq(dy) * sq(w) >= 0) by (nonlinear_arith)
                requires
                    sq(dy) >= 0,
                    sq(w) >= 0,
            ;
            assert(sq(dx) * sq(h) >= 0) by (nonlinear_arith)
                requires
                    sq(dx) >= 0,
                    sq(h) >= 0,
            ;
            assert(sq(h) > 0) by (nonlinear_arith)
                requires
                    h > 0,
            ;
            assert(sq(w) > 0) by (nonlinear_arith)
                requires
                    w > 0,
            ;
            assert(sq(dx) <= sq(w)) by (nonlinear_arith)
                requires
                    sq(dx) * sq(h) <= sq(w) * sq(h),
                    sq(h) > 0,
            ;
            assert(sq(dy) <= sq(h)) by (nonlinear_arith)
                requires
                    sq(dy) * sq(w) <= sq(w) * sq(h),
                    sq(w) > 0,
            ;
            lemma_sq_le(dx, w);
            lemma_sq_le(dy, h);
        },
        Region::Tri { left, top, right, bottom, up } => {
            let mid = (left + right) / 2;
            let h = bottom - top;
            let s = if up { y - top } else { bottom - y };
            if h != 0 {
                assert(0 <= s <= h);
                assert(s * (mid - left) <= h * (mid - left)) by (nonlinear_arith)
                    requires
                        0 <= s <= h,
                        mid - left >= 0,
                ;
                assert((s * (mid - left) + h - 1) / h <= mid - left) by (nonlinear_arith)
                    requires
                        s * (mid - left) <= h * (mid - left),
                        h > 0,
                ;
                assert(s * (right - mid) <= h * (right - mid)) by (nonlinear_arith)
                    requires
                        0 <= s <= h,
                        right - mid >= 0,
                ;
                assert(s * (right - mid) / h <= right - mid) by (nonlinear_arith)
                    requires
                        s * (right - mid) <= h * (right - mid),
                        h > 0,
                ;
                assert(s * (mid - left) >= 0) by (nonlinear_arith)
                    requires
                        s >= 0,
                        mid - left >= 0,
                ;
                assert((s * (mid - left) + h - 1) / h >= 0) by (nonlinear_arith)
                    requires
                        s * (mid - left) >= 0,
                        h > 0,
                ;
                assert(s * (right - mid) >= 0) by (nonlinear_arith)
                    requires
                        s >= 0,
                        right - mid >= 0,
                ;
                assert(s * (right - mid) / h >= 0) by (nonlinear_arith)
                    requires
                        s * (right - mid) >= 0,
                        h > 0,
                ;
            }
        },
    }
}

fn dist(p: u128, q: u128) -> (r: u128)
    ensures
        r == if p < q { q - p } else { p - q },
{
    if p < q {
        q - p
    } else {
        p - q
    }
}

/// Whether the drawable pixel `(x, y)` belongs to the region.
fn region_contains(g: Region, x: usize, y: usize) -> (r: bool)
    requires
        region_ok(g),
        x < WIDTH,
        y < CANVAS_BOTTOM,
        region_box(g).0 <= x <= region_box(g).2,
        region_box(g).1 <= y <= region_box(g).3,
    ensures
        r == in_region(g, x as int, y as int),
{
    match g {
        Region::Rect { .. } => true,
        Region::Round { left, top, d } => {
            let dx = dist(2 * (x as u128), 2 * (left as u128) + d as u128);
            let dy = dist(2 * (y as u128), 2 * (top as u128) + d as u128);
            proof {
                assert(sq(2 * x - 2 * left - d) == dx * dx && sq(2 * y - 2 * top - d) == dy * dy) by (nonlinear_arith)
                    requires
                        dx == if 2 * x < 2 * left + d { 2 * left + d - 2 * x } else { 2 * x - 2 * left - d },
                        dy == if 2 * y < 2 * top + d { 2 * top + d - 2 * y } else { 2 * y - 2 * top - d },
                ;
                assert(dx <= d && dy <= d);
                assert(dx * dx <= (d as int) * (d as int) && dy * dy <= (d as int) * (d as int) && (d as int) * (d as int) <= u128::MAX) by (nonlinear_arith)
                    requires
                        dx <= d,
                        dy <= d,
                        d <= usize::MAX,
                ;
            }
            let d2 = (d as u128) * (d as u128);
            dx * dx <= d2 - dy * dy
        },
        Region::Ellipse { left, top, right, bottom } => {
            let w = (right - left) as u128;
            let h = (bottom - top) as u128;
            if w == 0 || h == 0 {
                return false;
            }
            let dx = dist(2 * (x as u128), left as u128 + right as u128);
            let dy = dist(2 * (y as u128), top as u128 + bottom as u128);
            proof {
                assert(sq(2 * x - left - right) == dx * dx && sq(2 * y - top - bottom) == dy * dy) by (nonlinear_arith)
                    requires
                        dx == if 2 * x < left + right { left + right - 2 * x } else { 2 * x - left - right },
                        dy == if 2 * y < top + bottom { top + bottom - 2 * y } else { 2 * y - top - bottom },
                ;
                assert(dx <= w && dy <= h);
                assert(dx * dx <= w * w && dy * dy <= h * h && w * w <= u128::MAX && h * h <= u128::MAX) by (nonlinear_arith)
                    requires
                        dx <= w,
                        dy <= h,
                        w <= usize::MAX,
                        h <= usize::MAX,
                ;
            }
            let dx2 = dx * dx;
            let dy2 = dy * dy;
            let w2 = w * w;
            let h2 = h * h;
            let rest = w2 - dx2;
            proof {
                assert(rest * h2 == w2 * h2 - dx2 * h2) by (nonlinear_arith)
                    requires
                        rest == w2 - dx2,
                ;
                assert(sq(w as int) == w2 && sq(h as int) == h2);
            }
            product_le(dy2, w2, rest, h2)
        },
        Region::Tri { left, top, right, bottom, up } => {
            let mid = ((left as u128) + (right as u128)) / 2;
            let h = (bottom - top) as u128;
            let s: u128 = if up { (y - top) as u128 } else { (bottom - y) as u128 };
            if h == 0 {
                return x as u128 == mid;
            }
            let ml = mid - left as u128;
            let rm = right as u128 - mid;
            proof {
                assert(s * ml <= 0xffff_ffff_ffff_ffff_ffff_ffff_ffff_ffff && s * rm <= 0xffff_ffff_ffff_ffff_ffff_ffff_ffff_ffff) by (nonlinear_arith)
                    requires
                        s <= h,
                        h <= usize::MAX,
                        ml <= usize::MAX,
                        rm <= usize::MAX,
                ;
                assert(s * ml + h - 1 <= 0xffff_ffff_ffff_ffff_ffff_ffff_ffff_ffff) by (nonlinear_arith)
                    requires
                        s <= h,
                        h <= usize::MAX,
                        ml <= usize::MAX,
                ;
                lemma_region_box_tri_span(left as int, top as int, right as int, bottom as int, up, y as int);
            }
            let lo = mid - (s * ml + (h - 1)) / h;
            let hi = mid + s * rm / h;
            lo <= x as u128 && x as u128 <= hi
        },
    }
}

proof fn lemma_region_box_tri_span(left: int, top: int, right: int, bottom: int, up: bool, y: int)
    requires
        0 <= left <= right <= usize::MAX,
        0 <= top <= y <= bottom <= usize::MAX,
        bottom > top,
    ensures
        ({
            let mid = (left + right) / 2;
            let h = bottom - top;
            let s = if up { y - top } else { bottom - y };
            &&& 0 <= (s * (mid - left) + h - 1) / h <= mid
            &&& 0 <= s * (right - mid) / h <= right - mid
        }),
{
    let mid = (left + right) / 2;
    let h = bottom - top;
    let s = if up { y - top } else { bottom - y };
    assert(s * (mid - left) <= h * (mid - left)) by (nonlinear_arith)
        requires
            0 <= s <= h,
            mid - left >= 0,
    ;
    assert(0 <= (s * (mid - left) + h - 1) / h <= mid - left) by (nonlinear_arith)
        requires
            s * (mid - left) <= h * (mid - left),
            s * (mid - left) >= 0,
            h > 0,
    ;
    assert(s * (right - mid) <= h * (right - mid)) by (nonlinear_arith)
        requires
            0 <= s <= h,
            right - mid >= 0,
    ;
    assert(0 <= s * (right - mid) / h <= right - mid) by (nonlinear_arith)
        requires
            s * (right - mid) <= h * (right - mid),
            s * (right - mid) >= 0,
            h > 0,
    ;
}

/// The region's bounding box.
fn bounds(g: Region) -> (r: (usize, usize, usize, usize))
    requires
        region_ok(g),
    ensures
        r.0 as int == region_box(g).0,
        r.1 as int == region_box(g).1,
        r.2 as int == region_box(g).2,
        r.3 as int == region_box(g).3,
{
    match g {
        Region::Rect { left, top, right, bottom } => (left, top, right, bottom),
        Region::Round { left, top, d } => (left, top, left + d, top + d),
        Region::Ellipse { left, top, right, bottom } => (left, top, right, bottom),
        Region::Tri { left, top, right, bottom, up } => (left, top, right, bottom),
    }
}

/// Paint every drawable pixel of the region.
pub fn fill_region(buffer: &mut Vec<u32>, g: Region, color: u32)
    requires
        old(buffer)@.len() >= FRAME_LEN,
        region_ok(g),
    ensures
        final(buffer)@ == paint(old(buffer)@, |x: int, y: int| in_region(g, x, y), color),
{
    let ghost b0 = buffer@;
    let ghost inside = |x: int, y: int| in_region(g, x, y);
    let (left, top, right, bottom) = bounds(g);
    let mut y: usize = if top < CANVAS_TOP { CANVAS_TOP } else { top };
    let hi_y: usize = if bottom < CANVAS_BOTTOM - 1 { bottom } else { CANVAS_BOTTOM - 1 };
    let hi_x: usize = if right < WIDTH - 1 { right } else { WIDTH - 1 };
    proof {
        lemma_paint_none(b0, color);
        assert forall|px: int, py: int| on_canvas(px, py) implies (false == (inside(px, py) && py < y)) by {
            if inside(px, py) {
                lemma_region_box(g, px, py);
            }
        }
        lemma_paint_ext(b0, |px: int, py: int| false, |px: int, py: int| inside(px, py) && py < y, color);
    }
    while y <= hi_y
        invariant
            b0.len() >= FRAME_LEN,
            region_ok(g),
            CANVAS_TOP <= y,
            top <= y,
            hi_y < CANVAS_BOTTOM,
            hi_y <= bottom,
            hi_x < WIDTH,
            hi_x <= right,
            left as int == region_box(g).0,
            top as int == region_box(g).1,
            right as int == region_box(g).2,
            bottom as int == region_box(g).3,
            hi_x as int == if right < WIDTH - 1 { right as int } else { WIDTH - 1 },
            hi_y as int == if bottom < CANVAS_BOTTOM - 1 { bottom as int } else { CANVAS_BOTTOM - 1 },
            inside == |x: int, y: int| in_region(g, x, y),
            buffer@ == paint(b0, |px: int, py: int| inside(px, py) && py < y, color),
        decreases hi_y + 1 - y,
    {
        let mut x: usize = left;
        proof {
            assert forall|px: int, py: int| on_canvas(px, py) implies ((inside(px, py) && py < y) == (inside(px, py) && (py < y || (py == y && px < x)))) by {
                if inside(px, py) {
                    lemma_region_box(g, px, py);
                }
            }
            lemma_paint_ext(b0, |px: int, py: int| inside(px, py) && py < y, |px: int, py: int| inside(px, py) && (py < y || (py == y && px < x)), color);
        }
        while x <= hi_x
            invariant
                b0.len() >= FRAME_LEN,
                region_ok(g),
                CANVAS_TOP <= y <= hi_y,
                top <= y,
                hi_y < CANVAS_BOTTOM,
                hi_y <= bottom,
                hi_x < WIDTH,
                hi_x <= right,
                left <= x,
                left as int == region_box(g).0,
                top as int == region_box(g).1,
                right as int == region_box(g).2,
                bottom as int == region_box(g).3,
                inside == |x: int, y: int| in_region(g, x, y),
                buffer@ == paint(b0, |px: int, py: int| inside(px, py) && (py < y || (py == y && px < x)), color),
            decreases hi_x + 1 - x,
        {
            if region_contains(g, x, y) {
                proof {
                    lemma_pix_bound(x as int, y as int);
                    lemma_paint_add(
                        b0,
                        |px: int, py: int| inside(px, py) && (py < y || (py == y && px < x)),
                        |px: int, py: int| inside(px, py) && (py < y || (py == y && px < x + 1)),
                        color,
                        x as int,
                        y as int,
                    );
                }
                buffer.set(y * WIDTH + x, color);
            } else {
                proof {
                    lemma_paint_ext(
                        b0,
                        |px: int, py: int| inside(px, py) && (py < y || (py == y && px < x)),
                        |px: int, py: int| inside(px, py) && (py < y || (py == y && px < x + 1)),
                        color,
                    );
                }
            }
            x = x + 1;
        }
        proof {
            assert forall|px: int, py: int| on_canvas(px, py) implies ((inside(px, py) && (py < y || (py == y && px < x))) == (inside(px, py) && py < y + 1)) by {
                if inside(px, py) {
                    lemma_region_box(g, px, py);
                }
            }
            lemma_paint_ext(b0, |px: int, py: int| inside(px, py) && (py < y || (py == y && px < x)), |px: int, py: int| inside(px, py) && py < y + 1, color);
        }
        y = y + 1;
    }
    proof {
        assert forall|px: int, py: int| on_canvas(px, py) implies ((inside(px, py) && py < y) == inside(px, py)) by {
            if inside(px, py) {
                lemma_region_box(g, px, py);
            }
        }
        lemma_paint_ext(b0, |px: int, py: int| inside(px, py) && py < y, inside, color);
    }
}

} // verus!
