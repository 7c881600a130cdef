//! The framebuffer model: a row-major `WIDTH x HEIGHT` grid of packed RGB
//! pixels whose drawable region is the rows `[CANVAS_TOP, CANVAS_BOTTOM)`.
use vstd::prelude::*;
use vstd::arithmetic::div_mod::lemma_fundamental_div_mod_converse;

use crate::{CANVAS_BOTTOM, CANVAS_TOP, FRAME_LEN, HEIGHT, WHITE, WIDTH};

verus! {

/// Whether `(x, y)` lies in the drawable region.
pub open spec fn on_canvas(x: int, y: int) -> bool {
    0 <= x < WIDTH && CANVAS_TOP <= y < CANVAS_BOTTOM
}

/// Index of pixel `(x, y)` in the row-major buffer.
pub open spec fn pix(x: int, y: int) -> int {
    y * WIDTH + x
}

/// Column of buffer index `i`.
pub open spec fn col(i: int) -> int {
    i % (WIDTH as int)
}

/// Row of buffer index `i`.
pub open spec fn row(i: int) -> int {
    i / (WIDTH as int)
}

/// `b` with every drawable pixel that satisfies `p` set to `c`.
pub open spec fn paint(b: Seq<u32>, p: spec_fn(int, int) -> bool, c: u32) -> Seq<u32> {
    Seq::new(
        b.len(),
        |i: int|
            if on_canvas(col(i), row(i)) && p(col(i), row(i)) {
                c
            } else {
                b[i]
            },
    )
}

/// Pixel `(x, y)` of the buffer `b`.
pub open spec fn at(b: Seq<u32>, x: int, y: int) -> u32 {
    b[pix(x, y)]
}

pub proof fn lemma_pix(x: int, y: int)
    requires
        0 <= x < WIDTH,
        0 <= y,
    ensures
        col(pix(x, y)) == x,
        row(pix(x, y)) == y,
        pix(x, y) >= 0,
{
    lemma_fundamental_div_mod_converse(pix(x, y), WIDTH as int, y, x);
    assert(pix(x, y) >= 0) by (nonlinear_arith)
        requires
            0 <= x < WIDTH,
            0 <= y,
    ;
}

pub proof fn lemma_pix_bound(x: int, y: int)
    requires
        0 <= x < WIDTH,
        0 <= y < CANVAS_BOTTOM,
    ensures
        0 <= pix(x, y) < CANVAS_BOTTOM * WIDTH,
{
    assert(0 <= pix(x, y) < CANVAS_BOTTOM * WIDTH) by (nonlinear_arith)
        requires
            0 <= x < WIDTH,
            0 <= y < CANVAS_BOTTOM,
    ;
}

pub proof fn lemma_row_col(i: int)
    requires
        0 <= i,
    ensures
        0 <= col(i) < WIDTH,
        0 <= row(i),
        pix(col(i), row(i)) == i,
{
    vstd::arithmetic::div_mod::lemma_fundamental_div_mod(i, WIDTH as int);
    vstd::arithmetic::div_mod::lemma_mod_bound(i, WIDTH as int);
    vstd::arithmetic::div_mod::lemma_div_pos_is_pos(i, WIDTH as int);
}

/// Painting with predicates that agree on the drawable region gives the same buffer.
pub proof fn lemma_paint_ext(
    b: Seq<u32>,
    p: spec_fn(int, int) -> bool,
    q: spec_fn(int, int) -> bool,
    c: u32,
)
    requires
        forall|x: int, y: int| on_canvas(x, y) ==> (p(x, y) == q(x, y)),
    ensures
        paint(b, p, c) == paint(b, q, c),
{
    assert forall|i: int| 0 <= i < b.len() implies paint(b, p, c)[i] == paint(b, q, c)[i] by {
        lemma_row_col(i);
    }
    assert(paint(b, p, c) =~= paint(b, q, c));
}

/// Writing one more pixel extends the painted predicate by that pixel.
pub proof fn lemma_paint_add(
    b: Seq<u32>,
    p: spec_fn(int, int) -> bool,
    q: spec_fn(int, int) -> bool,
    c: u32,
    x: int,
    y: int,
)
    requires
        b.len() >= FRAME_LEN,
        on_canvas(x, y),
        forall|px: int, py: int| on_canvas(px, py) ==> (q(px, py) == (p(px, py) || (px == x && py == y))),
    ensures
        paint(b, p, c).update(pix(x, y), c) == paint(b, q, c),
{
    lemma_pix(x, y);
    lemma_pix_bound(x, y);
    assert forall|i: int| 0 <= i < b.len() implies paint(b, p, c).update(pix(x, y), c)[i] == paint(b, q, c)[i] by {
        lemma_row_col(i);
        if i != pix(x, y) {
            assert(col(i) != x || row(i) != y);
        }
    }
    assert(paint(b, p, c).update(pix(x, y), c) =~= paint(b, q, c));
}

/// Two paints of one color are one paint of the union.
pub proof fn lemma_paint_twice(
    b: Seq<u32>,
    p: spec_fn(int, int) -> bool,
    q: spec_fn(int, int) -> bool,
    c: u32,
)
    ensures
        paint(paint(b, p, c), q, c) == paint(b, |x: int, y: int| p(x, y) || q(x, y), c),
{
    assert(paint(paint(b, p, c), q, c) =~= paint(b, |x: int, y: int| p(x, y) || q(x, y), c));
}

/// Painting nothing leaves the buffer as it is.
pub proof fn lemma_paint_none(b: Seq<u32>, c: u32)
    ensures
        paint(b, |x: int, y: int| false, c) == b,
{
    assert(paint(b, |x: int, y: int| false, c) =~= b);
}

/// Set a single pixel; pixels outside the drawable region are left alone.
pub fn set_pixel(buffer: &mut Vec<u32>, x: usize, y: usize, color: u32)
    requires
        old(buffer)@.len() >= FRAME_LEN,
    ensures
        final(buffer)@ == paint(old(buffer)@, |px: int, py: int| px == x && py == y, color),
{
    let ghost b0 = buffer@;
    proof {
        lemma_paint_none(b0, color);
    }
    if x < WIDTH && CANVAS_TOP <= y && y < CANVAS_BOTTOM {
        proof {
            lemma_pix_bound(x as int, y as int);
            lemma_paint_add(b0, |px: int, py: int| false, |px: int, py: int| px == x && py == y, color, x as int, y as int);
        }
        buffer.set(y * WIDTH + x, color);
    } else {
        proof {
            lemma_paint_ext(b0, |px: int, py: int| false, |px: int, py: int| px == x && py == y, color);
        }
    }
}

/// Reset every pixel of the drawable region to white.
pub fn clear_canvas(buffer: &mut Vec<u32>)
    requires
        old(buffer)@.len() >= FRAME_LEN,
    ensures
        final(buffer)@ == paint(old(buffer)@, |x: int, y: int| true, WHITE),
{
    let ghost b0 = buffer@;
    let mut y: usize = CANVAS_TOP;
    proof {
        lemma_paint_none(b0, WHITE);
        lemma_paint_ext(b0, |px: int, py: int| false, |px: int, py: int| py < y, WHITE);
    }
    while y < CANVAS_BOTTOM
        invariant
            CANVAS_TOP <= y <= CANVAS_BOTTOM,
            b0.len() >= FRAME_LEN,
            buffer@ == paint(b0, |px: int, py: int| py < y, WHITE),
        decreases CANVAS_BOTTOM - y,
    {
        let mut x: usize = 0;
        proof {
            lemma_paint_ext(b0, |px: int, py: int| py < y, |px: int, py: int| py < y || (py == y && px < x), WHITE);
        }
        while x < WIDTH
            invariant
                CANVAS_TOP <= y < CANVAS_BOTTOM,
                x <= WIDTH,
                b0.len() >= FRAME_LEN,
                buffer@ == paint(b0, |px: int, py: int| py < y || (py == y && px < x), WHITE),
            decreases WIDTH - x,
        {
            proof {
                lemma_pix_bound(x as int, y as int);
                lemma_paint_add(
                    b0,
                    |px: int, py: int| py < y || (py == y && px < x),
                    |px: int, py: int| py < y || (py == y && px < x + 1),
                    WHITE,
                    x as int,
                    y as int,
                );
            }
            buffer.set(y * WIDTH + x, WHITE);
            x = x + 1;
        }
        proof {
            lemma_paint_ext(b0, |px: int, py: int| py < y || (py == y && px < x), |px: int, py: int| py < y + 1, WHITE);
        }
        y = y + 1;
    }
    proof {
        lemma_paint_ext(b0, |px: int, py: int| py < y, |px: int, py: int| true, WHITE);
    }
}

/// `b` with every pixel of the frame that satisfies `p` set to `c`.
pub open spec fn paint_all(b: Seq<u32>, p: spec_fn(int, int) -> bool, c: u32) -> Seq<u32> {
    Seq::new(
        b.len(),
        |i: int|
            if i < FRAME_LEN && p(col(i), row(i)) {
                c
            } else {
                b[i]
            },
    )
}

pub proof fn lemma_all_ext(b: Seq<u32>, p: spec_fn(int, int) -> bool, q: spec_fn(int, int) -> bool, c: u32)
    requires
        forall|x: int, y: int|
            #![trigger p(x, y)]
            #![trigger q(x, y)]
            0 <= x < WIDTH && 0 <= y < HEIGHT ==> (p(x, y) == q(x, y)),
    ensures
        paint_all(b, p, c) == paint_all(b, q, c),
{
    assert forall|i: int| 0 <= i < b.len() implies paint_all(b, p, c)[i] == paint_all(b, q, c)[i] by {
        lemma_row_col(i);
        if i < FRAME_LEN {
            assert(row(i) < HEIGHT) by {
                vstd::arithmetic::div_mod::lemma_div_is_ordered(i, FRAME_LEN as int, WIDTH as int);
            }
        }
    }
    assert(paint_all(b, p, c) =~= paint_all(b, q, c));
}

pub proof fn lemma_all_add(b: Seq<u32>, p: spec_fn(int, int) -> bool, q: spec_fn(int, int) -> bool, c: u32, x: int, y: int)
    requires
        b.len() >= FRAME_LEN,
        0 <= x < WIDTH,
        0 <= y < HEIGHT,
        forall|px: int, py: int|
            #![trigger p(px, py)]
            #![trigger q(px, py)]
            0 <= px < WIDTH && 0 <= py < HEIGHT ==> (q(px, py) == (p(px, py) || (px == x && py == y))),
    ensures
        paint_all(b, p, c).update(pix(x, y), c) == paint_all(b, q, c),
        0 <= pix(x, y) < FRAME_LEN,
{
    lemma_pix(x, y);
    assert(0 <= pix(x, y) < FRAME_LEN) by (nonlinear_arith)
        requires
            0 <= x < WIDTH,
            0 <= y < HEIGHT,
    ;
    assert forall|i: int| 0 <= i < b.len() implies paint_all(b, p, c).update(pix(x, y), c)[i] == paint_all(b, q, c)[i] by {
        lemma_row_col(i);
        if i < FRAME_LEN {
            assert(row(i) < HEIGHT) by {
                vstd::arithmetic::div_mod::lemma_div_is_ordered(i, FRAME_LEN as int, WIDTH as int);
            }
        }
        if i != pix(x, y) {
            assert(col(i) != x || row(i) != y);
        }
    }
    assert(paint_all(b, p, c).update(pix(x, y), c) =~= paint_all(b, q, c));
}

pub proof fn lemma_all_none(b: Seq<u32>, c: u32)
    ensures
        paint_all(b, |x: int, y: int| false, c) == b,
{
    assert(paint_all(b, |x: int, y: int| false, c) =~= b);
}

/// Set every frame pixel of the `w x h` box at `(x0, y0)` to `color`; the part
/// outside the frame is left alone.
pub fn fill_box(buffer: &mut Vec<u32>, x0: usize, y0: usize, w: usize, h: usize, color: u32)
    requires
        old(buffer)@.len() >= FRAME_LEN,
    ensures
        final(buffer)@ == paint_all(old(buffer)@, |x: int, y: int| x0 <= x < x0 + w && y0 <= y < y0 + h, color),
{
    let ghost b0 = buffer@;
    let ghost inside = |x: int, y: int| x0 <= x < x0 + w && y0 <= y < y0 + h;
    let x_end: usize = if x0 < WIDTH && w < WIDTH - x0 { x0 + w } else { WIDTH };
    let y_end: usize = if y0 < HEIGHT && h < HEIGHT - y0 { y0 + h } else { HEIGHT };
    let mut y: usize = y0;
    proof {
        lemma_all_none(b0, color);
        lemma_all_ext(b0, |px: int, py: int| false, |px: int, py: int| inside(px, py) && py < y, color);
    }
    while y < y_end
        invariant
            b0.len() >= FRAME_LEN,
            y0 <= y,
            y_end <= HEIGHT,
            x_end <= WIDTH,
            y_end as int == if y0 < HEIGHT && h < HEIGHT - y0 { y0 + h } else { HEIGHT as int },
            x_end as int == if x0 < WIDTH && w < WIDTH - x0 { x0 + w } else { WIDTH as int },
            inside == |x: int, y: int| x0 <= x < x0 + w && y0 <= y < y0 + h,
            buffer@ == paint_all(b0, |px: int, py: int| inside(px, py) && py < y, color),
        decreases y_end - y,
    {
        let mut x: usize = x0;
        proof {
            lemma_all_ext(b0, |px: int, py: int| inside(px, py) && py < y, |px: int, py: int| inside(px, py) && (py < y || (py == y && px < x)), color);
        }
        while x < x_end
            invariant
                b0.len() >= FRAME_LEN,
                y0 <= y < y_end,
                x0 <= x,
                y_end <= HEIGHT,
                x_end <= WIDTH,
                y_end as int == if y0 < HEIGHT && h < HEIGHT - y0 { y0 + h } else { HEIGHT as int },
                x_end as int == if x0 < WIDTH && w < WIDTH - x0 { x0 + w } else { WIDTH as int },
                inside == |x: int, y: int| x0 <= x < x0 + w && y0 <= y < y0 + h,
                buffer@ == paint_all(b0, |px: int, py: int| inside(px, py) && (py < y || (py == y && px < x)), color),
            decreases x_end - x,
        {
            proof {
                lemma_all_add(
                    b0,
                    |px: int, py: int| inside(px, py) && (py < y || (py == y && px < x)),
                    |px: int, py: int| inside(px, py) && (py < y || (py == y && px < x + 1)),
                    color,
                    x as int,
                    y as int,
                );
            }
            buffer.set(y * WIDTH + x, color);
            x = x + 1;
        }
        proof {
            lemma_all_ext(b0, |px: int, py: int| inside(px, py) && (py < y || (py == y && px < x)), |px: int, py: int| inside(px, py) && py < y + 1, color);
        }
        y = y + 1;
    }
    proof {
        lemma_all_ext(b0, |px: int, py: int| inside(px, py) && py < y, inside, color);
    }
}

/// Two whole-frame paints of one color are one paint of the union.
pub proof fn lemma_all_twice(b: Seq<u32>, p: spec_fn(int, int) -> bool, q: spec_fn(int, int) -> bool, c: u32)
    ensures
        paint_all(paint_all(b, p, c), q, c) == paint_all(b, |x: int, y: int| p(x, y) || q(x, y), c),
{
    assert(paint_all(paint_all(b, p, c), q, c) =~= paint_all(b, |x: int, y: int| p(x, y) || q(x, y), c));
}

/// Set pixel `(x, y)` of the frame; a pixel outside the frame is left alone.
pub fn put(buffer: &mut Vec<u32>, x: usize, y: usize, color: u32)
    requires
        old(buffer)@.len() >= FRAME_LEN,
    ensures
        final(buffer)@ == paint_all(old(buffer)@, |px: int, py: int| px == x && py == y, color),
{
    fill_box(buffer, x, y, 1, 1, color);
    proof {
        lemma_all_ext(
            old(buffer)@,
            |px: int, py: int| x <= px < x + 1 && y <= py < y + 1,
            |px: int, py: int| px == x && py == y,
            color,
        );
    }
}

} // verus!
