//! Toolbar chrome: rendering of the title bar and bottom toolbar, and hit
//! detection for their buttons.
use vstd::prelude::*;
use vstd::arithmetic::div_mod::lemma_fundamental_div_mod_converse;

use crate::canvas::{col, fill_box, lemma_pix, pix, lemma_all_ext, lemma_all_none, lemma_all_twice, paint_all, put, row};
use crate::{
    ToolMode, BUTTON_MARGIN, BUTTON_SIZE, CANVAS_BOTTOM, FRAME_LEN, HEIGHT, TITLE_BAR_HEIGHT,
    TOOLBAR_ROW_HEIGHT, WHITE, WIDTH, GRAY, DARK_GRAY, RED, BLACK, BLUE, palette, palette_color,
};
use crate::interp::index_ok;
use crate::command::PALETTE_LEN;
use crate::ring::{ring_coord_at, turn_at};
use crate::text::push_decimal;
use vstd::string::*;

verus! {

/// Horizontal distance between the left edges of neighbouring buttons.
pub const BUTTON_PITCH: usize = 27;
/// Top row of the bottom toolbar's first button row.
pub const ROW1_Y: usize = 543;
/// Top row of the bottom toolbar's second button row.
pub const ROW2_Y: usize = 573;
/// Left edge of the transparent-color button.
pub const TRANSPARENT_X: usize = 381;
/// Left edge of the edge/fill indicator.
pub const INDICATOR_X: usize = 411;
/// Left edge of the brush size display.
pub const SIZE_DISPLAY_X: usize = 195;
pub const MINUS_X: usize = 242;
pub const PLUS_X: usize = 269;
pub const CLEAR_X: usize = 299;
/// Border color that marks the fill selection.
pub const GREEN: u32 = 0x40E040;
/// Color of the clear button.
pub const CLEAR_RED: u32 = 0xC04040;
/// Left edge of the close button.
pub const CLOSE_X: usize = 773;

/// Whether `(x, y)` lies in the `w x h` box at `(x0, y0)`.
pub open spec fn in_box(x: int, y: int, x0: int, y0: int, w: int, h: int) -> bool {
    x0 <= x < x0 + w && y0 <= y < y0 + h
}

/// Index of the button in a row of `n` buttons (left edges `3 + 27 i`) that
/// column `x` falls on, if any.
pub open spec fn slot_at(x: int, n: int) -> Option<usize> {
    if x >= BUTTON_MARGIN && (x - BUTTON_MARGIN) % (BUTTON_PITCH as int) < BUTTON_SIZE && (x - BUTTON_MARGIN) / (
    BUTTON_PITCH as int) < n {
        Some(((x - BUTTON_MARGIN) / (BUTTON_PITCH as int)) as usize)
    } else {
        None
    }
}

/// Whether column `x` falls on button `j` of a button row.
pub open spec fn on_slot(x: int, j: int) -> bool {
    3 + 27 * j <= x < 3 + 27 * j + 24
}

/// The tools in toolbar order.
pub open spec fn tool_at(i: int) -> ToolMode {
    if i == 0 {
        ToolMode::Brush
    } else if i == 1 {
        ToolMode::Line
    } else if i == 2 {
        ToolMode::Square
    } else if i == 3 {
        ToolMode::Rectangle
    } else if i == 4 {
        ToolMode::Circle
    } else if i == 5 {
        ToolMode::Oval
    } else {
        ToolMode::Triangle
    }
}

/// Whether only pixels of the frame inside the `w x h` box at `(x0, y0)` differ
/// between `a` and `b`.
pub open spec fn changed_within(a: Seq<u32>, b: Seq<u32>, x0: int, y0: int, w: int, h: int) -> bool {
    &&& a.len() == b.len()
    &&& forall|i: int|
        0 <= i < a.len() && !(i < FRAME_LEN && in_box(col(i), row(i), x0, y0, w, h)) ==> #[trigger] b[i] == a[i]
}

pub proof fn lemma_within_paint(b: Seq<u32>, p: spec_fn(int, int) -> bool, c: u32, x0: int, y0: int, w: int, h: int)
    requires
        forall|x: int, y: int| #[trigger] p(x, y) ==> in_box(x, y, x0, y0, w, h),
    ensures
        changed_within(b, paint_all(b, p, c), x0, y0, w, h),
{
}

pub proof fn lemma_within_trans(a: Seq<u32>, b: Seq<u32>, c: Seq<u32>, x0: int, y0: int, w: int, h: int)
    requires
        changed_within(a, b, x0, y0, w, h),
        changed_within(b, c, x0, y0, w, h),
    ensures
        changed_within(a, c, x0, y0, w, h),
{
    assert forall|i: int| 0 <= i < a.len() && !(i < FRAME_LEN && in_box(col(i), row(i), x0, y0, w, h)) implies #[trigger] c[i] == a[i] by {
        assert(b[i] == a[i]);
    }
}

pub proof fn lemma_within_grow(a: Seq<u32>, b: Seq<u32>, x0: int, y0: int, w: int, h: int, x1: int, y1: int, w1: int, h1: int)
    requires
        changed_within(a, b, x0, y0, w, h),
        x1 <= x0,
        y1 <= y0,
        x0 + w <= x1 + w1,
        y0 + h <= y1 + h1,
    ensures
        changed_within(a, b, x1, y1, w1, h1),
{
}

/// Check if coordinates are within the close button.
pub fn is_in_close_button(x: usize, y: usize) -> (r: bool)
    ensures
        r == in_box(x as int, y as int, CLOSE_X as int, BUTTON_MARGIN as int, BUTTON_SIZE as int, BUTTON_SIZE as int),
{
    let bx = WIDTH - BUTTON_SIZE - BUTTON_MARGIN;
    let by = BUTTON_MARGIN;
    x >= bx && x < bx + BUTTON_SIZE && y >= by && y < by + BUTTON_SIZE
}

/// Check if a click is on the transparent-color button.
pub fn is_in_transparent_button(x: usize, y: usize) -> (r: bool)
    ensures
        r == in_box(x as int, y as int, TRANSPARENT_X as int, ROW1_Y as int, BUTTON_SIZE as int, BUTTON_SIZE as int),
{
    let row1_y = CANVAS_BOTTOM + BUTTON_MARGIN;
    let transparent_x = BUTTON_MARGIN + 14 * (BUTTON_SIZE + BUTTON_MARGIN);
    x >= transparent_x && x < transparent_x + BUTTON_SIZE && y >= row1_y && y < row1_y + BUTTON_SIZE
}

/// Check if a click is on the fill square of the edge/fill indicator.
pub fn is_in_fill_indicator(x: usize, y: usize) -> (r: bool)
    ensures
        r == in_box(x as int, y as int, INDICATOR_X + 8, ROW1_Y + 8, 20, 20),
{
    let row1_y = CANVAS_BOTTOM + BUTTON_MARGIN;
    let transparent_x = BUTTON_MARGIN + 14 * (BUTTON_SIZE + BUTTON_MARGIN);
    let indicator_x = transparent_x + BUTTON_SIZE + BUTTON_MARGIN * 2;
    let offset: usize = 8;
    let size: usize = 20;
    x >= indicator_x + offset && x < indicator_x + offset + size && y >= row1_y + offset && y < row1_y + offset + size
}

/// Check if coordinates are within the minus button.
pub fn is_in_minus_button(x: usize, y: usize) -> (r: bool)
    ensures
        r == in_box(x as int, y as int, MINUS_X as int, ROW2_Y as int, BUTTON_SIZE as int, BUTTON_SIZE as int),
{
    let row2_y = CANVAS_BOTTOM + TOOLBAR_ROW_HEIGHT + BUTTON_MARGIN;
    let size_display_x = BUTTON_MARGIN + 7 * (BUTTON_SIZE + BUTTON_MARGIN) + BUTTON_MARGIN;
    let minus_x = size_display_x + 44 + BUTTON_MARGIN;
    x >= minus_x && x < minus_x + BUTTON_SIZE && y >= row2_y && y < row2_y + BUTTON_SIZE
}

/// Check if coordinates are within the plus button.
pub fn is_in_plus_button(x: usize, y: usize) -> (r: bool)
    ensures
        r == in_box(x as int, y as int, PLUS_X as int, ROW2_Y as int, BUTTON_SIZE as int, BUTTON_SIZE as int),
{
    let row2_y = CANVAS_BOTTOM + TOOLBAR_ROW_HEIGHT + BUTTON_MARGIN;
    let size_display_x = BUTTON_MARGIN + 7 * (BUTTON_SIZE + BUTTON_MARGIN) + BUTTON_MARGIN;
    let minus_x = size_display_x + 44 + BUTTON_MARGIN;
    let plus_x = minus_x + BUTTON_SIZE + BUTTON_MARGIN;
    x >= plus_x && x < plus_x + BUTTON_SIZE && y >= row2_y && y < row2_y + BUTTON_SIZE
}

/// Check if coordinates are within the clear button.
pub fn is_in_clear_button(x: usize, y: usize) -> (r: bool)
    ensures
        r == in_box(x as int, y as int, CLEAR_X as int, ROW2_Y as int, BUTTON_SIZE as int, BUTTON_SIZE as int),
{
    let row2_y = CANVAS_BOTTOM + TOOLBAR_ROW_HEIGHT + BUTTON_MARGIN;
    let size_display_x = BUTTON_MARGIN + 7 * (BUTTON_SIZE + BUTTON_MARGIN) + BUTTON_MARGIN;
    let minus_x = size_display_x + 44 + BUTTON_MARGIN;
    let plus_x = minus_x + BUTTON_SIZE + BUTTON_MARGIN;
    let clear_x = plus_x + BUTTON_SIZE + BUTTON_MARGIN * 2;
    x >= clear_x && x < clear_x + BUTTON_SIZE && y >= row2_y && y < row2_y + BUTTON_SIZE
}

/// The button of a row of `n` buttons that column `x` falls on.
fn slot_in_row(x: usize, n: usize) -> (r: Option<usize>)
    requires
        n <= 14,
    ensures
        r == slot_at(x as int, n as int),
{
    let mut i: usize = 0;
    while i < n
        invariant
            i <= n <= 14,
            forall|j: int| 0 <= j < i ==> !#[trigger] on_slot(x as int, j),
        decreases n - i,
    {
        proof {
            assert(i * 27 <= 400) by (nonlinear_arith)
                requires
                    i < 14,
            ;
        }
        let bx = BUTTON_MARGIN + i * (BUTTON_SIZE + BUTTON_MARGIN);
        if x >= bx && x < bx + BUTTON_SIZE {
            proof {
                lemma_fundamental_div_mod_converse(x - 3, 27, i as int, x - 3 - 27 * i);
            }
            return Some(i);
        }
        i = i + 1;
    }
    proof {
        if x >= 3 {
            let q = (x - 3) / 27;
            let m = (x - 3) % 27;
            vstd::arithmetic::div_mod::lemma_fundamental_div_mod(x - 3, 27);
            if m < 24 && q < n {
                assert(on_slot(x as int, q));
            }
        }
    }
    None
}

/// Color index of the title-bar palette button under `(x, y)` (twelve buttons).
pub fn get_clicked_color_index(x: usize, y: usize) -> (r: Option<usize>)
    ensures
        r == (if BUTTON_MARGIN <= y < BUTTON_MARGIN + BUTTON_SIZE { slot_at(x as int, 12) } else { None }),
{
    let by = BUTTON_MARGIN;
    if y < by || y >= by + BUTTON_SIZE {
        return None;
    }
    slot_in_row(x, 12)
}

/// Color index of the bottom-toolbar palette button under `(x, y)`.
pub fn get_clicked_color_index_bottom(x: usize, y: usize) -> (r: Option<usize>)
    ensures
        r == (if ROW1_Y <= y < ROW1_Y + BUTTON_SIZE { slot_at(x as int, 14) } else { None }),
{
    let row1_y = CANVAS_BOTTOM + BUTTON_MARGIN;
    if y < row1_y || y >= row1_y + BUTTON_SIZE {
        return None;
    }
    slot_in_row(x, 14)
}

fn tool_of(i: usize) -> (t: ToolMode)
    ensures
        t == tool_at(i as int),
{
    if i == 0 {
        ToolMode::Brush
    } else if i == 1 {
        ToolMode::Line
    } else if i == 2 {
        ToolMode::Square
    } else if i == 3 {
        ToolMode::Rectangle
    } else if i == 4 {
        ToolMode::Circle
    } else if i == 5 {
        ToolMode::Oval
    } else {
        ToolMode::Triangle
    }
}

/// The tool button under `(x, y)`, if any.
pub fn get_clicked_tool(x: usize, y: usize) -> (r: Option<ToolMode>)
    ensures
        r == (if ROW2_Y <= y < ROW2_Y + BUTTON_SIZE {
            match slot_at(x as int, 7) {
                Some(i) => Some(tool_at(i as int)),
                None => None,
            }
        } else {
            None
        }),
{
    let row2_y = CANVAS_BOTTOM + TOOLBAR_ROW_HEIGHT + BUTTON_MARGIN;
    if y < row2_y || y >= row2_y + BUTTON_SIZE {
        return None;
    }
    match slot_in_row(x, 7) {
        Some(i) => Some(tool_of(i)),
        None => None,
    }
}

/// Draw a filled button at the given position.
pub fn draw_button(buffer: &mut Vec<u32>, bx: usize, by: usize, color: u32)
    requires
        old(buffer)@.len() >= FRAME_LEN,
    ensures
        final(buffer)@ == paint_all(
            old(buffer)@,
            |x: int, y: int| in_box(x, y, bx as int, by as int, BUTTON_SIZE as int, BUTTON_SIZE as int),
            color,
        ),
{
    fill_box(buffer, bx, by, BUTTON_SIZE, BUTTON_SIZE, color);
}

/// The one-pixel ring just inside the edge of the `n x n` box at `(x0, y0)`.
pub open spec fn in_ring(x: int, y: int, x0: int, y0: int, n: int) -> bool {
    in_box(x, y, x0, y0, n, n) && !in_box(x, y, x0 + 1, y0 + 1, n - 2, n - 2)
}

/// The one-pixel outline of the `n x n` box at `(x0, y0)`, lying inside the frame.
fn draw_ring_box(buffer: &mut Vec<u32>, x0: usize, y0: usize, n: usize, color: u32)
    requires
        old(buffer)@.len() >= FRAME_LEN,
        n >= 2,
        x0 + n <= WIDTH,
        y0 + n <= HEIGHT,
    ensures
        final(buffer)@ == paint_all(old(buffer)@, |x: int, y: int| in_ring(x, y, x0 as int, y0 as int, n as int), color),
{
    let ghost b0 = buffer@;
    fill_box(buffer, x0, y0, n, 1, color);
    fill_box(buffer, x0, y0 + n - 1, n, 1, color);
    fill_box(buffer, x0, y0, 1, n, color);
    fill_box(buffer, x0 + n - 1, y0, 1, n, color);
    proof {
        let p1 = |x: int, y: int| x0 <= x < x0 + n && y0 <= y < y0 + 1;
        let p2 = |x: int, y: int| x0 <= x < x0 + n && y0 + n - 1 <= y < y0 + n - 1 + 1;
        let p3 = |x: int, y: int| x0 <= x < x0 + 1 && y0 <= y < y0 + n;
        let p4 = |x: int, y: int| x0 + n - 1 <= x < x0 + n - 1 + 1 && y0 <= y < y0 + n;
        let q12 = |x: int, y: int| p1(x, y) || p2(x, y);
        let q123 = |x: int, y: int| q12(x, y) || p3(x, y);
        lemma_all_twice(b0, p1, p2, color);
        lemma_all_twice(b0, q12, p3, color);
        lemma_all_twice(b0, q123, p4, color);
        lemma_all_ext(
            b0,
            |x: int, y: int| q123(x, y) || p4(x, y),
            |x: int, y: int| in_ring(x, y, x0 as int, y0 as int, n as int),
            color,
        );
    }
}

/// Draw a border around a button that lies inside the frame.
pub fn draw_button_border(buffer: &mut Vec<u32>, bx: usize, by: usize, color: u32)
    requires
        old(buffer)@.len() >= FRAME_LEN,
        bx + BUTTON_SIZE <= WIDTH,
        by + BUTTON_SIZE <= HEIGHT,
    ensures
        final(buffer)@ == paint_all(old(buffer)@, |x: int, y: int| in_ring(x, y, bx as int, by as int, BUTTON_SIZE as int), color),
{
    draw_ring_box(buffer, bx, by, BUTTON_SIZE, color);
}

/// Draw a border one pixel inside a button that lies inside the frame.
pub fn draw_button_inner_border(buffer: &mut Vec<u32>, bx: usize, by: usize, color: u32)
    requires
        old(buffer)@.len() >= FRAME_LEN,
        bx + BUTTON_SIZE <= WIDTH,
        by + BUTTON_SIZE <= HEIGHT,
    ensures
        final(buffer)@ == paint_all(
            old(buffer)@,
            |x: int, y: int| in_ring(x, y, bx + 1, by + 1, BUTTON_SIZE - 2),
            color,
        ),
{
    draw_ring_box(buffer, bx + 1, by + 1, BUTTON_SIZE - 2, color);
}

/// Whether `(x, y)` lies on one of the two diagonals of an X drawn 6 pixels
/// inside the button at `(bx, by)`.
pub open spec fn on_cross(x: int, y: int, bx: int, by: int) -> bool {
    by + 6 <= y < by + 18 && (x - bx == y - by || x - bx == 23 - (y - by))
}

/// The two diagonals of an X, 6 pixels inside the button at `(bx, by)`.
fn draw_cross(buffer: &mut Vec<u32>, bx: usize, by: usize, color: u32)
    requires
        old(buffer)@.len() >= FRAME_LEN,
        bx + BUTTON_SIZE <= WIDTH,
        by + BUTTON_SIZE <= HEIGHT,
    ensures
        final(buffer)@ == paint_all(old(buffer)@, |x: int, y: int| on_cross(x, y, bx as int, by as int), color),
{
    let ghost b0 = buffer@;
    let padding: usize = 6;
    let start = padding;
    let end = BUTTON_SIZE - padding;
    let mut i: usize = 0;
    proof {
        lemma_all_none(b0, color);
        lemma_all_ext(b0, |x: int, y: int| false, |x: int, y: int| on_cross(x, y, bx as int, by as int) && y < by + 6 + i, color);
    }
    while i < end - start
        invariant
            b0.len() >= FRAME_LEN,
            bx + BUTTON_SIZE <= WIDTH,
            by + BUTTON_SIZE <= HEIGHT,
            start == 6,
            end == 18,
            i <= 12,
            buffer@ == paint_all(b0, |x: int, y: int| on_cross(x, y, bx as int, by as int) && y < by + 6 + i, color),
        decreases 12 - i,
    {
        let x1 = bx + start + i;
        let y1 = by + start + i;
        let x2 = bx + end - 1 - i;
        let y2 = by + start + i;
        put(buffer, x1, y1, color);
        put(buffer, x2, y2, color);
        proof {
            let before = |x: int, y: int| on_cross(x, y, bx as int, by as int) && y < by + 6 + i;
            let a = |x: int, y: int| x == x1 && y == y1;
            let c = |x: int, y: int| x == x2 && y == y2;
            let ba = |x: int, y: int| before(x, y) || a(x, y);
            lemma_all_twice(b0, before, a, color);
            lemma_all_twice(b0, ba, c, color);
            lemma_all_ext(
                b0,
                |x: int, y: int| ba(x, y) || c(x, y),
                |x: int, y: int| on_cross(x, y, bx as int, by as int) && y < by + 6 + (i + 1),
                color,
            );
        }
        i = i + 1;
    }
    proof {
        lemma_all_ext(
            b0,
            |x: int, y: int| on_cross(x, y, bx as int, by as int) && y < by + 6 + i,
            |x: int, y: int| on_cross(x, y, bx as int, by as int),
            color,
        );
    }
}

/// Draw a white X icon (the close button's).
pub fn draw_x(buffer: &mut Vec<u32>, bx: usize, by: usize)
    requires
        old(buffer)@.len() >= FRAME_LEN,
        bx + BUTTON_SIZE <= WIDTH,
        by + BUTTON_SIZE <= HEIGHT,
    ensures
        final(buffer)@ == paint_all(old(buffer)@, |x: int, y: int| on_cross(x, y, bx as int, by as int), WHITE),
{
    draw_cross(buffer, bx, by, WHITE);
}

/// Draw a white X icon (the clear button's).
pub fn draw_clear_icon(buffer: &mut Vec<u32>, bx: usize, by: usize)
    requires
        old(buffer)@.len() >= FRAME_LEN,
        bx + BUTTON_SIZE <= WIDTH,
        by + BUTTON_SIZE <= HEIGHT,
    ensures
        final(buffer)@ == paint_all(old(buffer)@, |x: int, y: int| on_cross(x, y, bx as int, by as int), WHITE),
{
    draw_cross(buffer, bx, by, WHITE);
}

/// Draw a white minus sign across the middle row of a button.
pub fn draw_minus_icon(buffer: &mut Vec<u32>, bx: usize, by: usize)
    requires
        old(buffer)@.len() >= FRAME_LEN,
        bx + BUTTON_SIZE <= WIDTH,
        by + BUTTON_SIZE <= HEIGHT,
    ensures
        final(buffer)@ == paint_all(old(buffer)@, |x: int, y: int| in_box(x, y, bx + 6, by + 12, 12, 1), WHITE),
{
    fill_box(buffer, bx + 6, by + BUTTON_SIZE / 2, 12, 1, WHITE);
}

/// Draw a white plus sign centered in a button.
pub fn draw_plus_icon(buffer: &mut Vec<u32>, bx: usize, by: usize)
    requires
        old(buffer)@.len() >= FRAME_LEN,
        bx + BUTTON_SIZE <= WIDTH,
        by + BUTTON_SIZE <= HEIGHT,
    ensures
        final(buffer)@ == paint_all(
            old(buffer)@,
            |x: int, y: int| in_box(x, y, bx + 6, by + 12, 12, 1) || in_box(x, y, bx + 12, by + 6, 1, 12),
            WHITE,
        ),
{
    let ghost b0 = buffer@;
    fill_box(buffer, bx + 6, by + BUTTON_SIZE / 2, 12, 1, WHITE);
    fill_box(buffer, bx + BUTTON_SIZE / 2, by + 6, 1, 12, WHITE);
    proof {
        lemma_all_twice(
            b0,
            |x: int, y: int| bx + 6 <= x < bx + 6 + 12 && by + 12 <= y < by + 12 + 1,
            |x: int, y: int| bx + 12 <= x < bx + 12 + 1 && by + 6 <= y < by + 6 + 12,
            WHITE,
        );
        lemma_all_ext(
            b0,
            |x: int, y: int| (bx + 6 <= x < bx + 6 + 12 && by + 12 <= y < by + 12 + 1) || (bx + 12 <= x < bx + 12 + 1 && by + 6 <= y < by + 6 + 12),
            |x: int, y: int| in_box(x, y, bx + 6, by + 12, 12, 1) || in_box(x, y, bx + 12, by + 6, 1, 12),
            WHITE,
        );
    }
}

/// A change within a smaller box followed by one within a box around it is a
/// change within the larger box.
proof fn lemma_chain(
    a: Seq<u32>,
    b: Seq<u32>,
    c: Seq<u32>,
    x0: int,
    y0: int,
    w: int,
    h: int,
    x1: int,
    y1: int,
    w1: int,
    h1: int,
)
    requires
        changed_within(a, b, x0, y0, w, h),
        changed_within(b, c, x1, y1, w1, h1),
        x0 <= x1,
        y0 <= y1,
        x1 + w1 <= x0 + w,
        y1 + h1 <= y0 + h,
    ensures
        changed_within(a, c, x0, y0, w, h),
{
    lemma_within_grow(b, c, x1, y1, w1, h1, x0, y0, w, h);
    lemma_within_trans(a, b, c, x0, y0, w, h);
}

/// A 4-pixel white and gray chessboard over the `n x n` box at `(x0, y0)`.
fn fill_chessboard(buffer: &mut Vec<u32>, x0: usize, y0: usize, n: usize)
    requires
        old(buffer)@.len() >= FRAME_LEN,
        x0 + n <= WIDTH,
        y0 + n <= HEIGHT,
    ensures
        changed_within(old(buffer)@, final(buffer)@, x0 as int, y0 as int, n as int, n as int),
{
    let ghost b0 = buffer@;
    let mut dy: usize = 0;
    while dy < n
        invariant
            b0.len() >= FRAME_LEN,
            x0 + n <= WIDTH,
            y0 + n <= HEIGHT,
            dy <= n,
            changed_within(b0, buffer@, x0 as int, y0 as int, n as int, n as int),
        decreases n - dy,
    {
        let mut dx: usize = 0;
        while dx < n
            invariant
                b0.len() >= FRAME_LEN,
                x0 + n <= WIDTH,
                y0 + n <= HEIGHT,
                dy < n,
                dx <= n,
                changed_within(b0, buffer@, x0 as int, y0 as int, n as int, n as int),
            decreases n - dx,
        {
            let light = ((dx / 4) + (dy / 4)) % 2 == 0;
            let ghost before = buffer@;
            put(buffer, x0 + dx, y0 + dy, if light { WHITE } else { GRAY });
            proof {
                lemma_within_paint(before, |px: int, py: int| px == x0 + dx && py == y0 + dy, if light { WHITE } else { GRAY }, x0 as int, y0 as int, n as int, n as int);
                lemma_within_trans(b0, before, buffer@, x0 as int, y0 as int, n as int, n as int);
            }
            dx = dx + 1;
        }
        dy = dy + 1;
    }
}

/// Draw the title bar: gray with a dark bottom line, and the red close button.
pub fn draw_title_bar(buffer: &mut Vec<u32>)
    requires
        old(buffer)@.len() >= FRAME_LEN,
    ensures
        changed_within(old(buffer)@, final(buffer)@, 0, 0, WIDTH as int, TITLE_BAR_HEIGHT as int),
{
    let ghost b0 = buffer@;
    let ghost t = TITLE_BAR_HEIGHT as int;
    fill_box(buffer, 0, 0, WIDTH, TITLE_BAR_HEIGHT, GRAY);
    let ghost b1 = buffer@;
    fill_box(buffer, 0, TITLE_BAR_HEIGHT - 1, WIDTH, 1, DARK_GRAY);
    let ghost b2 = buffer@;
    let close_x = WIDTH - BUTTON_SIZE - BUTTON_MARGIN;
    let close_y = BUTTON_MARGIN;
    draw_button(buffer, close_x, close_y, RED);
    let ghost b3 = buffer@;
    draw_x(buffer, close_x, close_y);
    proof {
        lemma_within_paint(b0, |x: int, y: int| 0 <= x < 0 + WIDTH && 0 <= y < 0 + TITLE_BAR_HEIGHT, GRAY, 0, 0, WIDTH as int, t);
        lemma_within_paint(b1, |x: int, y: int| 0 <= x < 0 + WIDTH && t - 1 <= y < t - 1 + 1, DARK_GRAY, 0, 0, WIDTH as int, t);
        lemma_within_trans(b0, b1, b2, 0, 0, WIDTH as int, t);
        lemma_within_paint(b2, |x: int, y: int| in_box(x, y, close_x as int, close_y as int, BUTTON_SIZE as int, BUTTON_SIZE as int), RED, 0, 0, WIDTH as int, t);
        lemma_within_trans(b0, b2, b3, 0, 0, WIDTH as int, t);
        lemma_within_paint(b3, |x: int, y: int| on_cross(x, y, close_x as int, close_y as int), WHITE, 0, 0, WIDTH as int, t);
        lemma_within_trans(b0, b3, buffer@, 0, 0, WIDTH as int, t);
    }
}

/// Draw the transparent-color button: a chessboard with a border that shows
/// whether the edge and/or the fill are transparent.
pub fn draw_transparent_button(buffer: &mut Vec<u32>, bx: usize, by: usize, edge_selected: bool, fill_selected: bool)
    requires
        old(buffer)@.len() >= FRAME_LEN,
        bx + BUTTON_SIZE <= WIDTH,
        by + BUTTON_SIZE <= HEIGHT,
    ensures
        changed_within(old(buffer)@, final(buffer)@, bx as int, by as int, BUTTON_SIZE as int, BUTTON_SIZE as int),
{
    let ghost b0 = buffer@;
    let ghost n = BUTTON_SIZE as int;
    fill_chessboard(buffer, bx, by, BUTTON_SIZE);
    let ghost b1 = buffer@;
    let outer = if edge_selected {
        WHITE
    } else if fill_selected {
        GREEN
    } else {
        DARK_GRAY
    };
    draw_button_border(buffer, bx, by, outer);
    let ghost b2 = buffer@;
    proof {
        lemma_within_paint(b1, |x: int, y: int| in_ring(x, y, bx as int, by as int, n), outer, bx as int, by as int, n, n);
        lemma_within_trans(b0, b1, b2, bx as int, by as int, n, n);
    }
    if edge_selected && fill_selected {
        draw_button_inner_border(buffer, bx, by, GREEN);
        proof {
            lemma_within_paint(b2, |x: int, y: int| in_ring(x, y, bx + 1, by + 1, n - 2), GREEN, bx as int, by as int, n, n);
            lemma_within_trans(b0, b2, buffer@, bx as int, by as int, n, n);
        }
    }
}

/// A `20 x 20` swatch at `(x, y)`: the palette color `idx` with a one-pixel
/// border, or a chessboard with a dark border when there is no color.
fn draw_swatch(buffer: &mut Vec<u32>, x: usize, y: usize, idx: Option<usize>, border: u32)
    requires
        old(buffer)@.len() >= FRAME_LEN,
        x + 20 <= WIDTH,
        y + 20 <= HEIGHT,
        index_ok(idx),
    ensures
        changed_within(old(buffer)@, final(buffer)@, x as int, y as int, 20, 20),
        idx.is_some() ==> forall|px: int, py: int|
            x <= px < x + 20 && y <= py < y + 20 ==> #[trigger] final(buffer)@[pix(px, py)] == swatch_color(
                px,
                py,
                x as int,
                y as int,
                palette(idx.unwrap() as int),
                border,
            ),
{
    let ghost b0 = buffer@;
    match idx {
        Some(i) => {
            fill_box(buffer, x, y, 20, 20, palette_color(i));
            proof {
                lemma_within_paint(b0, |px: int, py: int| x <= px < x + 20 && y <= py < y + 20, palette(i as int), x as int, y as int, 20, 20);
            }
        },
        None => {
            fill_chessboard(buffer, x, y, 20);
        },
    }
    let ghost b1 = buffer@;
    let ring = if idx.is_some() { border } else { DARK_GRAY };
    draw_ring_box(buffer, x, y, 20, ring);
    proof {
        lemma_within_paint(b1, |px: int, py: int| in_ring(px, py, x as int, y as int, 20), ring, x as int, y as int, 20, 20);
        lemma_within_trans(b0, b1, buffer@, x as int, y as int, 20, 20);
        if idx.is_some() {
            assert forall|px: int, py: int|
                x <= px < x + 20 && y <= py < y + 20 implies #[trigger] buffer@[pix(px, py)] == swatch_color(
                    px,
                    py,
                    x as int,
                    y as int,
                    palette(idx.unwrap() as int),
                    border,
                ) by {
                lemma_frame_pix(px, py);
            }
        }
    }
}

/// Color of pixel `(px, py)` of a `20 x 20` swatch at `(x, y)`: the border color
/// on its outer ring, `c` inside.
pub open spec fn swatch_color(px: int, py: int, x: int, y: int, c: u32, border: u32) -> u32 {
    if in_ring(px, py, x, y, 20) {
        border
    } else {
        c
    }
}

proof fn lemma_frame_pix(x: int, y: int)
    requires
        0 <= x < WIDTH,
        0 <= y < HEIGHT,
    ensures
        col(pix(x, y)) == x,
        row(pix(x, y)) == y,
        0 <= pix(x, y) < FRAME_LEN,
{
    lemma_pix(x, y);
    assert(0 <= pix(x, y) < FRAME_LEN) by (nonlinear_arith)
        requires
            0 <= x < WIDTH,
            0 <= y < HEIGHT,
    ;
}

/// Draw the edge/fill indicator: the fill swatch behind, offset by 8 pixels, and
/// the edge swatch in front, bordered in white (dark gray for the white color);
/// a transparent color shows as a chessboard.
pub fn draw_edge_fill_indicator(
    buffer: &mut Vec<u32>,
    x: usize,
    y: usize,
    edge_color_index: Option<usize>,
    fill_color_index: Option<usize>,
)
    requires
        old(buffer)@.len() >= FRAME_LEN,
        x + 28 <= WIDTH,
        y + 28 <= HEIGHT,
        index_ok(edge_color_index),
        index_ok(fill_color_index),
    ensures
        changed_within(old(buffer)@, final(buffer)@, x as int, y as int, 28, 28),
        edge_color_index.is_some() ==> forall|px: int, py: int|
            x <= px < x + 20 && y <= py < y + 20 ==> #[trigger] final(buffer)@[pix(px, py)] == swatch_color(
                px,
                py,
                x as int,
                y as int,
                palette(edge_color_index.unwrap() as int),
                if palette(edge_color_index.unwrap() as int) == WHITE {
                    DARK_GRAY
                } else {
                    WHITE
                },
            ),
{
    let ghost b0 = buffer@;
    draw_swatch(buffer, x + 8, y + 8, fill_color_index, DARK_GRAY);
    let ghost b1 = buffer@;
    let border = match edge_color_index {
        Some(i) => if palette_color(i) == WHITE {
            DARK_GRAY
        } else {
            WHITE
        },
        None => DARK_GRAY,
    };
    draw_swatch(buffer, x, y, edge_color_index, border);
    proof {
        lemma_within_grow(b0, b1, x + 8, y + 8, 20, 20, x as int, y as int, 28, 28);
        lemma_chain(b0, b1, buffer@, x as int, y as int, 28, 28, x as int, y as int, 20, 20);
    }
}

/// Whether only frame pixels inside the `w x h` box at `(x0, y0)` differ between
/// `a` and `b`, and every pixel that differs has become `c`.
pub open spec fn painted_within(a: Seq<u32>, b: Seq<u32>, x0: int, y0: int, w: int, h: int, c: u32) -> bool {
    &&& changed_within(a, b, x0, y0, w, h)
    &&& forall|i: int| 0 <= i < a.len() && #[trigger] b[i] != a[i] ==> b[i] == c
}

pub proof fn lemma_painted_trans(a: Seq<u32>, b: Seq<u32>, d: Seq<u32>, x0: int, y0: int, w: int, h: int, c: u32)
    requires
        painted_within(a, b, x0, y0, w, h, c),
        painted_within(b, d, x0, y0, w, h, c),
    ensures
        painted_within(a, d, x0, y0, w, h, c),
{
    lemma_within_trans(a, b, d, x0, y0, w, h);
    assert forall|i: int| 0 <= i < a.len() && #[trigger] d[i] != a[i] implies d[i] == c by {
        if d[i] == b[i] {
            assert(b[i] != a[i]);
        }
    }
}

/// Set pixel `(x, y)` when it lies in the `w x h` box at `(x0, y0)`.
fn put_in(buffer: &mut Vec<u32>, x: usize, y: usize, color: u32, x0: usize, y0: usize, w: usize, h: usize)
    requires
        old(buffer)@.len() >= FRAME_LEN,
    ensures
        painted_within(old(buffer)@, final(buffer)@, x0 as int, y0 as int, w as int, h as int, color),
{
    if x0 <= x && x - x0 < w && y0 <= y && y - y0 < h {
        let ghost b0 = buffer@;
        put(buffer, x, y, color);
        proof {
            lemma_within_paint(b0, |px: int, py: int| px == x && py == y, color, x0 as int, y0 as int, w as int, h as int);
        }
    }
}

/// Draw the icon of `tool` in black inside the button at `(bx, by)`, within the
/// 15-pixel square 5 pixels in from its top-left corner.
pub fn draw_tool_icon(buffer: &mut Vec<u32>, bx: usize, by: usize, tool: ToolMode)
    requires
        old(buffer)@.len() >= FRAME_LEN,
        bx + BUTTON_SIZE <= WIDTH,
        by + BUTTON_SIZE <= HEIGHT,
    ensures
        painted_within(old(buffer)@, final(buffer)@, bx + 5, by + 5, 15, 15, BLACK),
{
    let ghost b0 = buffer@;
    let n = BUTTON_SIZE;
    proof {
        assert(painted_within(b0, buffer@, bx + 5, by + 5, 15, 15, BLACK));
    }
    let padding: usize = 5;
    let start_x = bx + padding;
    let end_x = bx + BUTTON_SIZE - padding;
    let start_y = by + padding;
    let end_y = by + BUTTON_SIZE - padding;
    let mid_x = bx + BUTTON_SIZE / 2;
    let mid_y = by + BUTTON_SIZE / 2;
    match tool {
        ToolMode::Brush => {
            let mut i: usize = 0;
            while i < 6
                invariant
                    b0.len() >= FRAME_LEN,
                    bx + BUTTON_SIZE <= WIDTH,
                    by + BUTTON_SIZE <= HEIGHT,
                    n == BUTTON_SIZE,
                    end_y == by + 19,
                    start_x == bx + 5,
                    i <= 6,
                    painted_within(b0, buffer@, bx + 5, by + 5, 15, 15, BLACK),
                decreases 6 - i,
            {
                let ghost b1 = buffer@;
                put_in(buffer, start_x + i, end_y - i, BLACK, bx + 5, by + 5, 15, 15);
                let ghost b2 = buffer@;
                put_in(buffer, start_x + i, end_y - i - 1, BLACK, bx + 5, by + 5, 15, 15);
                proof {
                    lemma_painted_trans(b0, b1, b2, bx + 5, by + 5, 15, 15, BLACK);
                    lemma_painted_trans(b0, b2, buffer@, bx + 5, by + 5, 15, 15, BLACK);
                }
                i = i + 1;
            }
        },
        ToolMode::Line => {
            let mut i: usize = 0;
            while i < end_x - start_x
                invariant
                    b0.len() >= FRAME_LEN,
                    bx + BUTTON_SIZE <= WIDTH,
                    by + BUTTON_SIZE <= HEIGHT,
                    n == BUTTON_SIZE,
                    start_x == bx + 5,
                    end_x == bx + 19,
                    start_y == by + 5,
                    i <= 14,
                    painted_within(b0, buffer@, bx + 5, by + 5, 15, 15, BLACK),
                decreases 14 - i,
            {
                let ghost b1 = buffer@;
                put_in(buffer, start_x + i, start_y + i, BLACK, bx + 5, by + 5, 15, 15);
                proof {
                    lemma_painted_trans(b0, b1, buffer@, bx + 5, by + 5, 15, 15, BLACK);
                }
                i = i + 1;
            }
        },
        ToolMode::Square => {
            let size = end_x - start_x;
            let mut i: usize = 0;
            while i < size
                invariant
                    b0.len() >= FRAME_LEN,
                    bx + BUTTON_SIZE <= WIDTH,
                    by + BUTTON_SIZE <= HEIGHT,
                    n == BUTTON_SIZE,
                    start_x == bx + 5,
                    end_x == bx + 19,
                    start_y == by + 5,
                    end_y == by + 19,
                    size == 14,
                    i <= 14,
                    painted_within(b0, buffer@, bx + 5, by + 5, 15, 15, BLACK),
                decreases 14 - i,
            {
                let ghost b1 = buffer@;
                put_in(buffer, start_x + i, start_y, BLACK, bx + 5, by + 5, 15, 15);
                let ghost b2 = buffer@;
                put_in(buffer, start_x + i, end_y, BLACK, bx + 5, by + 5, 15, 15);
                let ghost b3 = buffer@;
                put_in(buffer, start_x, start_y + i, BLACK, bx + 5, by + 5, 15, 15);
                let ghost b4 = buffer@;
                put_in(buffer, end_x, start_y + i, BLACK, bx + 5, by + 5, 15, 15);
                proof {
                    lemma_painted_trans(b0, b1, b2, bx + 5, by + 5, 15, 15, BLACK);
                    lemma_painted_trans(b0, b2, b3, bx + 5, by + 5, 15, 15, BLACK);
                    lemma_painted_trans(b0, b3, b4, bx + 5, by + 5, 15, 15, BLACK);
                    lemma_painted_trans(b0, b4, buffer@, bx + 5, by + 5, 15, 15, BLACK);
                }
                i = i + 1;
            }
        },
        ToolMode::Rectangle => {
            let top = start_y + 3;
            let bottom = end_y - 3;
            let mut x: usize = start_x;
            while x <= end_x
                invariant
                    b0.len() >= FRAME_LEN,
                    bx + BUTTON_SIZE <= WIDTH,
                    by + BUTTON_SIZE <= HEIGHT,
                    n == BUTTON_SIZE,
                    start_x == bx + 5,
                    end_x == bx + 19,
                    start_x <= x <= end_x + 1,
                    painted_within(b0, buffer@, bx + 5, by + 5, 15, 15, BLACK),
                decreases end_x + 1 - x,
            {
                let ghost b1 = buffer@;
                put_in(buffer, x, top, BLACK, bx + 5, by + 5, 15, 15);
                let ghost b2 = buffer@;
                put_in(buffer, x, bottom, BLACK, bx + 5, by + 5, 15, 15);
                proof {
                    lemma_painted_trans(b0, b1, b2, bx + 5, by + 5, 15, 15, BLACK);
                    lemma_painted_trans(b0, b2, buffer@, bx + 5, by + 5, 15, 15, BLACK);
                }
                x = x + 1;
            }
            let mut y: usize = top;
            while y <= bottom
                invariant
                    b0.len() >= FRAME_LEN,
                    bx + BUTTON_SIZE <= WIDTH,
                    by + BUTTON_SIZE <= HEIGHT,
                    n == BUTTON_SIZE,
                    top == by + 8,
                    bottom == by + 16,
                    top <= y <= bottom + 1,
                    painted_within(b0, buffer@, bx + 5, by + 5, 15, 15, BLACK),
                decreases bottom + 1 - y,
            {
                let ghost b1 = buffer@;
                put_in(buffer, start_x, y, BLACK, bx + 5, by + 5, 15, 15);
                let ghost b2 = buffer@;
                put_in(buffer, end_x, y, BLACK, bx + 5, by + 5, 15, 15);
                proof {
                    lemma_painted_trans(b0, b1, b2, bx + 5, by + 5, 15, 15, BLACK);
                    lemma_painted_trans(b0, b2, buffer@, bx + 5, by + 5, 15, 15, BLACK);
                }
                y = y + 1;
            }
        },
        ToolMode::Circle | ToolMode::Oval => {
            let rx = (end_x - start_x) / 2;
            let ry = if tool == ToolMode::Circle { rx } else { (end_y - start_y) / 3 };
            let mut angle: u128 = 0;
            while angle < 32
                invariant
                    b0.len() >= FRAME_LEN,
                    bx + BUTTON_SIZE <= WIDTH,
                    by + BUTTON_SIZE <= HEIGHT,
                    n == BUTTON_SIZE,
                    mid_x == bx + 12,
                    mid_y == by + 12,
                    rx == 7,
                    ry <= 7,
                    mid_x < WIDTH,
                    mid_y < HEIGHT,
                    angle <= 32,
                    painted_within(b0, buffer@, bx + 5, by + 5, 15, 15, BLACK),
                decreases 32 - angle,
            {
                let t = turn_at(angle, 32);
                let x = ring_coord_at(2 * mid_x as u128, 2 * rx as u128, t.0);
                let y = ring_coord_at(2 * mid_y as u128, 2 * ry as u128, t.1);
                let ghost b1 = buffer@;
                put_in(buffer, x, y, BLACK, bx + 5, by + 5, 15, 15);
                proof {
                    lemma_painted_trans(b0, b1, buffer@, bx + 5, by + 5, 15, 15, BLACK);
                }
                angle = angle + 1;
            }
        },
        ToolMode::Triangle => {
            let apex_y = start_y;
            let base_y = end_y;
            let h = base_y - apex_y;
            let mut i: usize = 0;
            while i <= h
                invariant
                    b0.len() >= FRAME_LEN,
                    bx + BUTTON_SIZE <= WIDTH,
                    by + BUTTON_SIZE <= HEIGHT,
                    n == BUTTON_SIZE,
                    h == 14,
                    mid_x == bx + 12,
                    start_x == bx + 5,
                    end_x == bx + 19,
                    apex_y == by + 5,
                    i <= 15,
                    painted_within(b0, buffer@, bx + 5, by + 5, 15, 15, BLACK),
                decreases 15 - i,
            {
                let dl = i * (mid_x - start_x) / h;
                let dr = i * (end_x - mid_x) / h;
                proof {
                    assert(dl <= 7 && dr <= 7) by (nonlinear_arith)
                        requires
                            i <= 14,
                            dl == i * 7 / 14,
                            dr == i * 7 / 14,
                    ;
                }
                let ghost b1 = buffer@;
                put_in(buffer, mid_x - dl, apex_y + i, BLACK, bx + 5, by + 5, 15, 15);
                let ghost b2 = buffer@;
                put_in(buffer, mid_x + dr, apex_y + i, BLACK, bx + 5, by + 5, 15, 15);
                proof {
                    lemma_painted_trans(b0, b1, b2, bx + 5, by + 5, 15, 15, BLACK);
                    lemma_painted_trans(b0, b2, buffer@, bx + 5, by + 5, 15, 15, BLACK);
                }
                i = i + 1;
            }
            let mut x: usize = start_x;
            while x <= end_x
                invariant
                    b0.len() >= FRAME_LEN,
                    bx + BUTTON_SIZE <= WIDTH,
                    by + BUTTON_SIZE <= HEIGHT,
                    n == BUTTON_SIZE,
                    end_x == bx + 19,
                    base_y == by + 19,
                    x <= end_x + 1,
                    painted_within(b0, buffer@, bx + 5, by + 5, 15, 15, BLACK),
                decreases end_x + 1 - x,
            {
                let ghost b1 = buffer@;
                put_in(buffer, x, base_y, BLACK, bx + 5, by + 5, 15, 15);
                proof {
                    lemma_painted_trans(b0, b1, buffer@, bx + 5, by + 5, 15, 15, BLACK);
                }
                x = x + 1;
            }
        },
    }
}

/// Row `row` (0 to 4, top first) of the 5-pixel-wide glyph of digit `d`; bit 4
/// is the leftmost pixel.
fn glyph_row(d: u32, row: usize) -> (r: u8)
    requires
        d < 10,
        row < 5,
{
    let rows: (u8, u8, u8, u8, u8) = match d {
        0 => (0b01110, 0b10001, 0b10001, 0b10001, 0b01110),
        1 => (0b00100, 0b01100, 0b00100, 0b00100, 0b01110),
        2 => (0b01110, 0b10001, 0b00110, 0b01000, 0b11111),
        3 => (0b01110, 0b10001, 0b00110, 0b10001, 0b01110),
        4 => (0b00010, 0b00110, 0b01010, 0b11111, 0b00010),
        5 => (0b11111, 0b10000, 0b11110, 0b00001, 0b11110),
        6 => (0b01110, 0b10000, 0b11110, 0b10001, 0b01110),
        7 => (0b11111, 0b00001, 0b00010, 0b00100, 0b00100),
        8 => (0b01110, 0b10001, 0b01110, 0b10001, 0b01110),
        _ => (0b01110, 0b10001, 0b01111, 0b00001, 0b01110),
    };
    match row {
        0 => rows.0,
        1 => rows.1,
        2 => rows.2,
        3 => rows.3,
        _ => rows.4,
    }
}

/// Draw `num` in decimal, in black, with a 5-pixel font scaled twice vertically
/// (ten rows from `y`), 7 pixels per digit from column `x`.
pub fn draw_number(buffer: &mut Vec<u32>, x: usize, y: usize, num: usize)
    requires
        old(buffer)@.len() >= FRAME_LEN,
    ensures
        painted_within(old(buffer)@, final(buffer)@, x as int, y as int, WIDTH as int, 10, BLACK),
{
    let ghost b0 = buffer@;
    let mut text = String::new();
    push_decimal(&mut text, num);
    let digits = text.as_str();
    let len = digits.unicode_len();
    let mut offset: usize = 0;
    let mut k: usize = 0;
    while k < len
        invariant
            b0.len() >= FRAME_LEN,
            len == digits@.len(),
            k <= len,
            offset <= WIDTH + 7,
            painted_within(b0, buffer@, x as int, y as int, WIDTH as int, 10, BLACK),
        decreases len - k,
    {
        let ch = digits.get_char(k);
        if '0' <= ch && ch <= '9' {
            let d = (ch as u32) - ('0' as u32);
            let mut row: usize = 0;
            while row < 5
                invariant
                    b0.len() >= FRAME_LEN,
                    d < 10,
                    row <= 5,
                    offset <= WIDTH + 7,
                    painted_within(b0, buffer@, x as int, y as int, WIDTH as int, 10, BLACK),
                decreases 5 - row,
            {
                let bits = glyph_row(d, row);
                let mut c: usize = 0;
                while c < 5
                    invariant
                        b0.len() >= FRAME_LEN,
                        row < 5,
                        c <= 5,
                        offset <= WIDTH + 7,
                        painted_within(b0, buffer@, x as int, y as int, WIDTH as int, 10, BLACK),
                    decreases 5 - c,
                {
                    if (bits >> (4 - c) as u8) & 1 == 1 && x < WIDTH && y < HEIGHT && offset < WIDTH {
                        let px = x + offset + c;
                        let py = y + row * 2;
                        let ghost b1 = buffer@;
                        put_in(buffer, px, py, BLACK, x, y, WIDTH, 10);
                        let ghost b2 = buffer@;
                        put_in(buffer, px, py + 1, BLACK, x, y, WIDTH, 10);
                        proof {
                            lemma_painted_trans(b0, b1, b2, x as int, y as int, WIDTH as int, 10, BLACK);
                            lemma_painted_trans(b0, b2, buffer@, x as int, y as int, WIDTH as int, 10, BLACK);
                        }
                    }
                    c = c + 1;
                }
                row = row + 1;
            }
            if offset < WIDTH {
                offset = offset + 7;
            }
        }
        k = k + 1;
    }
}

/// Color of pixel `(px, py)` of the `40 x 24` size box at `(x, y)` before its
/// digits are drawn: dark gray on the border, white inside.
pub open spec fn size_box_color(px: int, py: int, x: int, y: int) -> u32 {
    if in_box(px, py, x + 1, y + 1, 38, 22) {
        WHITE
    } else {
        DARK_GRAY
    }
}

/// Draw the brush size box: white, with a dark gray border, and the size in
/// black digits from 8 pixels right of and 6 below its corner. The digits never
/// reach the top, bottom or left border.
pub fn draw_size_display(buffer: &mut Vec<u32>, x: usize, y: usize, size: usize)
    requires
        old(buffer)@.len() >= FRAME_LEN,
        x + 40 <= WIDTH,
        y + BUTTON_SIZE <= HEIGHT,
    ensures
        changed_within(old(buffer)@, final(buffer)@, x as int, y as int, WIDTH as int, BUTTON_SIZE as int),
        forall|px: int, py: int|
            in_box(px, py, x as int, y as int, 40, 24) ==> (#[trigger] final(buffer)@[pix(px, py)] == size_box_color(
                px,
                py,
                x as int,
                y as int,
            ) || final(buffer)@[pix(px, py)] == BLACK),
        forall|px: int, py: int|
            in_box(px, py, x as int, y as int, 40, 24) && (py == y || py == y + 23 || px == x)
                ==> #[trigger] final(buffer)@[pix(px, py)] == DARK_GRAY,
{
    let ghost b0 = buffer@;
    let ghost h = BUTTON_SIZE as int;
    let ghost w = WIDTH as int;
    fill_box(buffer, x, y, 40, BUTTON_SIZE, WHITE);
    let ghost b1 = buffer@;
    fill_box(buffer, x, y, 40, 1, DARK_GRAY);
    let ghost b2 = buffer@;
    fill_box(buffer, x, y + BUTTON_SIZE - 1, 40, 1, DARK_GRAY);
    let ghost b3 = buffer@;
    fill_box(buffer, x, y, 1, BUTTON_SIZE, DARK_GRAY);
    let ghost b4 = buffer@;
    fill_box(buffer, x + 39, y, 1, BUTTON_SIZE, DARK_GRAY);
    let ghost b5 = buffer@;
    draw_number(buffer, x + 8, y + 6, size);
    proof {
        lemma_within_paint(b0, |px: int, py: int| x <= px < x + 40 && y <= py < y + BUTTON_SIZE, WHITE, x as int, y as int, w, h);
        lemma_within_paint(b1, |px: int, py: int| x <= px < x + 40 && y <= py < y + 1, DARK_GRAY, x as int, y as int, w, h);
        lemma_within_trans(b0, b1, b2, x as int, y as int, w, h);
        lemma_within_paint(b2, |px: int, py: int| x <= px < x + 40 && y + BUTTON_SIZE - 1 <= py < y + BUTTON_SIZE - 1 + 1, DARK_GRAY, x as int, y as int, w, h);
        lemma_within_trans(b0, b2, b3, x as int, y as int, w, h);
        lemma_within_paint(b3, |px: int, py: int| x <= px < x + 1 && y <= py < y + BUTTON_SIZE, DARK_GRAY, x as int, y as int, w, h);
        lemma_within_trans(b0, b3, b4, x as int, y as int, w, h);
        lemma_within_paint(b4, |px: int, py: int| x + 39 <= px < x + 39 + 1 && y <= py < y + BUTTON_SIZE, DARK_GRAY, x as int, y as int, w, h);
        lemma_within_trans(b0, b4, b5, x as int, y as int, w, h);
        assert forall|px: int, py: int| in_box(px, py, x as int, y as int, 40, 24) implies #[trigger] b5[pix(px, py)] == size_box_color(px, py, x as int, y as int) by {
            lemma_frame_pix(px, py);
        }
        assert forall|px: int, py: int|
            in_box(px, py, x as int, y as int, 40, 24) implies (#[trigger] buffer@[pix(px, py)] == size_box_color(px, py, x as int, y as int) || buffer@[pix(px, py)] == BLACK) by {
            lemma_frame_pix(px, py);
        }
        assert forall|px: int, py: int|
            in_box(px, py, x as int, y as int, 40, 24) && (py == y || py == y + 23 || px == x) implies #[trigger] buffer@[pix(px, py)] == DARK_GRAY by {
            lemma_frame_pix(px, py);
            assert(!in_box(px, py, x + 8, y + 6, w, 10));
        }
        lemma_within_grow(b5, buffer@, x + 8, y + 6, w, 10, x as int, y as int, w + 8, h);
        assert(changed_within(b5, buffer@, x as int, y as int, w, h));
        lemma_within_trans(b0, b5, buffer@, x as int, y as int, w, h);
    }
}

/// Center of palette button `j` of the bottom toolbar.
pub open spec fn palette_center(j: int) -> int {
    pix(15 + 27 * j, 555)
}

/// Whether no palette button center lies in the `w x h` box at `(x0, y0)`.
pub open spec fn clear_of_centers(x0: int, y0: int, w: int, h: int) -> bool {
    forall|j: int| 0 <= j < 14 ==> !#[trigger] in_box(15 + 27 * j, 555, x0, y0, w, h)
}

proof fn lemma_keeps_centers(a: Seq<u32>, b: Seq<u32>, c: Seq<u32>, x0: int, y0: int, w: int, h: int)
    requires
        b.len() >= FRAME_LEN,
        changed_within(b, c, x0, y0, w, h),
        clear_of_centers(x0, y0, w, h),
        forall|j: int| 0 <= j < 14 ==> #[trigger] b[palette_center(j)] == a[palette_center(j)],
    ensures
        forall|j: int| 0 <= j < 14 ==> #[trigger] c[palette_center(j)] == a[palette_center(j)],
{
    assert forall|j: int| 0 <= j < 14 implies #[trigger] c[palette_center(j)] == a[palette_center(j)] by {
        lemma_frame_pix(15 + 27 * j, 555);
        assert(!in_box(15 + 27 * j, 555, x0, y0, w, h));
        assert(c[palette_center(j)] == b[palette_center(j)]);
    }
}

/// Draw a button of the bottom toolbar (inside its box) and record that only
/// the toolbar changed.
fn toolbar_button(buffer: &mut Vec<u32>, bx: usize, by: usize, color: u32, Ghost(b0): Ghost<Seq<u32>>)
    requires
        old(buffer)@.len() >= FRAME_LEN,
        bx + BUTTON_SIZE <= WIDTH,
        ROW1_Y <= by,
        by + BUTTON_SIZE <= HEIGHT,
        changed_within(b0, old(buffer)@, 0, ROW1_Y as int, WIDTH as int, 57),
    ensures
        changed_within(b0, final(buffer)@, 0, ROW1_Y as int, WIDTH as int, 57),
        changed_within(old(buffer)@, final(buffer)@, bx as int, by as int, BUTTON_SIZE as int, BUTTON_SIZE as int),
        final(buffer)@[pix(bx + 12, by + 12)] == color,
{
    let ghost b1 = buffer@;
    draw_button(buffer, bx, by, color);
    proof {
        lemma_frame_pix(bx + 12, by + 12);
        lemma_within_paint(b1, |x: int, y: int| in_box(x, y, bx as int, by as int, BUTTON_SIZE as int, BUTTON_SIZE as int), color, bx as int, by as int, BUTTON_SIZE as int, BUTTON_SIZE as int);
        lemma_chain(b0, b1, buffer@, 0, ROW1_Y as int, WIDTH as int, 57, bx as int, by as int, BUTTON_SIZE as int, BUTTON_SIZE as int);
    }
}

/// Draw a border of the bottom toolbar's button at `(bx, by)`.
fn toolbar_border(buffer: &mut Vec<u32>, bx: usize, by: usize, color: u32, inner: bool, Ghost(b0): Ghost<Seq<u32>>)
    requires
        old(buffer)@.len() >= FRAME_LEN,
        bx + BUTTON_SIZE <= WIDTH,
        ROW1_Y <= by,
        by + BUTTON_SIZE <= HEIGHT,
        changed_within(b0, old(buffer)@, 0, ROW1_Y as int, WIDTH as int, 57),
    ensures
        changed_within(b0, final(buffer)@, 0, ROW1_Y as int, WIDTH as int, 57),
        changed_within(old(buffer)@, final(buffer)@, bx as int, by as int, BUTTON_SIZE as int, BUTTON_SIZE as int),
        final(buffer)@[pix(bx + 12, by + 12)] == old(buffer)@[pix(bx + 12, by + 12)],
{
    let ghost b1 = buffer@;
    let ghost n = BUTTON_SIZE as int;
    proof {
        lemma_frame_pix(bx + 12, by + 12);
    }
    if inner {
        draw_button_inner_border(buffer, bx, by, color);
        proof {
            lemma_within_paint(b1, |x: int, y: int| in_ring(x, y, bx + 1, by + 1, n - 2), color, bx as int, by as int, n, n);
        }
    } else {
        draw_button_border(buffer, bx, by, color);
        proof {
            lemma_within_paint(b1, |x: int, y: int| in_ring(x, y, bx as int, by as int, n), color, bx as int, by as int, n, n);
        }
    }
    proof {
        lemma_chain(b0, b1, buffer@, 0, ROW1_Y as int, WIDTH as int, 57, bx as int, by as int, n, n);
    }
}

/// Draw the bottom toolbar: the palette buttons with the edge selection (white,
/// or blue on the white button) and the fill selection (green) marked, the
/// transparent button, the edge/fill indicator, the tool buttons with the
/// current tool marked in blue, the brush size box and the minus, plus and
/// clear buttons. The toolbar's top row is a dark gray line, and the center of
/// palette button `j` shows palette color `j`.
pub fn draw_bottom_toolbar(
    buffer: &mut Vec<u32>,
    edge_color_index: Option<usize>,
    fill_color_index: Option<usize>,
    brush_size: usize,
    current_tool: ToolMode,
)
    requires
        old(buffer)@.len() >= FRAME_LEN,
        index_ok(edge_color_index),
        index_ok(fill_color_index),
    ensures
        changed_within(old(buffer)@, final(buffer)@, 0, CANVAS_BOTTOM as int, WIDTH as int, 60),
        forall|x: int| 0 <= x < WIDTH ==> #[trigger] final(buffer)@[CANVAS_BOTTOM * WIDTH + x] == DARK_GRAY,
        forall|j: int| 0 <= j < 14 ==> #[trigger] final(buffer)@[palette_center(j)] == palette(j),
{
    let ghost b00 = buffer@;
    let ghost top = ROW1_Y as int;
    let ghost w = WIDTH as int;
    let toolbar_top = CANVAS_BOTTOM;
    fill_box(buffer, 0, toolbar_top, WIDTH, HEIGHT - toolbar_top, GRAY);
    let ghost b1 = buffer@;
    fill_box(buffer, 0, toolbar_top, WIDTH, 1, DARK_GRAY);
    let ghost b0 = buffer@;
    proof {
        lemma_within_paint(b00, |x: int, y: int| 0 <= x < 0 + WIDTH && toolbar_top <= y < toolbar_top + (HEIGHT - toolbar_top), GRAY, 0, CANVAS_BOTTOM as int, w, 60);
        lemma_within_paint(b1, |x: int, y: int| 0 <= x < 0 + WIDTH && toolbar_top <= y < toolbar_top + 1, DARK_GRAY, 0, CANVAS_BOTTOM as int, w, 60);
        lemma_within_trans(b00, b1, b0, 0, CANVAS_BOTTOM as int, w, 60);
        assert(changed_within(b0, buffer@, 0, top, w, 57));
    }
    let row1_y = toolbar_top + BUTTON_MARGIN;
    let mut i: usize = 0;
    while i < PALETTE_LEN
        invariant
            b0.len() >= FRAME_LEN,
            buffer@.len() == b0.len(),
            row1_y == 543,
            i <= 14,
            changed_within(b0, buffer@, 0, ROW1_Y as int, WIDTH as int, 57),
            forall|j: int| 0 <= j < i ==> #[trigger] buffer@[palette_center(j)] == palette(j),
        decreases 14 - i,
    {
        let ghost before = buffer@;
        proof {
            assert(i * 27 <= 400) by (nonlinear_arith)
                requires
                    i < 14,
            ;
        }
        let bx = BUTTON_MARGIN + i * (BUTTON_SIZE + BUTTON_MARGIN);
        let color = palette_color(i);
        toolbar_button(buffer, bx, row1_y, color, Ghost(b0));
        proof {
            assert forall|j: int| 0 <= j < i implies #[trigger] buffer@[palette_center(j)] == palette(j) by {
                lemma_frame_pix(15 + 27 * j, 555);
                assert(!in_box(15 + 27 * j, 555, bx as int, row1_y as int, BUTTON_SIZE as int, BUTTON_SIZE as int));
                assert(buffer@[palette_center(j)] == before[palette_center(j)]);
            }
            assert(palette_center(i as int) == pix(bx + 12, row1_y + 12));
        }
        let ghost mid = buffer@;
        let is_edge = match edge_color_index {
            Some(e) => e == i,
            None => false,
        };
        let is_fill = match fill_color_index {
            Some(f) => f == i,
            None => false,
        };
        let edge_border = if color == WHITE { BLUE } else { WHITE };
        if is_edge {
            toolbar_border(buffer, bx, row1_y, edge_border, false, Ghost(b0));
            if is_fill {
                toolbar_border(buffer, bx, row1_y, GREEN, true, Ghost(b0));
            }
        } else if is_fill {
            toolbar_border(buffer, bx, row1_y, GREEN, false, Ghost(b0));
        } else {
            toolbar_border(buffer, bx, row1_y, DARK_GRAY, false, Ghost(b0));
        }
        proof {
            assert forall|j: int| 0 <= j < i + 1 implies #[trigger] buffer@[palette_center(j)] == palette(j) by {
                lemma_frame_pix(15 + 27 * j, 555);
                if j < i {
                    assert(!in_box(15 + 27 * j, 555, bx as int, row1_y as int, BUTTON_SIZE as int, BUTTON_SIZE as int));
                }
                assert(buffer@[palette_center(j)] == mid[palette_center(j)]);
            }
        }
        i = i + 1;
    }
    let ghost br1 = buffer@;
    let transparent_x = BUTTON_MARGIN + 14 * (BUTTON_SIZE + BUTTON_MARGIN);
    let ghost b2 = buffer@;
    draw_transparent_button(buffer, transparent_x, row1_y, edge_color_index.is_none(), fill_color_index.is_none());
    let ghost b3 = buffer@;
    let indicator_x = transparent_x + BUTTON_SIZE + BUTTON_MARGIN * 2;
    draw_edge_fill_indicator(buffer, indicator_x, row1_y, edge_color_index, fill_color_index);
    proof {
        lemma_chain(b0, b2, b3, 0, top, w, 57, transparent_x as int, row1_y as int, BUTTON_SIZE as int, BUTTON_SIZE as int);
        lemma_chain(b0, b3, buffer@, 0, top, w, 57, indicator_x as int, row1_y as int, 28, 28);
        lemma_keeps_centers(br1, br1, b3, transparent_x as int, row1_y as int, BUTTON_SIZE as int, BUTTON_SIZE as int);
        lemma_keeps_centers(br1, b3, buffer@, indicator_x as int, row1_y as int, 28, 28);
    }
    let row2_y = toolbar_top + TOOLBAR_ROW_HEIGHT + BUTTON_MARGIN;
    let mut t: usize = 0;
    while t < 7
        invariant
            b0.len() >= FRAME_LEN,
            buffer@.len() == b0.len(),
            row2_y == 573,
            top == ROW1_Y,
            w == WIDTH,
            t <= 7,
            changed_within(b0, buffer@, 0, ROW1_Y as int, WIDTH as int, 57),
            forall|j: int| 0 <= j < 14 ==> #[trigger] buffer@[palette_center(j)] == br1[palette_center(j)],
        decreases 7 - t,
    {
        proof {
            assert(t * 27 <= 200) by (nonlinear_arith)
                requires
                    t < 7,
            ;
        }
        let bx = BUTTON_MARGIN + t * (BUTTON_SIZE + BUTTON_MARGIN);
        let tool = tool_of(t);
        let ghost b3b = buffer@;
        toolbar_button(buffer, bx, row2_y, GRAY, Ghost(b0));
        let ghost b4 = buffer@;
        draw_tool_icon(buffer, bx, row2_y, tool);
        let ghost b4b = buffer@;
        proof {
            lemma_chain(b0, b4, buffer@, 0, top, w, 57, bx as int, row2_y as int, BUTTON_SIZE as int, BUTTON_SIZE as int);
            lemma_keeps_centers(br1, b3b, b4, bx as int, row2_y as int, BUTTON_SIZE as int, BUTTON_SIZE as int);
            lemma_keeps_centers(br1, b4, b4b, bx + 5, row2_y + 5, 15, 15);
        }
        let border = if tool == current_tool { BLUE } else { DARK_GRAY };
        toolbar_border(buffer, bx, row2_y, border, false, Ghost(b0));
        proof {
            lemma_keeps_centers(br1, b4b, buffer@, bx as int, row2_y as int, BUTTON_SIZE as int, BUTTON_SIZE as int);
        }
        t = t + 1;
    }
    let size_display_x = BUTTON_MARGIN + 7 * (BUTTON_SIZE + BUTTON_MARGIN) + BUTTON_MARGIN;
    let ghost b5 = buffer@;
    draw_size_display(buffer, size_display_x, row2_y, brush_size);
    proof {
        lemma_keeps_centers(br1, b5, buffer@, size_display_x as int, row2_y as int, w, BUTTON_SIZE as int);
        lemma_within_grow(b5, buffer@, size_display_x as int, row2_y as int, w, BUTTON_SIZE as int, 0, top, w + size_display_x, 57);
        lemma_within_trans(b0, b5, buffer@, 0, top, w, 57);
    }
    let minus_x = size_display_x + 44 + BUTTON_MARGIN;
    let ghost b5b = buffer@;
    toolbar_button(buffer, minus_x, row2_y, DARK_GRAY, Ghost(b0));
    let ghost b6 = buffer@;
    draw_minus_icon(buffer, minus_x, row2_y);
    proof {
        lemma_keeps_centers(br1, b5b, b6, minus_x as int, row2_y as int, BUTTON_SIZE as int, BUTTON_SIZE as int);
        lemma_within_paint(b6, |x: int, y: int| in_box(x, y, minus_x + 6, row2_y + 12, 12, 1), WHITE, minus_x as int, row2_y as int, BUTTON_SIZE as int, BUTTON_SIZE as int);
        lemma_keeps_centers(br1, b6, buffer@, minus_x as int, row2_y as int, BUTTON_SIZE as int, BUTTON_SIZE as int);
        lemma_within_paint(b6, |x: int, y: int| in_box(x, y, minus_x + 6, row2_y + 12, 12, 1), WHITE, 0, top, w, 57);
        lemma_within_trans(b0, b6, buffer@, 0, top, w, 57);
    }
    let plus_x = minus_x + BUTTON_SIZE + BUTTON_MARGIN;
    let ghost b6b = buffer@;
    toolbar_button(buffer, plus_x, row2_y, DARK_GRAY, Ghost(b0));
    let ghost b7 = buffer@;
    draw_plus_icon(buffer, plus_x, row2_y);
    proof {
        lemma_keeps_centers(br1, b6b, b7, plus_x as int, row2_y as int, BUTTON_SIZE as int, BUTTON_SIZE as int);
        lemma_within_paint(b7, |x: int, y: int| in_box(x, y, plus_x + 6, row2_y + 12, 12, 1) || in_box(x, y, plus_x + 12, row2_y + 6, 1, 12), WHITE, plus_x as int, row2_y as int, BUTTON_SIZE as int, BUTTON_SIZE as int);
        lemma_keeps_centers(br1, b7, buffer@, plus_x as int, row2_y as int, BUTTON_SIZE as int, BUTTON_SIZE as int);
        lemma_within_paint(b7, |x: int, y: int| in_box(x, y, plus_x + 6, row2_y + 12, 12, 1) || in_box(x, y, plus_x + 12, row2_y + 6, 1, 12), WHITE, 0, top, w, 57);
        lemma_within_trans(b0, b7, buffer@, 0, top, w, 57);
    }
    let clear_x = plus_x + BUTTON_SIZE + BUTTON_MARGIN * 2;
    let ghost b7b = buffer@;
    toolbar_button(buffer, clear_x, row2_y, CLEAR_RED, Ghost(b0));
    let ghost b8 = buffer@;
    draw_clear_icon(buffer, clear_x, row2_y);
    proof {
        lemma_keeps_centers(br1, b7b, b8, clear_x as int, row2_y as int, BUTTON_SIZE as int, BUTTON_SIZE as int);
        lemma_within_paint(b8, |x: int, y: int| on_cross(x, y, clear_x as int, row2_y as int), WHITE, clear_x as int, row2_y as int, BUTTON_SIZE as int, BUTTON_SIZE as int);
        lemma_keeps_centers(br1, b8, buffer@, clear_x as int, row2_y as int, BUTTON_SIZE as int, BUTTON_SIZE as int);
        lemma_within_paint(b8, |x: int, y: int| on_cross(x, y, clear_x as int, row2_y as int), WHITE, 0, top, w, 57);
        lemma_within_trans(b0, b8, buffer@, 0, top, w, 57);
        lemma_within_grow(b0, buffer@, 0, top, w, 57, 0, CANVAS_BOTTOM as int, w, 60);
        lemma_within_trans(b00, b0, buffer@, 0, CANVAS_BOTTOM as int, w, 60);
        assert forall|x: int| 0 <= x < WIDTH implies #[trigger] buffer@[CANVAS_BOTTOM * WIDTH + x] == DARK_GRAY by {
            lemma_pix(x, CANVAS_BOTTOM as int);
            assert(0 <= pix(x, CANVAS_BOTTOM as int) < FRAME_LEN) by (nonlinear_arith)
                requires
                    0 <= x < WIDTH,
            ;
            assert(buffer@[pix(x, CANVAS_BOTTOM as int)] == b0[pix(x, CANVAS_BOTTOM as int)]);
        }
    }
}

} // verus!
