//! Mouse handling: one step per frame from the pointer sample to the new
//! drawing state, tool selection and canvas.
use vstd::prelude::*;

use crate::canvas::{clear_canvas, col, on_canvas, paint, row};
use crate::interp::{index_ok, pal};
use crate::raster::{in_stamp, on_stroke};
use crate::shapes::shape_drawn;
use crate::raster::{draw_brush_line, draw_circle};
use crate::shapes::draw_shape_with_fill;
use crate::ui::{
    get_clicked_color_index_bottom, get_clicked_tool, in_box, is_in_clear_button, is_in_close_button,
    is_in_fill_indicator, is_in_minus_button, is_in_plus_button, is_in_transparent_button, slot_at,
    tool_at, CLEAR_X, CLOSE_X, INDICATOR_X, MINUS_X, PLUS_X, ROW1_Y, ROW2_Y, TRANSPARENT_X,
};
use crate::{
    palette, palette_color, ToolMode, BUTTON_MARGIN, BUTTON_SIZE, CANVAS_BOTTOM, CANVAS_TOP, FRAME_LEN,
    MAX_BRUSH_SIZE, MIN_BRUSH_SIZE, WIDTH,
};

verus! {

/// What the pointer did since the last frame.
#[derive(Debug, Clone, Copy)]
pub struct Pointer {
    /// A brush stroke is in progress.
    pub is_drawing: bool,
    /// Where the brush stroke was at the last frame.
    pub last_pos: Option<(usize, usize)>,
    /// Where the current shape drag started.
    pub drag_start: Option<(usize, usize)>,
    pub mouse_was_down: bool,
    pub right_mouse_was_down: bool,
    pub tool: ToolMode,
}

/// One pointer sample: its position in the window, if inside, and the buttons.
#[derive(Debug, Clone, Copy)]
pub struct Mouse {
    pub pos: Option<(usize, usize)>,
    pub left: bool,
    pub right: bool,
}

/// The pointer state of a window that has seen no input.
pub fn pointer_new() -> (p: Pointer)
    ensures
        pointer_ok(p),
        p.tool == ToolMode::Brush,
        p.drag_start.is_none(),
{
    Pointer {
        is_drawing: false,
        last_pos: None,
        drag_start: None,
        mouse_was_down: false,
        right_mouse_was_down: false,
        tool: ToolMode::Brush,
    }
}

pub open spec fn in_canvas_pos(q: Option<(usize, usize)>) -> bool {
    match q {
        Some(pt) => on_canvas(pt.0 as int, pt.1 as int),
        None => true,
    }
}

/// Positions that the pointer state remembers lie in the drawable region.
pub open spec fn pointer_ok(p: Pointer) -> bool {
    in_canvas_pos(p.last_pos) && in_canvas_pos(p.drag_start)
}

/// Whether only drawable pixels differ between `a` and `b`.
pub open spec fn canvas_only(a: Seq<u32>, b: Seq<u32>) -> bool {
    &&& a.len() == b.len()
    &&& forall|i: int| 0 <= i < a.len() && !on_canvas(col(i), row(i)) ==> #[trigger] b[i] == a[i]
}

pub open spec fn bottom_color_at(x: int, y: int) -> Option<usize> {
    if ROW1_Y <= y < ROW1_Y + BUTTON_SIZE {
        slot_at(x, 14)
    } else {
        None
    }
}

pub open spec fn on_button(x: int, y: int, bx: int, by: int) -> bool {
    in_box(x, y, bx, by, BUTTON_SIZE as int, BUTTON_SIZE as int)
}

/// The edge color after the sample: a left click on a palette button selects it,
/// on the transparent button clears it.
pub open spec fn edge_after(p: Pointer, m: Mouse, edge: Option<usize>) -> Option<usize> {
    match m.pos {
        Some(q) => if m.left && !p.mouse_was_down {
            if on_button(q.0 as int, q.1 as int, TRANSPARENT_X as int, ROW1_Y as int) {
                None
            } else {
                match bottom_color_at(q.0 as int, q.1 as int) {
                    Some(c) => Some(c),
                    None => edge,
                }
            }
        } else {
            edge
        },
        None => edge,
    }
}

/// The fill color after the sample: a left click on the indicator's fill square
/// or a right click on the transparent button clears it; a right click on a
/// palette button toggles that color.
pub open spec fn fill_after(p: Pointer, m: Mouse, fill: Option<usize>) -> Option<usize> {
    match m.pos {
        Some(q) => {
            let x = q.0 as int;
            let y = q.1 as int;
            let f1 = if m.left && !p.mouse_was_down && in_box(x, y, INDICATOR_X + 8, ROW1_Y + 8, 20, 20) {
                None
            } else {
                fill
            };
            if m.right && !p.right_mouse_was_down {
                let f2 = match bottom_color_at(x, y) {
                    Some(c) => if f1 == Some(c) {
                        None
                    } else {
                        Some(c)
                    },
                    None => f1,
                };
                if on_button(x, y, TRANSPARENT_X as int, ROW1_Y as int) {
                    None
                } else {
                    f2
                }
            } else {
                f1
            }
        },
        None => fill,
    }
}

/// The brush size after the sample: the minus and plus buttons step it within
/// the brush range.
pub open spec fn brush_after(p: Pointer, m: Mouse, size: usize) -> usize {
    match m.pos {
        Some(q) => if m.left && !p.mouse_was_down {
            if on_button(q.0 as int, q.1 as int, MINUS_X as int, ROW2_Y as int) && size > MIN_BRUSH_SIZE {
                (size - 1) as usize
            } else if on_button(q.0 as int, q.1 as int, PLUS_X as int, ROW2_Y as int) && size < MAX_BRUSH_SIZE {
                (size + 1) as usize
            } else {
                size
            }
        } else {
            size
        },
        None => size,
    }
}

/// The tool after the sample: a left click on a tool button selects it.
pub open spec fn tool_after(p: Pointer, m: Mouse) -> ToolMode {
    match m.pos {
        Some(q) => if m.left && !p.mouse_was_down && ROW2_Y <= q.1 < ROW2_Y + BUTTON_SIZE && slot_at(
            q.0 as int,
            7,
        ).is_some() {
            tool_at(slot_at(q.0 as int, 7).unwrap() as int)
        } else {
            p.tool
        },
        None => p.tool,
    }
}

/// Whether `q` lies in the drawable region.
pub open spec fn pos_in_canvas(q: (usize, usize)) -> bool {
    on_canvas(q.0 as int, q.1 as int)
}

/// The framebuffer after the sample, given the colors and brush size that the
/// sample's clicks left: a click on the clear button clears the canvas; in brush
/// mode, holding the left button on the canvas stamps the brush on the first
/// frame and strokes from the last position after that; with a shape tool,
/// releasing a drag that started on the canvas over the canvas draws the shape.
pub open spec fn pointer_drawn(
    p: Pointer,
    m: Mouse,
    b: Seq<u32>,
    edge: Option<usize>,
    fill: Option<usize>,
    size: usize,
) -> Seq<u32> {
    match m.pos {
        None => b,
        Some(q) => {
            let x = q.0 as int;
            let y = q.1 as int;
            let clicked = m.left && !p.mouse_was_down;
            let b1 = if clicked && on_button(x, y, CLEAR_X as int, ROW2_Y as int) {
                paint(b, |px: int, py: int| true, crate::WHITE)
            } else {
                b
            };
            let tool = tool_after(p, m);
            if tool == ToolMode::Brush {
                if m.left && pos_in_canvas(q) && edge.is_some() {
                    let c = palette(edge.unwrap() as int);
                    if p.is_drawing && p.last_pos.is_some() {
                        let l = p.last_pos.unwrap();
                        paint(b1, |px: int, py: int| on_stroke(l.0 as int, l.1 as int, x, y, size as int, px, py), c)
                    } else if !p.is_drawing {
                        paint(b1, |px: int, py: int| in_stamp(x, y, size as int, px, py), c)
                    } else {
                        b1
                    }
                } else {
                    b1
                }
            } else if !(clicked && pos_in_canvas(q)) && !m.left && p.mouse_was_down && p.drag_start.is_some()
                && pos_in_canvas(q) {
                let st = p.drag_start.unwrap();
                shape_drawn(b1, tool, st.0, st.1, q.0, q.1, pal(edge), pal(fill), size)
            } else {
                b1
            }
        },
    }
}

/// The pointer's stroke and drag state after the sample.
pub open spec fn pointer_moved(p: Pointer, m: Mouse, r: Pointer) -> bool {
    match m.pos {
        None => !r.is_drawing && r.last_pos.is_none() && r.drag_start == p.drag_start,
        Some(q) => if tool_after(p, m) == ToolMode::Brush {
            &&& r.drag_start == p.drag_start
            &&& if m.left && pos_in_canvas(q) {
                r.is_drawing && r.last_pos == Some(q)
            } else {
                !r.is_drawing && r.last_pos.is_none()
            }
        } else {
            &&& !r.is_drawing
            &&& r.last_pos.is_none()
            &&& r.drag_start == if m.left && !p.mouse_was_down && pos_in_canvas(q) {
                Some(q)
            } else if !m.left && p.mouse_was_down {
                None
            } else {
                p.drag_start
            }
        },
    }
}

/// Whether the sample is a left click on the close button.
pub open spec fn closes(p: Pointer, m: Mouse) -> bool {
    match m.pos {
        Some(q) => m.left && !p.mouse_was_down && on_button(q.0 as int, q.1 as int, CLOSE_X as int, BUTTON_MARGIN as int),
        None => false,
    }
}

/// Handle one pointer sample: apply clicks on the toolbar, draw brush strokes
/// while the left button is held in brush mode, and draw the current shape when
/// a drag that started on the canvas is released on it. Returns whether the
/// close button was clicked, in which case nothing else happens.
pub fn pointer_step(
    p: &mut Pointer,
    m: Mouse,
    buffer: &mut Vec<u32>,
    edge_color_index: &mut Option<usize>,
    fill_color_index: &mut Option<usize>,
    brush_size: &mut usize,
) -> (close: bool)
    requires
        old(buffer)@.len() >= FRAME_LEN,
        index_ok(*old(edge_color_index)),
        index_ok(*old(fill_color_index)),
        pointer_ok(*old(p)),
    ensures
        close == closes(*old(p), m),
        close ==> *final(p) == *old(p) && final(buffer)@ == old(buffer)@ && *final(edge_color_index) == *old(
            edge_color_index,
        ) && *final(fill_color_index) == *old(fill_color_index) && *final(brush_size) == *old(brush_size),
        !close ==> {
            &&& *final(edge_color_index) == edge_after(*old(p), m, *old(edge_color_index))
            &&& *final(fill_color_index) == fill_after(*old(p), m, *old(fill_color_index))
            &&& *final(brush_size) == brush_after(*old(p), m, *old(brush_size))
            &&& final(p).tool == tool_after(*old(p), m)
            &&& final(p).mouse_was_down == m.left
            &&& final(p).right_mouse_was_down == m.right
            &&& pointer_moved(*old(p), m, *final(p))
            &&& final(buffer)@ == pointer_drawn(
                *old(p),
                m,
                old(buffer)@,
                *final(edge_color_index),
                *final(fill_color_index),
                *final(brush_size),
            )
            &&& canvas_only(old(buffer)@, final(buffer)@)
        },
        index_ok(*final(edge_color_index)),
        index_ok(*final(fill_color_index)),
        pointer_ok(*final(p)),
{
    let ghost b0 = buffer@;
    let mouse_clicked = m.left && !p.mouse_was_down;
    let right_clicked = m.right && !p.right_mouse_was_down;
    match m.pos {
        Some((x, y)) => {
            if mouse_clicked {
                if is_in_close_button(x, y) {
                    return true;
                }
                if let Some(c) = get_clicked_color_index_bottom(x, y) {
                    *edge_color_index = Some(c);
                }
                if is_in_transparent_button(x, y) {
                    *edge_color_index = None;
                }
                if let Some(t) = get_clicked_tool(x, y) {
                    p.tool = t;
                }
                if is_in_minus_button(x, y) && *brush_size > MIN_BRUSH_SIZE {
                    *brush_size = *brush_size - 1;
                }
                if is_in_plus_button(x, y) && *brush_size < MAX_BRUSH_SIZE {
                    *brush_size = *brush_size + 1;
                }
                if is_in_clear_button(x, y) {
                    clear_canvas(buffer);
                    proof {
                        lemma_paint_canvas_only(b0, |px: int, py: int| true, crate::WHITE);
                    }
                }
                if is_in_fill_indicator(x, y) {
                    *fill_color_index = None;
                }
            }
            if right_clicked {
                if let Some(c) = get_clicked_color_index_bottom(x, y) {
                    if *fill_color_index == Some(c) {
                        *fill_color_index = None;
                    } else {
                        *fill_color_index = Some(c);
                    }
                }
                if is_in_transparent_button(x, y) {
                    *fill_color_index = None;
                }
            }
            let ghost b1 = buffer@;
            proof {
                if b1 == b0 {
                    assert(canvas_only(b0, b1));
                }
            }
            let edge = match *edge_color_index {
                Some(i) => Some(palette_color(i)),
                None => None,
            };
            let fill = match *fill_color_index {
                Some(i) => Some(palette_color(i)),
                None => None,
            };
            let in_canvas = x < WIDTH && CANVAS_TOP <= y && y < CANVAS_BOTTOM;
            if p.tool == ToolMode::Brush {
                if m.left && in_canvas {
                    if let Some(color) = edge {
                        if p.is_drawing && p.last_pos.is_some() {
                            let (lx, ly) = p.last_pos.unwrap();
                            draw_brush_line(buffer, lx, ly, x, y, color, *brush_size);
                            proof {
                                lemma_paint_canvas_only(b1, |px: int, py: int| crate::raster::on_stroke(lx as int, ly as int, x as int, y as int, *brush_size as int, px, py), color);
                                lemma_canvas_only_trans(b0, b1, buffer@);
                            }
                        } else if !p.is_drawing {
                            draw_circle(buffer, x, y, *brush_size, color);
                            proof {
                                lemma_paint_canvas_only(b1, |px: int, py: int| crate::raster::in_stamp(x as int, y as int, *brush_size as int, px, py), color);
                                lemma_canvas_only_trans(b0, b1, buffer@);
                            }
                        }
                    }
                    p.is_drawing = true;
                    p.last_pos = Some((x, y));
                } else {
                    p.is_drawing = false;
                    p.last_pos = None;
                }
            } else {
                if mouse_clicked && in_canvas {
                    p.drag_start = Some((x, y));
                } else if !m.left && p.mouse_was_down {
                    if let Some((sx, sy)) = p.drag_start {
                        if in_canvas {
                            draw_shape_with_fill(buffer, p.tool, sx, sy, x, y, edge, fill, *brush_size);
                            proof {
                                lemma_shape_canvas_only(b1, p.tool, sx, sy, x, y, edge, fill, *brush_size);
                                lemma_canvas_only_trans(b0, b1, buffer@);
                            }
                        }
                        p.drag_start = None;
                    }
                }
                p.is_drawing = false;
                p.last_pos = None;
            }
        },
        None => {
            p.is_drawing = false;
            p.last_pos = None;
        },
    }
    p.mouse_was_down = m.left;
    p.right_mouse_was_down = m.right;
    false
}

proof fn lemma_paint_canvas_only(b: Seq<u32>, q: spec_fn(int, int) -> bool, c: u32)
    ensures
        canvas_only(b, paint(b, q, c)),
{
}

proof fn lemma_canvas_only_trans(a: Seq<u32>, b: Seq<u32>, c: Seq<u32>)
    requires
        canvas_only(a, b),
        canvas_only(b, c),
    ensures
        canvas_only(a, c),
{
    assert forall|i: int| 0 <= i < a.len() && !on_canvas(col(i), row(i)) implies #[trigger] c[i] == a[i] by {
        assert(b[i] == a[i]);
    }
}

proof fn lemma_shape_canvas_only(
    b: Seq<u32>,
    tool: ToolMode,
    x1: usize,
    y1: usize,
    x2: usize,
    y2: usize,
    edge: Option<u32>,
    fill: Option<u32>,
    size: usize,
)
    ensures
        canvas_only(b, crate::shapes::shape_drawn(b, tool, x1, y1, x2, y2, edge, fill, size)),
{
    let filled = match fill {
        Some(c) => paint(b, |x: int, y: int| crate::shapes::in_fill(tool, x1, y1, x2, y2, x, y), c),
        None => b,
    };
    assert(canvas_only(b, filled));
}

} // verus!
