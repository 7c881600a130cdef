//! Executing commands against the drawing state and the framebuffer.
use vstd::prelude::*;
use vstd::string::*;

use crate::canvas::{lemma_paint_ext, paint};
use crate::command::{AttributedPoint, Command, PALETTE_LEN};
use crate::raster::{draw_brush_line, draw_circle, in_stamp, on_stroke};
use crate::shapes::{draw_shape_with_fill, hi, lo, shape_drawn};
use crate::snapshot::save_canvas_png;
use crate::text::{dec, push_decimal};
use crate::canvas::clear_canvas;
use crate::{palette, palette_color, ToolMode, FRAME_LEN, WHITE};

verus! {

/// The color of an optional palette index.
pub open spec fn pal(i: Option<usize>) -> Option<u32> {
    match i {
        Some(k) => Some(palette(k as int)),
        None => None,
    }
}

pub open spec fn index_ok(i: Option<usize>) -> bool {
    match i {
        Some(k) => k < PALETTE_LEN,
        None => true,
    }
}

pub open spec fn sat_sub(p: usize, q: usize) -> usize {
    if p >= q {
        (p - q) as usize
    } else {
        0
    }
}

/// Whether `cmd` can run: its palette indices exist and its box corners fit in
/// a `usize`.
pub open spec fn runnable(cmd: Command) -> bool {
    match cmd {
        Command::Color(i) => i < PALETTE_LEN,
        Command::Edge(e) => index_ok(e),
        Command::Fill(f) => index_ok(f),
        Command::Square { x, y, size } => x + size <= usize::MAX && y + size <= usize::MAX,
        Command::Circle { x, y, r } => x + r <= usize::MAX && y + r <= usize::MAX,
        Command::Oval { x, y, rx, ry } => x + rx <= usize::MAX && y + ry <= usize::MAX,
        Command::Polyline(v) => forall|k: int| 0 <= k < v@.len() ==> index_ok(#[trigger] v@[k].color),
        Command::Points(v) => forall|k: int| 0 <= k < v@.len() ==> index_ok(#[trigger] v@[k].color),
        _ => true,
    }
}

/// Color index of a point: its own, else the edge color.
pub open spec fn point_color(p: AttributedPoint, edge: Option<usize>) -> Option<usize> {
    if p.color.is_some() {
        p.color
    } else {
        edge
    }
}

/// Brush width of a point: its own, else the brush size.
pub open spec fn point_size(p: AttributedPoint, size: usize) -> usize {
    match p.size {
        Some(s) => s,
        None => size,
    }
}

/// The buffer after the first `n - 1` segments of a polyline: segment
/// `k - 1 -> k` takes its color and width from point `k`.
pub open spec fn polyline_drawn(b: Seq<u32>, pts: Seq<AttributedPoint>, edge: Option<usize>, size: usize, n: int) -> Seq<u32>
    decreases n,
{
    if n <= 1 {
        b
    } else {
        let prev = polyline_drawn(b, pts, edge, size, n - 1);
        let p = pts[n - 2];
        let q = pts[n - 1];
        match point_color(q, edge) {
            Some(i) => paint(
                prev,
                |x: int, y: int| on_stroke(p.x as int, p.y as int, q.x as int, q.y as int, point_size(q, size) as int, x, y),
                palette(i as int),
            ),
            None => prev,
        }
    }
}

/// The buffer after stamping the first `n` points, each with its own color and width.
pub open spec fn points_drawn(b: Seq<u32>, pts: Seq<AttributedPoint>, edge: Option<usize>, size: usize, n: int) -> Seq<u32>
    decreases n,
{
    if n <= 0 {
        b
    } else {
        let prev = points_drawn(b, pts, edge, size, n - 1);
        let p = pts[n - 1];
        match point_color(p, edge) {
            Some(i) => paint(prev, |x: int, y: int| in_stamp(p.x as int, p.y as int, point_size(p, size) as int, x, y), palette(i as int)),
            None => prev,
        }
    }
}

/// The framebuffer after running `cmd` on `b` with the given state.
pub open spec fn drawn(cmd: Command, b: Seq<u32>, edge: Option<usize>, fill: Option<usize>, size: usize) -> Seq<u32> {
    match cmd {
        Command::Stroke { x1, y1, x2, y2 } => match edge {
            Some(i) => paint(b, |x: int, y: int| on_stroke(x1 as int, y1 as int, x2 as int, y2 as int, size as int, x, y), palette(i as int)),
            None => b,
        },
        Command::Dot { x, y } => match edge {
            Some(i) => paint(b, |px: int, py: int| in_stamp(x as int, y as int, size as int, px, py), palette(i as int)),
            None => b,
        },
        Command::Clear => paint(b, |x: int, y: int| true, WHITE),
        Command::Line { x1, y1, x2, y2 } => shape_drawn(b, ToolMode::Line, x1, y1, x2, y2, pal(edge), pal(fill), size),
        Command::Square { x, y, size: s } => shape_drawn(b, ToolMode::Square, x, y, (x + s) as usize, (y + s) as usize, pal(edge), pal(fill), size),
        Command::Rect { x1, y1, x2, y2 } => shape_drawn(b, ToolMode::Rectangle, x1, y1, x2, y2, pal(edge), pal(fill), size),
        Command::Circle { x, y, r } => shape_drawn(b, ToolMode::Circle, sat_sub(x, r), sat_sub(y, r), (x + r) as usize, (y + r) as usize, pal(edge), pal(fill), size),
        Command::Oval { x, y, rx, ry } => shape_drawn(b, ToolMode::Oval, sat_sub(x, rx), sat_sub(y, ry), (x + rx) as usize, (y + ry) as usize, pal(edge), pal(fill), size),
        Command::Triangle { x1, y1, x2, y2 } => shape_drawn(b, ToolMode::Triangle, x1, y1, x2, y2, pal(edge), pal(fill), size),
        Command::Polyline(v) => polyline_drawn(b, v@, edge, size, v@.len() as int),
        Command::Points(v) => points_drawn(b, v@, edge, size, v@.len() as int),
        _ => b,
    }
}

pub open spec fn next_edge(cmd: Command, edge: Option<usize>) -> Option<usize> {
    match cmd {
        Command::Color(i) => Some(i),
        Command::Edge(e) => e,
        _ => edge,
    }
}

pub open spec fn next_fill(cmd: Command, fill: Option<usize>) -> Option<usize> {
    match cmd {
        Command::Fill(f) => f,
        _ => fill,
    }
}

pub open spec fn next_size(cmd: Command, size: usize) -> usize {
    match cmd {
        Command::Size(s) => s,
        _ => size,
    }
}

/// An optional palette index as text: its digits, or `none`.
pub open spec fn index_text(i: Option<usize>) -> Seq<char> {
    match i {
        Some(k) => dec(k as nat),
        None => "none"@,
    }
}

/// The reply to `state`: `edge:<e> fill:<f> size:<n>`.
pub open spec fn state_text(edge: Option<usize>, fill: Option<usize>, size: usize) -> Seq<char> {
    "edge:"@ + index_text(edge) + " fill:"@ + index_text(fill) + " size:"@ + dec(size as nat)
}

/// The reply to `snapshot` once saving has given `res`.
pub open spec fn snapshot_text(res: Result<(), String>) -> Seq<char> {
    match res {
        Ok(()) => "saved canvas.png"@,
        Err(e) => "error: "@ + e@,
    }
}

/// Whether `t` is a reply that `snapshot` can give.
pub open spec fn is_snapshot_text(t: Seq<char>) -> bool {
    t == "saved canvas.png"@ || exists|m: Seq<char>| t == "error: "@ + m
}

fn push_index(s: &mut String, i: Option<usize>)
    ensures
        final(s)@ == old(s)@ + index_text(i),
{
    match i {
        Some(k) => push_decimal(s, k),
        None => s.append("none"),
    }
}

/// The `state` reply for the given state.
pub fn state_reply(edge: Option<usize>, fill: Option<usize>, size: usize) -> (r: String)
    ensures
        r@ == state_text(edge, fill, size),
{
    let mut s = String::new();
    s.append("edge:");
    push_index(&mut s, edge);
    s.append(" fill:");
    push_index(&mut s, fill);
    s.append(" size:");
    push_decimal(&mut s, size);
    proof {
        assert(s@ =~= state_text(edge, fill, size));
    }
    s
}

/// The `snapshot` reply for the outcome of saving.
pub fn snapshot_reply(res: &Result<(), String>) -> (r: String)
    ensures
        r@ == snapshot_text(*res),
{
    match res {
        Ok(()) => String::from_str("saved canvas.png"),
        Err(e) => {
            let mut s = String::from_str("error: ");
            s.append(e.as_str());
            s
        },
    }
}

fn color_or(own: Option<usize>, edge: Option<usize>) -> (r: Option<usize>)
    ensures
        r == (if own.is_some() { own } else { edge }),
{
    match own {
        Some(c) => Some(c),
        None => edge,
    }
}

fn size_or(own: Option<usize>, size: usize) -> (r: usize)
    ensures
        r == (match own {
            Some(s) => s,
            None => size,
        }),
{
    match own {
        Some(s) => s,
        None => size,
    }
}

fn pal_of(i: Option<usize>) -> (r: Option<u32>)
    requires
        index_ok(i),
    ensures
        r == pal(i),
{
    match i {
        Some(k) => Some(palette_color(k)),
        None => None,
    }
}

/// Execute a command: state commands update the edge color, fill color or
/// brush size; drawing commands paint with the palette colors that the state
/// (or a point's own attributes) selects; `state` and `snapshot` reply with text.
pub fn execute_command(
    cmd: &Command,
    buffer: &mut Vec<u32>,
    edge_color_index: &mut Option<usize>,
    fill_color_index: &mut Option<usize>,
    brush_size: &mut usize,
) -> (r: Option<String>)
    requires
        old(buffer)@.len() >= FRAME_LEN,
        index_ok(*old(edge_color_index)),
        index_ok(*old(fill_color_index)),
        runnable(*cmd),
    ensures
        *final(edge_color_index) == next_edge(*cmd, *old(edge_color_index)),
        *final(fill_color_index) == next_fill(*cmd, *old(fill_color_index)),
        *final(brush_size) == next_size(*cmd, *old(brush_size)),
        final(buffer)@ == drawn(*cmd, old(buffer)@, *old(edge_color_index), *old(fill_color_index), *old(brush_size)),
        match *cmd {
            Command::State => r.is_some() && r.unwrap()@ == state_text(
                *old(edge_color_index),
                *old(fill_color_index),
                *old(brush_size),
            ),
            Command::Snapshot => r.is_some() && is_snapshot_text(r.unwrap()@),
            _ => r.is_none(),
        },
{
    let edge = *edge_color_index;
    let fill = *fill_color_index;
    let size = *brush_size;
    match cmd {
        Command::Snapshot => {
            let res = save_canvas_png(&*buffer, "canvas.png");
            proof {
                assert(buffer@ == old(buffer)@);
                assert(drawn(*cmd, old(buffer)@, edge, fill, size) == old(buffer)@);
            }
            let text = snapshot_reply(&res);
            proof {
                match res {
                    Ok(()) => {},
                    Err(e) => {
                        assert(text@ == "error: "@ + e@);
                    },
                }
            }
            Some(text)
        },
        Command::Color(index) => {
            *edge_color_index = Some(*index);
            None
        },
        Command::Edge(color_opt) => {
            *edge_color_index = *color_opt;
            None
        },
        Command::Fill(color_opt) => {
            *fill_color_index = *color_opt;
            None
        },
        Command::Size(s) => {
            *brush_size = *s;
            None
        },
        Command::Stroke { x1, y1, x2, y2 } => {
            if let Some(idx) = edge {
                draw_brush_line(buffer, *x1, *y1, *x2, *y2, palette_color(idx), size);
                proof {
                    lemma_paint_ext(
                        old(buffer)@,
                        |x: int, y: int| on_stroke(*x1 as int, *y1 as int, *x2 as int, *y2 as int, size as int, x, y),
                        |x: int, y: int| on_stroke(x1 as int, y1 as int, x2 as int, y2 as int, size as int, x, y),
                        palette(idx as int),
                    );
                }
            }
            None
        },
        Command::Dot { x, y } => {
            if let Some(idx) = edge {
                draw_circle(buffer, *x, *y, size, palette_color(idx));
                proof {
                    lemma_paint_ext(
                        old(buffer)@,
                        |px: int, py: int| in_stamp(*x as int, *y as int, size as int, px, py),
                        |px: int, py: int| in_stamp(x as int, y as int, size as int, px, py),
                        palette(idx as int),
                    );
                }
            }
            None
        },
        Command::Clear => {
            clear_canvas(buffer);
            proof {
                lemma_paint_ext(old(buffer)@, |x: int, y: int| true, |x: int, y: int| true, WHITE);
            }
            None
        },
        Command::State => Some(state_reply(edge, fill, size)),
        Command::Line { x1, y1, x2, y2 } => {
            draw_shape_with_fill(buffer, ToolMode::Line, *x1, *y1, *x2, *y2, pal_of(edge), pal_of(fill), size);
            None
        },
        Command::Square { x, y, size: side } => {
            draw_shape_with_fill(buffer, ToolMode::Square, *x, *y, *x + *side, *y + *side, pal_of(edge), pal_of(fill), size);
            None
        },
        Command::Rect { x1, y1, x2, y2 } => {
            draw_shape_with_fill(buffer, ToolMode::Rectangle, *x1, *y1, *x2, *y2, pal_of(edge), pal_of(fill), size);
            None
        },
        Command::Circle { x, y, r } => {
            draw_shape_with_fill(
                buffer,
                ToolMode::Circle,
                x.saturating_sub(*r),
                y.saturating_sub(*r),
                *x + *r,
                *y + *r,
                pal_of(edge),
                pal_of(fill),
                size,
            );
            None
        },
        Command::Oval { x, y, rx, ry } => {
            draw_shape_with_fill(
                buffer,
                ToolMode::Oval,
                x.saturating_sub(*rx),
                y.saturating_sub(*ry),
                *x + *rx,
                *y + *ry,
                pal_of(edge),
                pal_of(fill),
                size,
            );
            None
        },
        Command::Triangle { x1, y1, x2, y2 } => {
            draw_shape_with_fill(buffer, ToolMode::Triangle, *x1, *y1, *x2, *y2, pal_of(edge), pal_of(fill), size);
            None
        },
        Command::Polyline(points) => {
            let ghost b0 = buffer@;
            let mut i: usize = 1;
            while i < points.len()
                invariant
                    1 <= i,
                    i <= points@.len() || i == 1,
                    index_ok(edge),
                    forall|k: int| 0 <= k < points@.len() ==> index_ok(#[trigger] points@[k].color),
                    buffer@.len() == b0.len(),
                    b0.len() >= FRAME_LEN,
                    buffer@ == polyline_drawn(b0, points@, edge, size, i as int),
                decreases points@.len() - i,
            {
                let p = points[i - 1];
                let q = points[i];
                if let Some(idx) = color_or(q.color, edge) {
                    draw_brush_line(buffer, p.x, p.y, q.x, q.y, palette_color(idx), size_or(q.size, size));
                }
                i = i + 1;
            }
            proof {
                if points@.len() > 1 {
                    assert(i == points@.len());
                } else {
                    assert(polyline_drawn(b0, points@, edge, size, points@.len() as int) == b0);
                }
            }
            None
        },
        Command::Points(points) => {
            let ghost b0 = buffer@;
            let mut i: usize = 0;
            while i < points.len()
                invariant
                    i <= points@.len(),
                    index_ok(edge),
                    forall|k: int| 0 <= k < points@.len() ==> index_ok(#[trigger] points@[k].color),
                    buffer@.len() == b0.len(),
                    b0.len() >= FRAME_LEN,
                    buffer@ == points_drawn(b0, points@, edge, size, i as int),
                decreases points@.len() - i,
            {
                let p = points[i];
                if let Some(idx) = color_or(p.color, edge) {
                    draw_circle(buffer, p.x, p.y, size_or(p.size, size), palette_color(idx));
                }
                i = i + 1;
            }
            None
        },
    }
}

fn colors_ok(points: &Vec<AttributedPoint>) -> (r: bool)
    ensures
        r == forall|k: int| 0 <= k < points@.len() ==> index_ok(#[trigger] points@[k].color),
{
    let mut i: usize = 0;
    while i < points.len()
        invariant
            i <= points@.len(),
            forall|k: int| 0 <= k < i ==> index_ok(#[trigger] points@[k].color),
        decreases points@.len() - i,
    {
        match points[i].color {
            Some(c) => {
                if c >= PALETTE_LEN {
                    proof {
                        assert(!index_ok(points@[i as int].color));
                    }
                    return false;
                }
            },
            None => {},
        }
        i = i + 1;
    }
    true
}

/// Whether `cmd` can run (see `runnable`).
pub fn command_runnable(cmd: &Command) -> (r: bool)
    ensures
        r == runnable(*cmd),
{
    match cmd {
        Command::Color(i) => *i < PALETTE_LEN,
        Command::Edge(e) => match e {
            Some(k) => *k < PALETTE_LEN,
            None => true,
        },
        Command::Fill(f) => match f {
            Some(k) => *k < PALETTE_LEN,
            None => true,
        },
        Command::Square { x, y, size } => *size <= usize::MAX - *x && *size <= usize::MAX - *y,
        Command::Circle { x, y, r } => *r <= usize::MAX - *x && *r <= usize::MAX - *y,
        Command::Oval { x, y, rx, ry } => *rx <= usize::MAX - *x && *ry <= usize::MAX - *y,
        Command::Polyline(points) => colors_ok(points),
        Command::Points(points) => colors_ok(points),
        _ => true,
    }
}

/// The text written back on a socket for the outcome of a line: `None` when
/// the line is not a command that can run, else the command's reply, if any.
pub open spec fn socket_text(outcome: Option<Option<String>>) -> Seq<char> {
    match outcome {
        None => "error: unknown command"@,
        Some(None) => "ok"@,
        Some(Some(t)) => t@,
    }
}

/// The reply to a socket line: the command's own reply, `ok` for a command
/// without one, `error: unknown command` for a line that did not parse.
pub fn socket_reply(outcome: &Option<Option<String>>) -> (r: String)
    ensures
        r@ == socket_text(*outcome),
{
    match outcome {
        None => String::from_str("error: unknown command"),
        Some(None) => String::from_str("ok"),
        Some(Some(t)) => t.clone(),
    }
}

} // verus!
