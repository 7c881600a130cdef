//! Properties of the library that relate several of its functions.
use vstd::prelude::*;

use crate::canvas::{at, lemma_pix, lemma_pix_bound, on_canvas, paint, pix};
use crate::command::{attr_points, color_index, coord_pair, parsed, simple_command, AttributedPoint, Command, PALETTE_LEN};
use crate::text::ws_tokens;
use crate::interp::{drawn, index_text, next_edge, next_size, point_color, point_size, points_drawn, polyline_drawn, state_text};
use crate::raster::{in_stamp, line_path, line_steps, on_stroke, lemma_unit_stamp, stamp_radius};
use crate::shapes::{hi, lo, on_box_outline, on_outline, shape_drawn};
use crate::text::{dec, digit_char, digit_value, digits_value, is_digit, parse_num};
use crate::{palette, ToolMode, FRAME_LEN, MAX_BRUSH_SIZE, MIN_BRUSH_SIZE, WHITE};

verus! {

/// The decimal digits of `n` read back give `n`.
pub proof fn lemma_dec_parse(n: nat)
    requires
        n <= usize::MAX,
    ensures
        parse_num(dec(n)) == Some(n as usize),
    decreases n,
{
    lemma_dec_digits(n);
    assert(dec(n).len() > 0);
    assert(dec(n)[0] != '+') by {
        assert(is_digit(dec(n)[0]));
    }
}

proof fn lemma_dec_digits(n: nat)
    ensures
        dec(n).len() > 0,
        forall|i: int| 0 <= i < dec(n).len() ==> is_digit(#[trigger] dec(n)[i]),
        digits_value(dec(n)) == n,
    decreases n,
{
    if n >= 10 {
        lemma_dec_digits(n / 10);
        let d = dec(n);
        assert(d.drop_last() == dec(n / 10));
        assert forall|i: int| 0 <= i < d.len() implies is_digit(#[trigger] d[i]) by {
            if i < d.len() - 1 {
                assert(d[i] == dec(n / 10)[i]);
            }
        }
        assert(n == (n / 10) * 10 + n % 10);
        assert(digit_value(digit_char(n % 10)) == n % 10);
        assert(d.last() == digit_char(n % 10));
        assert(digits_value(d) == digits_value(d.drop_last()) * 10 + digit_value(d.last()));
        assert(digits_value(d) == (n / 10) * 10 + n % 10);
    } else {
        assert(digit_value(digit_char(n)) == n);
        assert(dec(n).drop_last() =~= Seq::<char>::empty());
        assert(digits_value(dec(n)) == digits_value(dec(n).drop_last()) * 10 + digit_value(dec(n).last()));
    }
}

/// `edge i` parses to setting the edge color to `i`, running it sets the edge
/// color to `i` whatever it was, and `state` then reports `i`.
pub proof fn law_edge_reported(toks: Seq<Seq<char>>, i: usize, edge: Option<usize>, fill: Option<usize>, size: usize)
    requires
        i < PALETTE_LEN,
        toks.len() == 2,
        toks[0] == "edge"@,
        toks[1] == dec(i as nat),
    ensures
        simple_command(toks) == Some(Command::Edge(Some(i))),
        next_edge(Command::Edge(Some(i)), edge) == Some(i),
        state_text(next_edge(Command::Edge(Some(i)), edge), fill, size) == "edge:"@ + dec(i as nat) + " fill:"@
            + index_text(fill) + " size:"@ + dec(size as nat),
{
    lemma_dec_parse(i as nat);
    lemma_keywords_differ();
    reveal_strlit("none");
    assert(dec(i as nat) != "none"@) by {
        lemma_dec_digits(i as nat);
        if dec(i as nat) == "none"@ {
            assert(is_digit(dec(i as nat)[0]));
        }
    }
}

/// Whether no point of a list command carries its own color.
pub open spec fn no_point_colors(cmd: Command) -> bool {
    match cmd {
        Command::Polyline(v) => forall|k: int| 0 <= k < v@.len() ==> (#[trigger] v@[k]).color.is_none(),
        Command::Points(v) => forall|k: int| 0 <= k < v@.len() ==> (#[trigger] v@[k]).color.is_none(),
        _ => true,
    }
}

proof fn lemma_polyline_transparent(b: Seq<u32>, pts: Seq<AttributedPoint>, size: usize, n: int)
    requires
        n <= pts.len(),
        forall|k: int| 0 <= k < pts.len() ==> (#[trigger] pts[k]).color.is_none(),
    ensures
        polyline_drawn(b, pts, None, size, n) == b,
    decreases n,
{
    if n > 1 {
        lemma_polyline_transparent(b, pts, size, n - 1);
        assert(pts[n - 1].color.is_none());
    }
}

proof fn lemma_points_transparent(b: Seq<u32>, pts: Seq<AttributedPoint>, size: usize, n: int)
    requires
        n <= pts.len(),
        forall|k: int| 0 <= k < pts.len() ==> (#[trigger] pts[k]).color.is_none(),
    ensures
        points_drawn(b, pts, None, size, n) == b,
    decreases n,
{
    if n > 0 {
        lemma_points_transparent(b, pts, size, n - 1);
        assert(pts[n - 1].color.is_none());
    }
}

/// With a transparent edge and no fill, a drawing command whose points carry
/// no colors of their own leaves the framebuffer as it was.
pub proof fn law_transparent_draws_nothing(cmd: Command, b: Seq<u32>, size: usize)
    requires
        no_point_colors(cmd),
        !(cmd is Clear),
    ensures
        drawn(cmd, b, None, None, size) == b,
{
    match cmd {
        Command::Polyline(v) => lemma_polyline_transparent(b, v@, size, v@.len() as int),
        Command::Points(v) => lemma_points_transparent(b, v@, size, v@.len() as int),
        _ => {},
    }
}

/// `size s` is accepted exactly when `s` lies in the brush range, and running it
/// sets the brush size to `s`; a rejected line runs nothing.
pub proof fn law_size_range(toks: Seq<Seq<char>>, s: usize, size: usize)
    requires
        toks.len() == 2,
        toks[0] == "size"@,
        parse_num(toks[1]) == Some(s),
    ensures
        (simple_command(toks) == Some(Command::Size(s))) <==> (MIN_BRUSH_SIZE <= s <= MAX_BRUSH_SIZE),
        !(MIN_BRUSH_SIZE <= s <= MAX_BRUSH_SIZE) ==> simple_command(toks).is_none(),
        next_size(Command::Size(s), size) == s,
{
    lemma_keywords_differ();
}

/// The keywords of the command language are distinct.
proof fn lemma_keywords_differ()
    ensures
        "size"@ != "snapshot"@,
        "size"@ != "clear"@,
        "size"@ != "state"@,
        "size"@ != "color"@,
        "size"@ != "edge"@,
        "size"@ != "fill"@,
        "edge"@ != "snapshot"@,
        "edge"@ != "clear"@,
        "edge"@ != "state"@,
        "edge"@ != "color"@,
        "edge"@ != "fill"@,
{
    reveal_strlit("size");
    reveal_strlit("snapshot");
    reveal_strlit("clear");
    reveal_strlit("state");
    reveal_strlit("color");
    reveal_strlit("edge");
    reveal_strlit("fill");
    assert("size"@[0] != "snapshot"@[1]);
    assert("size"@.len() != "snapshot"@.len());
    assert("size"@[0] != "edge"@[0]);
    assert("size"@[0] != "fill"@[0]);
    assert("edge"@[0] != "fill"@[0]);
    assert("size"@.len() != "clear"@.len());
    assert("size"@.len() != "state"@.len());
    assert("size"@.len() != "color"@.len());
    assert("edge"@.len() != "snapshot"@.len());
    assert("edge"@.len() != "clear"@.len());
    assert("edge"@.len() != "state"@.len());
    assert("edge"@.len() != "color"@.len());
}

/// After `clear`, every drawable pixel is white, whatever was drawn before (a
/// circle included).
pub proof fn law_clear_restores(cmd: Command, b: Seq<u32>, edge: Option<usize>, fill: Option<usize>, size: usize, x: int, y: int)
    requires
        b.len() >= FRAME_LEN,
        on_canvas(x, y),
    ensures
        at(drawn(Command::Clear, drawn(cmd, b, edge, fill, size), edge, fill, size), x, y) == WHITE,
{
    lemma_pix(x, y);
    lemma_pix_bound(x, y);
    lemma_drawn_len(cmd, b, edge, fill, size);
}

proof fn lemma_polyline_len(b: Seq<u32>, pts: Seq<AttributedPoint>, edge: Option<usize>, size: usize, n: int)
    ensures
        polyline_drawn(b, pts, edge, size, n).len() == b.len(),
    decreases n,
{
    if n > 1 {
        lemma_polyline_len(b, pts, edge, size, n - 1);
    }
}

proof fn lemma_points_len(b: Seq<u32>, pts: Seq<AttributedPoint>, edge: Option<usize>, size: usize, n: int)
    ensures
        points_drawn(b, pts, edge, size, n).len() == b.len(),
    decreases n,
{
    if n > 0 {
        lemma_points_len(b, pts, edge, size, n - 1);
    }
}

/// Drawing keeps the framebuffer's size.
pub proof fn lemma_drawn_len(cmd: Command, b: Seq<u32>, edge: Option<usize>, fill: Option<usize>, size: usize)
    ensures
        drawn(cmd, b, edge, fill, size).len() == b.len(),
{
    match cmd {
        Command::Polyline(v) => lemma_polyline_len(b, v@, edge, size, v@.len() as int),
        Command::Points(v) => lemma_points_len(b, v@, edge, size, v@.len() as int),
        _ => {},
    }
}

/// A brush stroke covers its starting point.
pub proof fn lemma_stroke_start(x0: int, y0: int, x1: int, y1: int, size: int)
    ensures
        on_stroke(x0, y0, x1, y1, size, x0, y0),
{
    let p = line_path(x0, y0, x1, y1);
    let a = if x0 < x1 { x1 - x0 } else { x0 - x1 };
    let b = if y0 < y1 { y1 - y0 } else { y0 - y1 };
    assert(line_steps(a, b, 0, 0)[0] == (0int, 0int));
    assert(p[0] == (x0, y0));
    assert(stamp_radius(size) * stamp_radius(size) >= 0) by (nonlinear_arith);
    assert(in_stamp(p[0].0, p[0].1, size, x0, y0));
}

/// `rect`: each corner of the box that lies in the drawable region takes the edge
/// color; the box's center takes the fill color, or keeps its color without a
/// fill, unless the outline covers it.
pub proof fn law_rect_corners_and_center(
    b: Seq<u32>,
    x1: usize,
    y1: usize,
    x2: usize,
    y2: usize,
    edge: Option<usize>,
    fill: Option<usize>,
    size: usize,
)
    requires
        b.len() >= FRAME_LEN,
    ensures
        ({
            let out = drawn(Command::Rect { x1, y1, x2, y2 }, b, edge, fill, size);
            let l = lo(x1 as int, x2 as int);
            let t = lo(y1 as int, y2 as int);
            let r = hi(x1 as int, x2 as int);
            let bt = hi(y1 as int, y2 as int);
            let cx = (l + r) / 2;
            let cy = (t + bt) / 2;
            &&& edge.is_some() ==> (forall|x: int, y: int|
                on_canvas(x, y) && (x == l || x == r) && (y == t || y == bt) ==> #[trigger] at(out, x, y) == palette(
                    edge.unwrap() as int,
                ))
            &&& on_canvas(cx, cy) && !on_outline(ToolMode::Rectangle, x1 as int, y1 as int, x2 as int, y2 as int, size as int, cx, cy)
                ==> at(out, cx, cy) == match fill {
                Some(f) => palette(f as int),
                None => at(b, cx, cy),
            }
        }),
{
    let l = lo(x1 as int, x2 as int);
    let t = lo(y1 as int, y2 as int);
    let r = hi(x1 as int, x2 as int);
    let bt = hi(y1 as int, y2 as int);
    let s = size as int;
    lemma_stroke_start(l, t, r, t, s);
    lemma_stroke_start(r, t, r, bt, s);
    lemma_stroke_start(r, bt, l, bt, s);
    lemma_stroke_start(l, bt, l, t, s);
    let out = drawn(Command::Rect { x1, y1, x2, y2 }, b, edge, fill, size);
    assert forall|x: int, y: int| on_canvas(x, y) implies #[trigger] at(out, x, y) == at(out, x, y) by {
        lemma_pix(x, y);
        lemma_pix_bound(x, y);
    }
    if edge.is_some() {
        assert forall|x: int, y: int|
            on_canvas(x, y) && (x == l || x == r) && (y == t || y == bt) implies #[trigger] at(out, x, y) == palette(edge.unwrap() as int) by {
            lemma_pix(x, y);
            lemma_pix_bound(x, y);
            assert(on_box_outline(l, t, r, bt, s, x, y));
        }
    }
    let cx = (l + r) / 2;
    let cy = (t + bt) / 2;
    if on_canvas(cx, cy) {
        lemma_pix(cx, cy);
        lemma_pix_bound(cx, cy);
    }
}

/// `points x,y:c:s`: every drawable pixel of the stamp of width `s` at `(x, y)`
/// takes palette color `c`, whatever the edge color, fill and brush size.
pub proof fn law_point_own_color(b: Seq<u32>, v: Vec<AttributedPoint>, edge: Option<usize>, fill: Option<usize>, size: usize)
    requires
        b.len() >= FRAME_LEN,
        v@.len() == 1,
        v@[0].color.is_some(),
        v@[0].size.is_some(),
    ensures
        forall|x: int, y: int|
            on_canvas(x, y) && in_stamp(v@[0].x as int, v@[0].y as int, v@[0].size.unwrap() as int, x, y) ==> #[trigger] at(
                drawn(Command::Points(v), b, edge, fill, size),
                x,
                y,
            ) == palette(v@[0].color.unwrap() as int),
{
    assert forall|x: int, y: int|
        on_canvas(x, y) && in_stamp(v@[0].x as int, v@[0].y as int, v@[0].size.unwrap() as int, x, y) implies #[trigger] at(
            drawn(Command::Points(v), b, edge, fill, size),
            x,
            y,
        ) == palette(v@[0].color.unwrap() as int) by {
        lemma_pix(x, y);
        lemma_pix_bound(x, y);
        assert(points_drawn(b, v@, edge, size, 0) == b);
    }
}

/// `polyline p0 p1 p2`: a pixel of segment `p1 -> p2` takes the color of `p2`
/// (its own, else the edge color); a pixel of segment `p0 -> p1` that the second
/// segment does not cover takes the color of `p1`.
pub proof fn law_polyline_segment_colors(b: Seq<u32>, v: Vec<AttributedPoint>, edge: Option<usize>, fill: Option<usize>, size: usize, x: int, y: int)
    requires
        b.len() >= FRAME_LEN,
        v@.len() == 3,
        on_canvas(x, y),
    ensures
        ({
            let out = drawn(Command::Polyline(v), b, edge, fill, size);
            let p0 = v@[0];
            let p1 = v@[1];
            let p2 = v@[2];
            let second = on_stroke(p1.x as int, p1.y as int, p2.x as int, p2.y as int, point_size(p2, size) as int, x, y);
            let first = on_stroke(p0.x as int, p0.y as int, p1.x as int, p1.y as int, point_size(p1, size) as int, x, y);
            &&& (second && point_color(p2, edge).is_some()) ==> at(out, x, y) == palette(point_color(p2, edge).unwrap() as int)
            &&& (first && !second && point_color(p1, edge).is_some()) ==> at(out, x, y) == palette(point_color(p1, edge).unwrap() as int)
        }),
{
    lemma_pix(x, y);
    lemma_pix_bound(x, y);
    lemma_polyline_len(b, v@, edge, size, 1);
    lemma_polyline_len(b, v@, edge, size, 2);
    assert(polyline_drawn(b, v@, edge, size, 1) == b);
}

/// Whether `k` names a command.
pub open spec fn is_keyword(k: Seq<char>) -> bool {
    k == "snapshot"@ || k == "clear"@ || k == "state"@ || k == "color"@ || k == "edge"@ || k == "fill"@ || k
        == "size"@ || k == "stroke"@ || k == "dot"@ || k == "line"@ || k == "square"@ || k == "rect"@ || k
        == "circle"@ || k == "oval"@ || k == "triangle"@ || k == "polyline"@ || k == "points"@
}

proof fn lemma_attr_points_len(ts: Seq<Seq<char>>)
    ensures
        attr_points(ts) matches Some(ps) ==> ps.len() == ts.len(),
    decreases ts.len(),
{
    if ts.len() > 0 {
        lemma_attr_points_len(ts.drop_last());
    }
}

/// Parsing is total and all-or-nothing: an empty line, an unknown command name,
/// a `stroke` without exactly two well-formed points, a `polyline` with fewer than two
/// points and a `points` without one all parse to nothing. (Parsing takes no
/// framebuffer, so a rejected line changes none.)
pub proof fn law_parse_rejects(s: Seq<char>, r: Option<Command>)
    requires
        parsed(s, r),
    ensures
        ws_tokens(s).len() == 0 ==> r.is_none(),
        ws_tokens(s).len() > 0 && !is_keyword(ws_tokens(s)[0]) ==> r.is_none(),
        ws_tokens(s).len() > 0 && ws_tokens(s)[0] == "stroke"@ && (ws_tokens(s).len() != 3 || coord_pair(
            ws_tokens(s)[1],
        ).is_none() || coord_pair(ws_tokens(s)[2]).is_none()) ==> r.is_none(),
        ws_tokens(s).len() > 0 && ws_tokens(s)[0] == "polyline"@ && ws_tokens(s).len() < 3 ==> r.is_none(),
        ws_tokens(s).len() > 0 && ws_tokens(s)[0] == "points"@ && ws_tokens(s).len() < 2 ==> r.is_none(),
{
    let toks = ws_tokens(s);
    reveal_strlit("snapshot");
    reveal_strlit("clear");
    reveal_strlit("state");
    reveal_strlit("color");
    reveal_strlit("edge");
    reveal_strlit("fill");
    reveal_strlit("size");
    reveal_strlit("stroke");
    reveal_strlit("dot");
    reveal_strlit("polyline");
    reveal_strlit("points");
    if toks.len() > 0 {
        lemma_attr_points_len(toks.drop_first());
        if toks[0] == "stroke"@ {
            assert(toks[0].len() == 6);
        }
        if toks[0] == "polyline"@ {
            assert(toks[0].len() == 8);
        }
        if toks[0] == "points"@ {
            assert(toks[0].len() == 6 && toks[0][2] == 'i');
            assert("polyline"@[2] == 'l');
        }
    }
}

/// Number of offsets `(dx, dy)` in `[-19, 19]^2`, taken in row order up to the
/// `k`-th, that a brush of width `size` covers.
pub open spec fn stamp_count_upto(size: int, k: nat) -> nat
    decreases k,
{
    if k == 0 {
        0
    } else {
        stamp_count_upto(size, (k - 1) as nat) + if in_stamp(
            0,
            0,
            size,
            ((k - 1) as int) % 39 - 19,
            ((k - 1) as int) / 39 - 19,
        ) {
            1nat
        } else {
            0nat
        }
    }
}

/// Number of pixels that a stamp of width `size` covers; for widths up to
/// `MAX_BRUSH_SIZE` the whole stamp lies in the counted square.
pub open spec fn stamp_count(size: int) -> nat {
    stamp_count_upto(size, 39 * 39)
}

proof fn lemma_stamp_grows(size: int, x: int, y: int)
    requires
        size >= 1,
        in_stamp(0, 0, size, x, y),
    ensures
        in_stamp(0, 0, size + 1, x, y),
{
    assert(stamp_radius(size) * stamp_radius(size) <= stamp_radius(size + 1) * stamp_radius(size + 1)) by (nonlinear_arith)
        requires
            stamp_radius(size) == size - 1,
            stamp_radius(size + 1) == size,
            size >= 1,
    ;
}

proof fn lemma_count_mono(size: int, k: nat, k0: nat)
    requires
        1 <= size,
        k0 < k,
        in_stamp(0, 0, size + 1, (k0 as int) % 39 - 19, (k0 as int) / 39 - 19),
        !in_stamp(0, 0, size, (k0 as int) % 39 - 19, (k0 as int) / 39 - 19),
    ensures
        stamp_count_upto(size, k) < stamp_count_upto(size + 1, k),
    decreases k,
{
    if k - 1 > k0 {
        lemma_count_mono(size, (k - 1) as nat, k0);
    } else {
        lemma_count_le(size, (k - 1) as nat);
    }
    let x = ((k - 1) as int) % 39 - 19;
    let y = ((k - 1) as int) / 39 - 19;
    if in_stamp(0, 0, size, x, y) {
        lemma_stamp_grows(size, x, y);
    }
}

proof fn lemma_count_le(size: int, k: nat)
    requires
        1 <= size,
    ensures
        stamp_count_upto(size, k) <= stamp_count_upto(size + 1, k),
    decreases k,
{
    if k > 0 {
        lemma_count_le(size, (k - 1) as nat);
        let x = ((k - 1) as int) % 39 - 19;
        let y = ((k - 1) as int) / 39 - 19;
        if in_stamp(0, 0, size, x, y) {
            lemma_stamp_grows(size, x, y);
        }
    }
}

proof fn lemma_unit_count(k: nat)
    ensures
        stamp_count_upto(1, k) == if k > 19 * 39 + 19 { 1nat } else { 0nat },
    decreases k,
{
    if k > 0 {
        lemma_unit_count((k - 1) as nat);
        let j = (k - 1) as int;
        let x = j % 39 - 19;
        let y = j / 39 - 19;
        lemma_unit_stamp(0, 0, x, y);
        if x == 0 && y == 0 {
            assert(j == 19 * 39 + 19);
        }
        if j == 19 * 39 + 19 {
            assert(x == 0 && y == 0);
        }
    }
}

/// The number of pixels a brush stamp covers grows strictly with the width over
/// the brush range, and a width of 1 covers exactly one pixel.
pub proof fn law_stamp_count(size: int)
    requires
        MIN_BRUSH_SIZE <= size < MAX_BRUSH_SIZE,
    ensures
        stamp_count(size) < stamp_count(size + 1),
        stamp_count(1) == 1,
        forall|x: int, y: int| #[trigger] in_stamp(0, 0, 1, x, y) <==> (x == 0 && y == 0),
{
    let k0 = (19 * 39 + 19 + size) as nat;
    assert((k0 as int) % 39 - 19 == size && (k0 as int) / 39 - 19 == 0);
    assert(in_stamp(0, 0, size + 1, size, 0)) by {
        assert(stamp_radius(size + 1) == size);
    }
    assert(!in_stamp(0, 0, size, size, 0)) by {
        assert(size * size > (size - 1) * (size - 1)) by (nonlinear_arith)
            requires
                size >= 1,
        ;
    }
    lemma_count_mono(size, 39 * 39, k0);
    lemma_unit_count(39 * 39);
    assert forall|x: int, y: int| #[trigger] in_stamp(0, 0, 1, x, y) <==> (x == 0 && y == 0) by {
        lemma_unit_stamp(0, 0, x, y);
    }
}

proof fn lemma_steps_in_box(a: int, b: int, i: int, j: int, k: int)
    requires
        0 <= i <= a,
        0 <= j <= b,
        0 <= k < line_steps(a, b, i, j).len(),
    ensures
        i <= line_steps(a, b, i, j)[k].0 <= a,
        j <= line_steps(a, b, i, j)[k].1 <= b,
    decreases (a - i) + (b - j),
{
    if k > 0 && !(i == a && j == b) {
        let e = crate::raster::line_err(a, b, i, j);
        let ni = if 2 * e >= -b { i + 1 } else { i };
        let nj = if 2 * e <= a { j + 1 } else { j };
        if ni <= a && nj <= b && ni + nj > i + j {
            lemma_steps_in_box(a, b, ni, nj, k - 1);
        }
    }
}

/// Every point of a Bresenham line lies in the box that its end points span.
pub proof fn lemma_path_in_box(x0: int, y0: int, x1: int, y1: int, k: int)
    requires
        0 <= k < line_path(x0, y0, x1, y1).len(),
    ensures
        lo(x0, x1) <= line_path(x0, y0, x1, y1)[k].0 <= hi(x0, x1),
        lo(y0, y1) <= line_path(x0, y0, x1, y1)[k].1 <= hi(y0, y1),
{
    let a = if x0 < x1 { x1 - x0 } else { x0 - x1 };
    let b = if y0 < y1 { y1 - y0 } else { y0 - y1 };
    lemma_steps_in_box(a, b, 0, 0, k);
}

proof fn lemma_far_from_stroke(x0: int, y0: int, x1: int, y1: int, size: int, x: int, y: int)
    requires
        (y0 == y1 && (y - y0 > stamp_radius(size) || y0 - y > stamp_radius(size))) || (x0 == x1 && (x - x0
            > stamp_radius(size) || x0 - x > stamp_radius(size))),
    ensures
        !on_stroke(x0, y0, x1, y1, size, x, y),
{
    let p = line_path(x0, y0, x1, y1);
    let r = stamp_radius(size);
    if on_stroke(x0, y0, x1, y1, size, x, y) {
        let m = choose|m: int| 0 <= m < p.len() && #[trigger] in_stamp(p[m].0, p[m].1, size, x, y);
        lemma_path_in_box(x0, y0, x1, y1, m);
        let dx = x - p[m].0;
        let dy = y - p[m].1;
        assert(dx * dx >= 0 && dy * dy >= 0) by (nonlinear_arith);
        if y0 == y1 && (y - y0 > r || y0 - y > r) {
            assert(dy > r || -dy > r);
            assert(dy * dy > r * r) by (nonlinear_arith)
                requires
                    dy > r || -dy > r,
                    r >= 0,
            ;
        } else {
            assert(dx > r || -dx > r);
            assert(dx * dx > r * r) by (nonlinear_arith)
                requires
                    dx > r || -dx > r,
                    r >= 0,
            ;
        }
    }
}

/// `rect`: a point farther than the brush radius from all four sides of the box
/// is not covered by the outline; in particular the center of a box whose sides
/// lie that far from it keeps its fill color, or its old color without a fill.
pub proof fn law_rect_center_clear(x1: usize, y1: usize, x2: usize, y2: usize, size: usize, x: int, y: int)
    requires
        x - lo(x1 as int, x2 as int) > stamp_radius(size as int),
        hi(x1 as int, x2 as int) - x > stamp_radius(size as int),
        y - lo(y1 as int, y2 as int) > stamp_radius(size as int),
        hi(y1 as int, y2 as int) - y > stamp_radius(size as int),
    ensures
        !on_outline(ToolMode::Rectangle, x1 as int, y1 as int, x2 as int, y2 as int, size as int, x, y),
{
    let l = lo(x1 as int, x2 as int);
    let t = lo(y1 as int, y2 as int);
    let r = hi(x1 as int, x2 as int);
    let b = hi(y1 as int, y2 as int);
    let s = size as int;
    lemma_far_from_stroke(l, t, r, t, s, x, y);
    lemma_far_from_stroke(r, t, r, b, s, x, y);
    lemma_far_from_stroke(r, b, l, b, s, x, y);
    lemma_far_from_stroke(l, b, l, t, s, x, y);
}

/// `edge t`: `t` is `none` for a transparent edge, else a palette index below
/// `PALETTE_LEN`; anything else rejects the line.
pub proof fn law_edge_token(toks: Seq<Seq<char>>)
    requires
        toks.len() == 2,
        toks[0] == "edge"@,
    ensures
        simple_command(toks) == if toks[1] == "none"@ {
            Some(Command::Edge(None))
        } else {
            match color_index(toks[1]) {
                Some(i) => Some(Command::Edge(Some(i))),
                None => None,
            }
        },
{
    lemma_keywords_differ();
}

/// `rect` with a transparent or colored fill: when both sides of the box are at
/// least twice the brush size, the box's center keeps its old color without a
/// fill and takes the fill color with one.
pub proof fn law_rect_center(
    b: Seq<u32>,
    x1: usize,
    y1: usize,
    x2: usize,
    y2: usize,
    edge: Option<usize>,
    fill: Option<usize>,
    size: usize,
)
    requires
        b.len() >= FRAME_LEN,
        size >= 1,
        hi(x1 as int, x2 as int) - lo(x1 as int, x2 as int) >= 2 * size,
        hi(y1 as int, y2 as int) - lo(y1 as int, y2 as int) >= 2 * size,
        on_canvas((lo(x1 as int, x2 as int) + hi(x1 as int, x2 as int)) / 2, (lo(y1 as int, y2 as int) + hi(
            y1 as int,
            y2 as int,
        )) / 2),
    ensures
        at(
            drawn(Command::Rect { x1, y1, x2, y2 }, b, edge, fill, size),
            (lo(x1 as int, x2 as int) + hi(x1 as int, x2 as int)) / 2,
            (lo(y1 as int, y2 as int) + hi(y1 as int, y2 as int)) / 2,
        ) == match fill {
            Some(f) => palette(f as int),
            None => at(
                b,
                (lo(x1 as int, x2 as int) + hi(x1 as int, x2 as int)) / 2,
                (lo(y1 as int, y2 as int) + hi(y1 as int, y2 as int)) / 2,
            ),
        },
{
    let cx = (lo(x1 as int, x2 as int) + hi(x1 as int, x2 as int)) / 2;
    let cy = (lo(y1 as int, y2 as int) + hi(y1 as int, y2 as int)) / 2;
    law_rect_center_clear(x1, y1, x2, y2, size, cx, cy);
    law_rect_corners_and_center(b, x1, y1, x2, y2, edge, fill, size);
}

} // verus!
