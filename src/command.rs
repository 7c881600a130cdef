//! The command language: its model, the parser from text lines, and the
//! interpreter that applies a command to the drawing state and framebuffer.
use vstd::prelude::*;

use crate::text::{is_word, parse_num, parse_usize, pieces, split_on, split_tokens, ws_tokens, chars_of};
use crate::{MAX_BRUSH_SIZE, MIN_BRUSH_SIZE};

verus! {

/// Number of palette entries.
pub const PALETTE_LEN: usize = 14;

/// A point with optional color and size overrides.
#[derive(Debug, Clone, Copy, PartialEq, Eq)]
pub struct AttributedPoint {
    pub x: usize,
    pub y: usize,
    /// Palette index; `None` uses the current edge color.
    pub color: Option<usize>,
    /// Brush width; `None` uses the current brush size.
    pub size: Option<usize>,
}

/// One instruction of the command language.
#[derive(Debug, Clone, PartialEq)]
pub enum Command {
    Snapshot,
    /// Sets the edge color (older spelling of `Edge`).
    Color(usize),
    /// Sets the edge color; `None` is transparent.
    Edge(Option<usize>),
    /// Sets the fill color; `None` is transparent.
    Fill(Option<usize>),
    Size(usize),
    Stroke { x1: usize, y1: usize, x2: usize, y2: usize },
    Dot { x: usize, y: usize },
    Clear,
    State,
    Line { x1: usize, y1: usize, x2: usize, y2: usize },
    Square { x: usize, y: usize, size: usize },
    Rect { x1: usize, y1: usize, x2: usize, y2: usize },
    Circle { x: usize, y: usize, r: usize },
    Oval { x: usize, y: usize, rx: usize, ry: usize },
    Triangle { x1: usize, y1: usize, x2: usize, y2: usize },
    /// Connected segments; each takes its attributes from its end point.
    Polyline(Vec<AttributedPoint>),
    /// Separate dots, each with its own attributes.
    Points(Vec<AttributedPoint>),
}

/// `s` moved into `[MIN_BRUSH_SIZE, MAX_BRUSH_SIZE]`.
pub open spec fn clamp_size(s: usize) -> usize {
    if s < MIN_BRUSH_SIZE {
        MIN_BRUSH_SIZE
    } else if s > MAX_BRUSH_SIZE {
        MAX_BRUSH_SIZE
    } else {
        s
    }
}

/// A palette index given as text.
pub open spec fn color_index(t: Seq<char>) -> Option<usize> {
    match parse_num(t) {
        Some(c) => if c < PALETTE_LEN {
            Some(c)
        } else {
            None
        },
        None => None,
    }
}

/// `x,y` read as a pair of numbers.
pub open spec fn coord_pair(t: Seq<char>) -> Option<(usize, usize)> {
    let c = pieces(t, ',');
    if c.len() == 2 {
        match (parse_num(c[0]), parse_num(c[1])) {
            (Some(x), Some(y)) => Some((x, y)),
            _ => None,
        }
    } else {
        None
    }
}

/// `x,y[:color[:size]]` read as an attributed point: at most three `:` pieces,
/// a color index below `PALETTE_LEN`, and a size that is clamped into the brush
/// range.
pub open spec fn attr_point(t: Seq<char>) -> Option<AttributedPoint> {
    let parts = pieces(t, ':');
    let color: Option<Option<usize>> = if parts.len() >= 2 {
        match color_index(parts[1]) {
            Some(c) => Some(Some(c)),
            None => None,
        }
    } else {
        Some(None)
    };
    let size: Option<Option<usize>> = if parts.len() >= 3 {
        match parse_num(parts[2]) {
            Some(s) => Some(Some(clamp_size(s))),
            None => None,
        }
    } else {
        Some(None)
    };
    if parts.len() > 3 {
        None
    } else {
        match (coord_pair(parts[0]), color, size) {
            (Some(p), Some(c), Some(s)) => Some(AttributedPoint { x: p.0, y: p.1, color: c, size: s }),
            _ => None,
        }
    }
}

/// Every token read as an attributed point, or `None` if one is malformed.
pub open spec fn attr_points(ts: Seq<Seq<char>>) -> Option<Seq<AttributedPoint>>
    decreases ts.len(),
{
    if ts.len() == 0 {
        Some(seq![])
    } else {
        match (attr_points(ts.drop_last()), attr_point(ts.last())) {
            (Some(ps), Some(p)) => Some(ps.push(p)),
            _ => None,
        }
    }
}

/// The command that the tokens `toks` spell, for every keyword but the two
/// that take point lists: each keyword takes a fixed number of arguments.
pub open spec fn simple_command(toks: Seq<Seq<char>>) -> Option<Command> {
    if toks.len() == 0 {
        None
    } else {
        let k = toks[0];
        let n = toks.len();
        if k == "snapshot"@ || k == "clear"@ || k == "state"@ {
            if n == 1 {
                if k == "snapshot"@ {
                    Some(Command::Snapshot)
                } else if k == "clear"@ {
                    Some(Command::Clear)
                } else {
                    Some(Command::State)
                }
            } else {
                None
            }
        } else if k == "color"@ {
            if n == 2 {
                match color_index(toks[1]) {
                    Some(i) => Some(Command::Color(i)),
                    None => None,
                }
            } else {
                None
            }
        } else if k == "edge"@ || k == "fill"@ {
            if n == 2 {
                let v: Option<Option<usize>> = if toks[1] == "none"@ {
                    Some(None)
                } else {
                    match color_index(toks[1]) {
                        Some(i) => Some(Some(i)),
                        None => None,
                    }
                };
                match v {
                    Some(c) => if k == "edge"@ {
                        Some(Command::Edge(c))
                    } else {
                        Some(Command::Fill(c))
                    },
                    None => None,
                }
            } else {
                None
            }
        } else if k == "size"@ {
            if n == 2 {
                match parse_num(toks[1]) {
                    Some(s) => if MIN_BRUSH_SIZE <= s && s <= MAX_BRUSH_SIZE {
                        Some(Command::Size(s))
                    } else {
                        None
                    },
                    None => None,
                }
            } else {
                None
            }
        } else if k == "dot"@ {
            if n == 2 {
                match coord_pair(toks[1]) {
                    Some(p) => Some(Command::Dot { x: p.0, y: p.1 }),
                    None => None,
                }
            } else {
                None
            }
        } else if k == "stroke"@ || k == "line"@ || k == "rect"@ || k == "triangle"@ || k == "oval"@ {
            if n == 3 {
                match (coord_pair(toks[1]), coord_pair(toks[2])) {
                    (Some(p), Some(q)) => if k == "stroke"@ {
                        Some(Command::Stroke { x1: p.0, y1: p.1, x2: q.0, y2: q.1 })
                    } else if k == "line"@ {
                        Some(Command::Line { x1: p.0, y1: p.1, x2: q.0, y2: q.1 })
                    } else if k == "rect"@ {
                        Some(Command::Rect { x1: p.0, y1: p.1, x2: q.0, y2: q.1 })
                    } else if k == "triangle"@ {
                        Some(Command::Triangle { x1: p.0, y1: p.1, x2: q.0, y2: q.1 })
                    } else {
                        Some(Command::Oval { x: p.0, y: p.1, rx: q.0, ry: q.1 })
                    },
                    _ => None,
                }
            } else {
                None
            }
        } else if k == "square"@ || k == "circle"@ {
            if n == 3 {
                match (coord_pair(toks[1]), parse_num(toks[2])) {
                    (Some(p), Some(s)) => if k == "square"@ {
                        Some(Command::Square { x: p.0, y: p.1, size: s })
                    } else {
                        Some(Command::Circle { x: p.0, y: p.1, r: s })
                    },
                    _ => None,
                }
            } else {
                None
            }
        } else {
            None
        }
    }
}

/// Whether the tokens start with a keyword that takes a point list.
pub open spec fn is_list_keyword(toks: Seq<Seq<char>>) -> bool {
    toks.len() > 0 && (toks[0] == "polyline"@ || toks[0] == "points"@)
}

/// The points of a list command, when there are enough of them and all are well formed.
pub open spec fn list_points(toks: Seq<Seq<char>>) -> Option<Seq<AttributedPoint>> {
    let min: int = if toks[0] == "polyline"@ { 2 } else { 1 };
    match attr_points(toks.drop_first()) {
        Some(ps) => if ps.len() >= min {
            Some(ps)
        } else {
            None
        },
        None => None,
    }
}

/// Whether `r` is what parsing the line `s` gives: the command that the line's
/// whitespace-separated tokens spell, or `None` for a malformed or unknown line.
pub open spec fn parsed(s: Seq<char>, r: Option<Command>) -> bool {
    let toks = ws_tokens(s);
    if is_list_keyword(toks) {
        match list_points(toks) {
            Some(ps) => match r {
                Some(Command::Polyline(v)) => toks[0] == "polyline"@ && v@ == ps,
                Some(Command::Points(v)) => toks[0] == "points"@ && v@ == ps,
                _ => false,
            },
            None => r.is_none(),
        }
    } else {
        r == simple_command(toks)
    }
}

proof fn lemma_pieces_nonempty(s: Seq<char>, sep: char)
    ensures
        pieces(s, sep).len() >= 1,
    decreases s.len(),
{
    if s.len() > 0 {
        lemma_pieces_nonempty(s.drop_last(), sep);
    }
}

fn coords_of(t: &Vec<char>) -> (r: Option<(usize, usize)>)
    ensures
        r == coord_pair(t@),
{
    let c = split_on(t, ',');
    if c.len() != 2 {
        return None;
    }
    let x = parse_usize(&c[0]);
    let y = parse_usize(&c[1]);
    match (x, y) {
        (Some(x), Some(y)) => Some((x, y)),
        _ => None,
    }
}

fn color_of(t: &Vec<char>) -> (r: Option<usize>)
    ensures
        r == color_index(t@),
{
    match parse_usize(t) {
        Some(c) => if c < PALETTE_LEN {
            Some(c)
        } else {
            None
        },
        None => None,
    }
}

fn clamp_brush(s: usize) -> (r: usize)
    ensures
        r == clamp_size(s),
{
    if s < MIN_BRUSH_SIZE {
        MIN_BRUSH_SIZE
    } else if s > MAX_BRUSH_SIZE {
        MAX_BRUSH_SIZE
    } else {
        s
    }
}

fn point_of(t: &Vec<char>) -> (r: Option<AttributedPoint>)
    ensures
        r == attr_point(t@),
{
    let parts = split_on(t, ':');
    proof {
        lemma_pieces_nonempty(t@, ':');
    }
    if parts.len() > 3 {
        return None;
    }
    let p = coords_of(&parts[0]);
    let color: Option<Option<usize>> = if parts.len() >= 2 {
        match color_of(&parts[1]) {
            Some(c) => Some(Some(c)),
            None => None,
        }
    } else {
        Some(None)
    };
    let size: Option<Option<usize>> = if parts.len() >= 3 {
        match parse_usize(&parts[2]) {
            Some(s) => Some(Some(clamp_brush(s))),
            None => None,
        }
    } else {
        Some(None)
    };
    match (p, color, size) {
        (Some(p), Some(c), Some(s)) => Some(AttributedPoint { x: p.0, y: p.1, color: c, size: s }),
        _ => None,
    }
}

/// Parse a point with optional color and size attributes: `x,y`, `x,y:color`
/// or `x,y:color:size`.
pub fn parse_attributed_point(s: &str) -> (r: Option<AttributedPoint>)
    ensures
        r == attr_point(s@),
{
    let t = chars_of(s);
    point_of(&t)
}

/// Parse the tokens `toks[from..]` as attributed points.
fn points_from(toks: &Vec<Vec<char>>, from: usize) -> (r: Option<Vec<AttributedPoint>>)
    requires
        from <= toks@.len(),
    ensures
        match r {
            Some(v) => attr_points(toks@.skip(from as int).map_values(|t: Vec<char>| t@)) == Some(v@),
            None => attr_points(toks@.skip(from as int).map_values(|t: Vec<char>| t@)).is_none(),
        },
{
    let ghost ts = toks@.skip(from as int).map_values(|t: Vec<char>| t@);
    let mut out: Vec<AttributedPoint> = Vec::new();
    let mut i: usize = from;
    proof {
        assert(ts.take(0) =~= Seq::<Seq<char>>::empty());
    }
    while i < toks.len()
        invariant
            from <= i <= toks@.len(),
            ts == toks@.skip(from as int).map_values(|t: Vec<char>| t@),
            attr_points(ts.take(i - from)) == Some(out@),
        decreases toks@.len() - i,
    {
        let p = point_of(&toks[i]);
        proof {
            assert(ts.take(i - from + 1).drop_last() =~= ts.take(i - from));
            assert(ts.take(i - from + 1).last() == toks@[i as int]@);
        }
        match p {
            Some(p) => {
                out.push(p);
            },
            None => {
                proof {
                    lemma_attr_points_prefix(ts, i - from + 1);
                }
                return None;
            },
        }
        i = i + 1;
    }
    proof {
        assert(ts.take(i - from) =~= ts);
    }
    Some(out)
}

/// A malformed point makes every longer list malformed.
proof fn lemma_attr_points_prefix(ts: Seq<Seq<char>>, k: int)
    requires
        0 <= k <= ts.len(),
        attr_points(ts.take(k)).is_none(),
    ensures
        attr_points(ts).is_none(),
    decreases ts.len(),
{
    if k < ts.len() {
        assert(ts.drop_last().take(k) =~= ts.take(k));
        lemma_attr_points_prefix(ts.drop_last(), k);
    } else {
        assert(ts.take(k) =~= ts);
    }
}

/// Parse a space-separated list of attributed points.
pub fn parse_attributed_list(args: &str) -> (r: Option<Vec<AttributedPoint>>)
    ensures
        match r {
            Some(v) => attr_points(ws_tokens(args@)) == Some(v@),
            None => attr_points(ws_tokens(args@)).is_none(),
        },
{
    let t = chars_of(args);
    let toks = split_tokens(&t);
    proof {
        assert(toks@.skip(0).map_values(|t: Vec<char>| t@) =~= ws_tokens(args@));
    }
    points_from(&toks, 0)
}

/// Parse a command line: the first whitespace-separated token names the
/// command, and a malformed argument, an out-of-range color or size, a missing
/// or extra argument, too few points or an unknown name gives `None`.
pub fn parse_command(input: &str) -> (r: Option<Command>)
    ensures
        parsed(input@, r),
{
    let chars = chars_of(input);
    let toks = split_tokens(&chars);
    let ghost wt = ws_tokens(input@);
    if toks.len() == 0 {
        return None;
    }
    let n = toks.len();
    let k = &toks[0];
    proof {
        assert(k@ == wt[0]);
    }
    if is_word(k, "polyline") || is_word(k, "points") {
        let poly = is_word(k, "polyline");
        proof {
            assert(toks@.skip(1).map_values(|t: Vec<char>| t@) =~= wt.drop_first());
        }
        let pts = points_from(&toks, 1);
        return match pts {
            None => None,
            Some(v) => {
                if poly {
                    if v.len() >= 2 {
                        Some(Command::Polyline(v))
                    } else {
                        None
                    }
                } else {
                    if v.len() >= 1 {
                        Some(Command::Points(v))
                    } else {
                        None
                    }
                }
            },
        };
    }
    if is_word(k, "snapshot") || is_word(k, "clear") || is_word(k, "state") {
        if n == 1 {
            if is_word(k, "snapshot") {
                Some(Command::Snapshot)
            } else if is_word(k, "clear") {
                Some(Command::Clear)
            } else {
                Some(Command::State)
            }
        } else {
            None
        }
    } else if is_word(k, "color") {
        if n == 2 {
            proof {
                assert(toks@[1]@ == wt[1]);
            }
            match color_of(&toks[1]) {
                Some(i) => Some(Command::Color(i)),
                None => None,
            }
        } else {
            None
        }
    } else if is_word(k, "edge") || is_word(k, "fill") {
        if n == 2 {
            proof {
                assert(toks@[1]@ == wt[1]);
            }
            let v: Option<Option<usize>> = if is_word(&toks[1], "none") {
                Some(None)
            } else {
                match color_of(&toks[1]) {
                    Some(i) => Some(Some(i)),
                    None => None,
                }
            };
            match v {
                Some(c) => if is_word(k, "edge") {
                    Some(Command::Edge(c))
                } else {
                    Some(Command::Fill(c))
                },
                None => None,
            }
        } else {
            None
        }
    } else if is_word(k, "size") {
        if n == 2 {
            proof {
                assert(toks@[1]@ == wt[1]);
            }
            match parse_usize(&toks[1]) {
                Some(s) => if MIN_BRUSH_SIZE <= s && s <= MAX_BRUSH_SIZE {
                    Some(Command::Size(s))
                } else {
                    None
                },
                None => None,
            }
        } else {
            None
        }
    } else if is_word(k, "dot") {
        if n == 2 {
            proof {
                assert(toks@[1]@ == wt[1]);
            }
            match coords_of(&toks[1]) {
                Some(p) => Some(Command::Dot { x: p.0, y: p.1 }),
                None => None,
            }
        } else {
            None
        }
    } else if is_word(k, "stroke") || is_word(k, "line") || is_word(k, "rect") || is_word(k, "triangle")
        || is_word(k, "oval") {
        if n == 3 {
            proof {
                assert(toks@[1]@ == wt[1]);
                assert(toks@[2]@ == wt[2]);
            }
            match (coords_of(&toks[1]), coords_of(&toks[2])) {
                (Some(p), Some(q)) => if is_word(k, "stroke") {
                    Some(Command::Stroke { x1: p.0, y1: p.1, x2: q.0, y2: q.1 })
                } else if is_word(k, "line") {
                    Some(Command::Line { x1: p.0, y1: p.1, x2: q.0, y2: q.1 })
                } else if is_word(k, "rect") {
                    Some(Command::Rect { x1: p.0, y1: p.1, x2: q.0, y2: q.1 })
                } else if is_word(k, "triangle") {
                    Some(Command::Triangle { x1: p.0, y1: p.1, x2: q.0, y2: q.1 })
                } else {
                    Some(Command::Oval { x: p.0, y: p.1, rx: q.0, ry: q.1 })
                },
                _ => None,
            }
        } else {
            None
        }
    } else if is_word(k, "square") || is_word(k, "circle") {
        if n == 3 {
            proof {
                assert(toks@[1]@ == wt[1]);
                assert(toks@[2]@ == wt[2]);
            }
            match (coords_of(&toks[1]), parse_usize(&toks[2])) {
                (Some(p), Some(s)) => if is_word(k, "square") {
                    Some(Command::Square { x: p.0, y: p.1, size: s })
                } else {
                    Some(Command::Circle { x: p.0, y: p.1, r: s })
                },
                _ => None,
            }
        } else {
            None
        }
    } else {
        None
    }
}

} // verus!
