use displai::{
    canvas_rgb, command_runnable, draw_circle, draw_shape_circle, execute_command, fill_oval,
    fill_triangle, on_line, parse_attributed_point, parse_command, save_canvas_png, snapshot_reply, socket_reply,
    state_reply, AttributedPoint, Command, Connection, BLACK, CANVAS_BOTTOM, CANVAS_TOP,
    COLOR_PALETTE, HEIGHT, MAX_BRUSH_SIZE, MIN_BRUSH_SIZE, WHITE, WIDTH,
};

fn blank() -> Vec<u32> {
    vec![WHITE; WIDTH * HEIGHT]
}

struct State {
    buffer: Vec<u32>,
    edge: Option<usize>,
    fill: Option<usize>,
    size: usize,
}

impl State {
    fn new() -> State {
        State { buffer: blank(), edge: Some(0), fill: None, size: MIN_BRUSH_SIZE }
    }

    fn run(&mut self, line: &str) -> Option<Option<String>> {
        let cmd = parse_command(line)?;
        assert!(command_runnable(&cmd));
        Some(execute_command(&cmd, &mut self.buffer, &mut self.edge, &mut self.fill, &mut self.size))
    }

    fn px(&self, x: usize, y: usize) -> u32 {
        self.buffer[y * WIDTH + x]
    }
}

#[test]
fn edge_index_is_reported_by_state() {
    for i in 0..COLOR_PALETTE.len() {
        let mut s = State::new();
        assert_eq!(s.run(&format!("edge {}", i)), Some(None));
        assert_eq!(s.edge, Some(i));
        let reply = s.run("state").unwrap().unwrap();
        assert_eq!(reply, format!("edge:{} fill:none size:1", i));
    }
}

#[test]
fn transparent_edge_without_fill_draws_nothing() {
    let lines = [
        "stroke 10,40 200,300",
        "dot 100,100",
        "line 10,40 300,200",
        "square 50,50 80",
        "rect 20,40 300,400",
        "circle 200,200 50",
        "oval 300,300 60,30",
        "triangle 100,300 200,100",
        "polyline 10,40 100,100 200,50",
        "points 10,40 100,100:9:5",
    ];
    for line in lines.iter() {
        let mut s = State::new();
        s.run("edge none").unwrap();
        s.run("fill none").unwrap();
        s.run("size 7").unwrap();
        let before = s.buffer.clone();
        s.run(line).unwrap();
        if line.starts_with("points") {
            // the second point carries its own color
            assert_ne!(s.buffer, before);
        } else {
            assert_eq!(s.buffer, before, "{}", line);
        }
    }
}

#[test]
fn size_is_accepted_only_in_range() {
    for v in 0..30usize {
        let mut s = State::new();
        s.size = 5;
        let out = s.run(&format!("size {}", v));
        if (MIN_BRUSH_SIZE..=MAX_BRUSH_SIZE).contains(&v) {
            assert_eq!(out, Some(None));
            assert_eq!(s.size, v);
        } else {
            assert_eq!(out, None);
            assert_eq!(s.size, 5);
        }
    }
}

#[test]
fn circle_then_clear_restores_background() {
    let mut s = State::new();
    s.run("fill 3").unwrap();
    s.run("size 9").unwrap();
    s.run("circle 400,300 120").unwrap();
    assert_ne!(s.buffer, blank());
    s.run("clear").unwrap();
    for y in CANVAS_TOP..CANVAS_BOTTOM {
        for x in 0..WIDTH {
            assert_eq!(s.px(x, y), WHITE);
        }
    }
}

#[test]
fn rect_corners_take_edge_and_center_takes_fill() {
    let mut s = State::new();
    s.run("edge 2").unwrap();
    s.run("size 3").unwrap();
    s.run("rect 300,400 100,100").unwrap();
    for &(x, y) in [(100, 100), (300, 100), (100, 400), (300, 400)].iter() {
        assert_eq!(s.px(x, y), COLOR_PALETTE[2]);
    }
    assert_eq!(s.px(200, 250), WHITE);

    let mut t = State::new();
    t.run("edge 2").unwrap();
    t.run("fill 5").unwrap();
    t.run("rect 100,100 300,400").unwrap();
    assert_eq!(t.px(100, 100), COLOR_PALETTE[2]);
    assert_eq!(t.px(200, 250), COLOR_PALETTE[5]);
}

#[test]
fn point_uses_its_own_color_and_size() {
    let mut s = State::new();
    s.run("edge none").unwrap();
    s.run("size 20").unwrap();
    s.run("points 200,200:7:3").unwrap();
    for y in 195..=205usize {
        for x in 195..=205usize {
            let dx = x as i64 - 200;
            let dy = y as i64 - 200;
            let expect = if dx * dx + dy * dy <= 4 { COLOR_PALETTE[7] } else { WHITE };
            assert_eq!(s.px(x, y), expect, "({}, {})", x, y);
        }
    }
}

#[test]
fn polyline_segments_take_end_point_colors() {
    let mut s = State::new();
    s.run("edge 4").unwrap();
    s.run("polyline 100,100:2 200,100:3 200,200").unwrap();
    // first segment: attributes of its end point
    assert_eq!(s.px(150, 100), COLOR_PALETTE[3]);
    // second segment: no override, so the edge color
    assert_eq!(s.px(200, 150), COLOR_PALETTE[4]);
    // the start point's own color is never used
    assert!(!s.buffer.contains(&COLOR_PALETTE[2]));
}

#[test]
fn malformed_lines_parse_to_nothing() {
    let bad = [
        "",
        "   ",
        "bogus 1,2",
        "color",
        "color x",
        "color 14",
        "edge",
        "edge 99",
        "fill -1",
        "size",
        "size 0",
        "size 21",
        "size 1.5",
        "stroke 1,2",
        "stroke 1,2 3",
        "stroke 1,2 3,x",
        "dot",
        "dot 1",
        "dot 1,2,3",
        "line 1,2",
        "square 1,2",
        "square 1,2 z",
        "rect 1,2 3,",
        "circle 1,2",
        "oval 1,2 3",
        "triangle 1,2",
        "polyline 1,2",
        "polyline 1,2 3,4:14",
        "polyline 1,2 3,4:1:x",
        "points",
        "points 1,2:",
        "points 1,2 a,b",
        "dot 99999999999999999999999,5",
    ];
    for line in bad.iter() {
        assert_eq!(parse_command(line), None, "{}", line);
        let mut s = State::new();
        let before = s.buffer.clone();
        assert_eq!(s.run(line), None);
        assert_eq!(s.buffer, before);
    }
}

#[test]
fn parser_reads_numbers_like_usize_parse() {
    assert_eq!(parse_command("size +5"), Some(Command::Size(5)));
    assert_eq!(parse_command("  dot\t3,4  "), Some(Command::Dot { x: 3, y: 4 }));
    assert_eq!(parse_command("dot\u{3000}3,4"), Some(Command::Dot { x: 3, y: 4 }));
    assert_eq!(parse_command("color 2 extra"), None);
    assert_eq!(parse_command("snapshot now"), None);
    assert_eq!(parse_command("size 5 6"), None);
    assert_eq!(parse_command("stroke 1,2 3,4 5,6"), None);
    assert_eq!(
        parse_command(&format!("dot {},0", usize::MAX)),
        Some(Command::Dot { x: usize::MAX, y: 0 })
    );
    assert_eq!(parse_attributed_point("1,2:3:4:5"), None);
    assert_eq!(parse_command("points 1,2:3:4:5"), None);
    assert_eq!(
        parse_attributed_point("1,2:3:40"),
        Some(AttributedPoint { x: 1, y: 2, color: Some(3), size: Some(MAX_BRUSH_SIZE) })
    );
    assert_eq!(
        parse_attributed_point("1,2:3:0"),
        Some(AttributedPoint { x: 1, y: 2, color: Some(3), size: Some(MIN_BRUSH_SIZE) })
    );
}

#[test]
fn only_the_first_line_of_a_connection_is_answered() {
    let mut state = Connection::AwaitingFirstLine;
    let mut replies = Vec::new();
    for _ in 0..5 {
        let a = on_line(state);
        replies.push(a.reply);
        state = a.next;
    }
    assert_eq!(replies, vec![true, false, false, false, false]);
    assert_eq!(state, Connection::Streaming);
}

#[test]
fn stamp_pixel_count_grows_with_size() {
    let mut prev = 0usize;
    for size in MIN_BRUSH_SIZE..=MAX_BRUSH_SIZE {
        let mut b = blank();
        draw_circle(&mut b, 400, 300, size, BLACK);
        let n = b.iter().filter(|&&p| p == BLACK).count();
        if size == 1 {
            assert_eq!(n, 1);
        }
        assert!(n > prev, "size {}", size);
        prev = n;
    }
    // radius 2: 13 lattice points
    let mut b = blank();
    draw_circle(&mut b, 400, 300, 3, BLACK);
    assert_eq!(b.iter().filter(|&&p| p == BLACK).count(), 13);
}

#[test]
fn replies_are_exact_text() {
    assert_eq!(state_reply(Some(12), None, 20), "edge:12 fill:none size:20");
    assert_eq!(state_reply(None, Some(0), 1), "edge:none fill:0 size:1");
    assert_eq!(snapshot_reply(&Ok(())), "saved canvas.png");
    assert_eq!(snapshot_reply(&Err("disk full".to_string())), "error: disk full");
    assert_eq!(socket_reply(&None), "error: unknown command");
    assert_eq!(socket_reply(&Some(None)), "ok");
    assert_eq!(socket_reply(&Some(Some("edge:0 fill:none size:1".to_string()))), "edge:0 fill:none size:1");
}

#[test]
fn oversized_boxes_are_not_runnable() {
    let c = Command::Circle { x: usize::MAX, y: 5, r: 1 };
    assert!(!command_runnable(&c));
    let o = Command::Oval { x: 5, y: 5, rx: 1usize << 40, ry: 3 };
    assert!(command_runnable(&o));
    assert!(!command_runnable(&Command::Oval { x: usize::MAX, y: 5, rx: 1, ry: 3 }));
    assert!(!command_runnable(&Command::Edge(Some(14))));
    let p = Command::Points(vec![AttributedPoint { x: 1, y: 1, color: Some(20), size: None }]);
    assert!(!command_runnable(&p));
}

#[test]
fn ellipse_and_triangle_fills_are_exact() {
    let mut b = blank();
    fill_oval(&mut b, 100, 100, 110, 104, BLACK);
    // center row spans the full width, corners stay empty
    for x in 100..=110usize {
        assert_eq!(b[102 * WIDTH + x], BLACK);
    }
    assert_eq!(b[100 * WIDTH + 100], WHITE);
    assert_eq!(b[100 * WIDTH + 105], BLACK);

    let mut t = blank();
    // dragged upward: apex at the top middle
    fill_triangle(&mut t, 100, 200, 120, 100, BLACK);
    assert_eq!(t[100 * WIDTH + 110], BLACK);
    assert_eq!(t[100 * WIDTH + 109], WHITE);
    for x in 100..=120usize {
        assert_eq!(t[200 * WIDTH + x], BLACK);
    }
}

#[test]
fn huge_ellipse_fill_is_exact_on_its_boundary() {
    let mut b = blank();
    // center (2^32, 300), radii 2^32 and 300: (0, 300) lies on the ellipse
    fill_oval(&mut b, 0, 0, 1usize << 33, 600, BLACK);
    assert_eq!(b[300 * WIDTH], BLACK);
    assert_eq!(b[299 * WIDTH], WHITE);
    assert_eq!(b[301 * WIDTH], WHITE);
}

#[test]
fn circle_outline_passes_through_its_extremes() {
    let mut b = blank();
    draw_shape_circle(&mut b, 100, 100, 200, 200, BLACK, 1);
    assert_eq!(b[150 * WIDTH + 200], BLACK);
    assert_eq!(b[200 * WIDTH + 150], BLACK);
    assert_eq!(b[100 * WIDTH + 150], BLACK);
    assert_eq!(b[150 * WIDTH + 150], WHITE);
}

#[test]
fn canvas_bytes_are_rgb_rows_of_the_drawable_region() {
    let mut b = blank();
    b[CANVAS_TOP * WIDTH] = 0x123456;
    b[0] = 0xABCDEF;
    let bytes = canvas_rgb(&b);
    assert_eq!(bytes.len(), 3 * WIDTH * (CANVAS_BOTTOM - CANVAS_TOP));
    assert_eq!(&bytes[0..3], &[0x12, 0x34, 0x56]);
    assert_eq!(&bytes[3..6], &[0xFF, 0xFF, 0xFF]);
}

#[test]
fn snapshot_writes_the_drawable_region_as_an_image() {
    let mut b = blank();
    b[(CANVAS_TOP + 2) * WIDTH + 5] = 0xE04040;
    let path = "/tmp/displai_library_test_snapshot.png";
    assert_eq!(save_canvas_png(&b, path), Ok(()));
    let img = image::open(path).unwrap().to_rgb8();
    assert_eq!(img.width() as usize, WIDTH);
    assert_eq!(img.height() as usize, CANVAS_BOTTOM - CANVAS_TOP);
    assert_eq!(img.get_pixel(5, 2).0, [0xE0, 0x40, 0x40]);
    assert_eq!(img.get_pixel(0, 0).0, [0xFF, 0xFF, 0xFF]);
    assert!(save_canvas_png(&b, "/tmp/displai_library_test_snapshot.unknownext").is_err());
}
