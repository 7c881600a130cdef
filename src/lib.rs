//! A command-driven raster canvas: text commands are parsed into a
//! `Command`, executed against a packed-RGB framebuffer, and the toolbar
//! chrome around the drawable region is rendered by the `ui` module.
use vstd::prelude::*;

pub mod canvas;
pub mod command;
pub mod interp;
pub mod laws;
pub mod pointer;
pub mod raster;
pub mod region;
pub mod ring;
pub mod session;
pub mod shapes;
pub mod snapshot;
pub mod text;
pub mod ui;
pub mod wide;

pub use canvas::{clear_canvas, set_pixel};
pub use command::{parse_attributed_list, parse_attributed_point, parse_command, AttributedPoint, Command};
pub use interp::{command_runnable, execute_command, snapshot_reply, socket_reply, state_reply};
pub use pointer::{pointer_new, pointer_step, Mouse, Pointer};
pub use raster::{draw_brush_line, draw_circle, draw_line};
pub use session::{on_line, Connection, LineAction};
pub use shapes::{
    draw_shape, draw_shape_circle, draw_shape_oval, draw_shape_rectangle, draw_shape_square,
    draw_shape_triangle, draw_shape_with_fill, fill_circle, fill_oval, fill_rectangle, fill_square,
    fill_triangle,
};
pub use snapshot::{canvas_rgb, save_canvas_png};
pub use ui::{
    draw_bottom_toolbar, draw_button, draw_button_border, draw_button_inner_border, draw_clear_icon,
    draw_edge_fill_indicator, draw_minus_icon, draw_number, draw_plus_icon, draw_size_display,
    draw_title_bar, draw_tool_icon, draw_transparent_button, draw_x, get_clicked_color_index,
    get_clicked_color_index_bottom, get_clicked_tool, is_in_clear_button, is_in_close_button,
    is_in_fill_indicator, is_in_minus_button, is_in_plus_button, is_in_transparent_button,
};

verus! {

pub const WIDTH: usize = 800;
pub const HEIGHT: usize = 600;
pub const WHITE: u32 = 0xFFFFFF;
pub const BLACK: u32 = 0x000000;
pub const GRAY: u32 = 0xE0E0E0;
pub const DARK_GRAY: u32 = 0x808080;
pub const RED: u32 = 0xE04040;
pub const BLUE: u32 = 0x4040E0;

pub const COLOR_PALETTE: [u32; 14] = [
    0x000000,
    0xFFFFFF,
    0xE04040,
    0xE07040,
    0xE0A040,
    0xE0E040,
    0xA0E040,
    0x40E040,
    0x40E0A0,
    0x40E0E0,
    0x4080E0,
    0x4040E0,
    0x8040E0,
    0xE040E0,
];

pub const TITLE_BAR_HEIGHT: usize = 30;
pub const BUTTON_SIZE: usize = 24;
pub const BUTTON_MARGIN: usize = 3;
pub const BOTTOM_TOOLBAR_HEIGHT: usize = 60;
pub const TOOLBAR_ROW_HEIGHT: usize = 30;
pub const CANVAS_TOP: usize = TITLE_BAR_HEIGHT;
pub const CANVAS_BOTTOM: usize = HEIGHT - BOTTOM_TOOLBAR_HEIGHT;

pub const MIN_BRUSH_SIZE: usize = 1;
pub const MAX_BRUSH_SIZE: usize = 20;
pub const DEFAULT_BRUSH_SIZE: usize = 1;

/// The drawing tools.
#[derive(Debug, Clone, Copy, PartialEq, Eq, Structural, Default)]
pub enum ToolMode {
    #[default]
    Brush,
    Line,
    Square,
    Rectangle,
    Circle,
    Oval,
    Triangle,
}

/// Number of pixels in a whole frame.
pub const FRAME_LEN: usize = WIDTH * HEIGHT;

/// The palette entry at index `i`.
pub open spec fn palette(i: int) -> u32 {
    COLOR_PALETTE@[i]
}

/// Returns the palette color at index `i`.
pub fn palette_color(i: usize) -> (c: u32)
    requires
        i < 14,
    ensures
        c == palette(i as int),
{
    COLOR_PALETTE[i]
}

} // verus!
