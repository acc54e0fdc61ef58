use vstd::prelude::*;

use crate::color::Color;
use crate::map::{cell, MAP_HEIGHT, MAP_WIDTH};

verus! {

/// The colour of a wall kind on the faces that rays hit while stepping along x.
pub open spec fn base_wall_color(wall_type: u8) -> Color {
    if wall_type == 1 {
        Color { r: 180, g: 60, b: 60, a: 255 }
    } else if wall_type == 2 {
        Color { r: 60, g: 130, b: 180, a: 255 }
    } else if wall_type == 3 {
        Color { r: 90, g: 170, b: 90, a: 255 }
    } else if wall_type == 4 {
        Color { r: 200, g: 170, b: 60, a: 255 }
    } else {
        Color { r: 150, g: 150, b: 150, a: 255 }
    }
}

/// A colour dimmed to seven tenths on each colour channel, fully opaque.
pub open spec fn dimmed(c: Color) -> Color {
    Color { r: (c.r * 7 / 10) as u8, g: (c.g * 7 / 10) as u8, b: (c.b * 7 / 10) as u8, a: 255 }
}

/// The colour of a wall of kind `wall_type`; faces hit while stepping along y
/// (`side == 1`) are dimmed to seven tenths to give the walls volume.
pub open spec fn wall_color_spec(wall_type: u8, side: u8) -> Color {
    if side == 1 {
        dimmed(base_wall_color(wall_type))
    } else {
        base_wall_color(wall_type)
    }
}

pub fn wall_color(wall_type: u8, side: u8) -> (c: Color)
    ensures
        c == wall_color_spec(wall_type, side),
{
    let base = match wall_type {
        1 => Color::new(180, 60, 60, 255),
        2 => Color::new(60, 130, 180, 255),
        3 => Color::new(90, 170, 90, 255),
        4 => Color::new(200, 170, 60, 255),
        _ => Color::new(150, 150, 150, 255),
    };
    if side == 1 {
        Color::new(
            (base.r as u32 * 7 / 10) as u8,
            (base.g as u32 * 7 / 10) as u8,
            (base.b as u32 * 7 / 10) as u8,
            255,
        )
    } else {
        base
    }
}

/// Every wall kind from 1 to 4 has a colour of its own, and any other kind the
/// default grey, distinct from all four.
pub proof fn lemma_wall_colors_distinct(t: u8, u: u8, side: u8)
    requires
        1 <= t <= 4,
        t != u,
    ensures
        wall_color_spec(t, side) != wall_color_spec(u, side),
{
}

/// Faces hit along y are never brighter than faces hit along x, on any channel.
pub proof fn lemma_side_faces_darker(wall_type: u8)
    ensures
        wall_color_spec(wall_type, 1).r <= wall_color_spec(wall_type, 0).r,
        wall_color_spec(wall_type, 1).g <= wall_color_spec(wall_type, 0).g,
        wall_color_spec(wall_type, 1).b <= wall_color_spec(wall_type, 0).b,
        wall_color_spec(wall_type, 1).a == 255,
{
}

/// `v / 2` rounded toward zero, as integer division does.
pub open spec fn half(v: int) -> int {
    if v >= 0 {
        v / 2
    } else {
        -((-v) / 2)
    }
}

/// The rows `(first, last)` that a wall slice `line_height` pixels tall covers when it
/// is centred on a screen `screen_h` pixels tall, clipped to the screen.
pub fn wall_span(line_height: i32, screen_h: i32) -> (span: (i32, i32))
    requires
        line_height > i32::MIN,
        screen_h > i32::MIN,
    ensures
        span.0 == (if half(-line_height) + half(screen_h as int) > 0 {
            half(-line_height) + half(screen_h as int)
        } else {
            0
        }),
        span.1 == (if half(line_height as int) + half(screen_h as int) < screen_h - 1 {
            half(line_height as int) + half(screen_h as int)
        } else {
            screen_h - 1
        }),
{
    let top = -line_height / 2 + screen_h / 2;
    let bottom = line_height / 2 + screen_h / 2;
    let draw_start = if top > 0 { top } else { 0 };
    let draw_end = if bottom < screen_h - 1 { bottom } else { screen_h - 1 };
    (draw_start, draw_end)
}

/// A filled, axis-aligned rectangle to draw on screen.
#[derive(PartialEq, Eq, Structural, Clone, Copy, Debug)]
pub struct Rect {
    pub x: i32,
    pub y: i32,
    pub w: i32,
    pub h: i32,
    pub color: Color,
}

/// Size in pixels of one map cell on the minimap.
pub const MINIMAP_TILE_PX: i32 = 6;

/// Gap in pixels between the minimap and the screen's top and right edges.
pub const MINIMAP_MARGIN: i32 = 12;

/// The colour of a map cell on the minimap: dark grey for floor, the wall's colour otherwise.
pub open spec fn minimap_tile_color(t: u8) -> Color {
    if t == 0 {
        Color { r: 30, g: 30, b: 30, a: 255 }
    } else {
        wall_color_spec(t, 0)
    }
}

/// The screen position of the minimap's top-left corner on a screen `screen_w` wide.
pub open spec fn minimap_origin_spec(screen_w: int) -> (int, int) {
    (screen_w - MAP_WIDTH * MINIMAP_TILE_PX - MINIMAP_MARGIN, MINIMAP_MARGIN as int)
}

pub fn minimap_origin(screen_w: i32) -> (o: (i32, i32))
    requires
        screen_w >= i32::MIN + 108,
    ensures
        o.0 == minimap_origin_spec(screen_w as int).0,
        o.1 == minimap_origin_spec(screen_w as int).1,
{
    let map_w: i32 = MAP_WIDTH as i32 * MINIMAP_TILE_PX;
    (screen_w - map_w - MINIMAP_MARGIN, MINIMAP_MARGIN)
}

/// The rectangle of the minimap cell at `(col, row)`.
pub open spec fn minimap_cell_rect(grid: [[u8; MAP_WIDTH]; MAP_HEIGHT], screen_w: int, col: int, row: int) -> Rect {
    let o = minimap_origin_spec(screen_w);
    Rect {
        x: (o.0 + col * MINIMAP_TILE_PX) as i32,
        y: (o.1 + row * MINIMAP_TILE_PX) as i32,
        w: (MINIMAP_TILE_PX - 1) as i32,
        h: (MINIMAP_TILE_PX - 1) as i32,
        color: minimap_tile_color(cell(grid, col, row)),
    }
}

/// The translucent black backdrop behind the minimap.
pub open spec fn minimap_backdrop(screen_w: int) -> Rect {
    let o = minimap_origin_spec(screen_w);
    Rect {
        x: (o.0 - 4) as i32,
        y: (o.1 - 4) as i32,
        w: (MAP_WIDTH * MINIMAP_TILE_PX + 8) as i32,
        h: (MAP_HEIGHT * MINIMAP_TILE_PX + 8) as i32,
        color: Color { r: 0, g: 0, b: 0, a: 160 },
    }
}

/// A minimap cell's horizontal position follows its column and its vertical position
/// its row: cell `(col, row)` starts `6 * col` pixels right of the minimap's origin and
/// `6 * row` below it, 108 pixels left of the screen's right edge and 12 below its top,
/// and it shows the colour of the map cell at that column and row.
pub proof fn lemma_minimap_cells(grid: [[u8; MAP_WIDTH]; MAP_HEIGHT], screen_w: int, col: int, row: int)
    requires
        screen_w >= i32::MIN + 112,
        screen_w <= i32::MAX,
        0 <= col < MAP_WIDTH,
        0 <= row < MAP_HEIGHT,
    ensures
        minimap_cell_rect(grid, screen_w, col, row).x == screen_w - 108 + 6 * col,
        minimap_cell_rect(grid, screen_w, col, row).y == 12 + 6 * row,
        minimap_cell_rect(grid, screen_w, col, row).color == minimap_tile_color(grid@[row]@[col]),
        minimap_cell_rect(grid, screen_w, col, row).w == 5,
        minimap_cell_rect(grid, screen_w, col, row).h == 5,
{
}

/// The minimap sits in the screen's top-right corner: its backdrop ends 8 pixels from
/// the right edge and starts 8 pixels from the top, and every cell lies inside it.
pub proof fn lemma_minimap_top_right(grid: [[u8; MAP_WIDTH]; MAP_HEIGHT], screen_w: int, col: int, row: int)
    requires
        screen_w >= i32::MIN + 112,
        screen_w <= i32::MAX,
        0 <= col < MAP_WIDTH,
        0 <= row < MAP_HEIGHT,
    ensures
        minimap_backdrop(screen_w).x + minimap_backdrop(screen_w).w == screen_w - 8,
        minimap_backdrop(screen_w).y == 8,
        minimap_backdrop(screen_w).x <= minimap_cell_rect(grid, screen_w, col, row).x,
        minimap_cell_rect(grid, screen_w, col, row).x + minimap_cell_rect(grid, screen_w, col, row).w
            <= minimap_backdrop(screen_w).x + minimap_backdrop(screen_w).w,
        minimap_backdrop(screen_w).y <= minimap_cell_rect(grid, screen_w, col, row).y,
        minimap_cell_rect(grid, screen_w, col, row).y + minimap_cell_rect(grid, screen_w, col, row).h
            <= minimap_backdrop(screen_w).y + minimap_backdrop(screen_w).h,
{
}

/// The rectangles of the minimap in drawing order: the backdrop, then every map cell
/// row by row.
pub fn minimap_rects(grid: &[[u8; MAP_WIDTH]; MAP_HEIGHT], screen_w: i32) -> (rects: Vec<Rect>)
    requires
        screen_w >= i32::MIN + 112,
    ensures
        rects@.len() == 1 + MAP_WIDTH * MAP_HEIGHT,
        rects@[0] == minimap_backdrop(screen_w as int),
        forall|row: int, col: int|
            0 <= row < MAP_HEIGHT && 0 <= col < MAP_WIDTH ==> #[trigger] rects@[1 + row * MAP_WIDTH + col]
                == minimap_cell_rect(*grid, screen_w as int, col, row),
        forall|row: int, col: int|
            0 <= row < MAP_HEIGHT && 0 <= col < MAP_WIDTH ==> {
                &&& #[trigger] rects@[1 + row * MAP_WIDTH + col].x == screen_w - 108 + 6 * col
                &&& rects@[1 + row * MAP_WIDTH + col].y == 12 + 6 * row
                &&& rects@[1 + row * MAP_WIDTH + col].color == minimap_tile_color(grid@[row]@[col])
            },
{
    let (origin_x, origin_y) = minimap_origin(screen_w);
    let map_w: i32 = MAP_WIDTH as i32 * MINIMAP_TILE_PX;
    let map_h: i32 = MAP_HEIGHT as i32 * MINIMAP_TILE_PX;
    let mut rects: Vec<Rect> = Vec::new();
    rects.push(
        Rect {
            x: origin_x - 4,
            y: origin_y - 4,
            w: map_w + 8,
            h: map_h + 8,
            color: Color::new(0, 0, 0, 160),
        },
    );
    let mut row: usize = 0;
    while row < MAP_HEIGHT
        invariant
            row <= MAP_HEIGHT,
            origin_x == minimap_origin_spec(screen_w as int).0,
            origin_y == minimap_origin_spec(screen_w as int).1,
            rects@.len() == 1 + row * MAP_WIDTH,
            rects@[0] == minimap_backdrop(screen_w as int),
            forall|r: int, c: int|
                0 <= r < row && 0 <= c < MAP_WIDTH ==> #[trigger] rects@[1 + r * MAP_WIDTH + c]
                    == minimap_cell_rect(*grid, screen_w as int, c, r),
        decreases MAP_HEIGHT - row,
    {
        let mut col: usize = 0;
        while col < MAP_WIDTH
            invariant
                row < MAP_HEIGHT,
                col <= MAP_WIDTH,
                origin_x == minimap_origin_spec(screen_w as int).0,
                origin_y == minimap_origin_spec(screen_w as int).1,
                rects@.len() == 1 + row * MAP_WIDTH + col,
                rects@[0] == minimap_backdrop(screen_w as int),
                forall|r: int, c: int|
                    (0 <= r < row && 0 <= c < MAP_WIDTH) || (r == row && 0 <= c < col)
                        ==> #[trigger] rects@[1 + r * MAP_WIDTH + c]
                        == minimap_cell_rect(*grid, screen_w as int, c, r),
            decreases MAP_WIDTH - col,
        {
            let t = grid[row][col];
            let color = if t == 0 {
                Color::new(30, 30, 30, 255)
            } else {
                wall_color(t, 0)
            };
            let ghost before = rects@;
            rects.push(
                Rect {
                    x: origin_x + col as i32 * MINIMAP_TILE_PX,
                    y: origin_y + row as i32 * MINIMAP_TILE_PX,
                    w: MINIMAP_TILE_PX - 1,
                    h: MINIMAP_TILE_PX - 1,
                    color,
                },
            );
            proof {
                assert forall|r: int, c: int|
                    (0 <= r < row && 0 <= c < MAP_WIDTH) || (r == row && 0 <= c < col + 1)
                        implies #[trigger] rects@[1 + r * MAP_WIDTH + c]
                        == minimap_cell_rect(*grid, screen_w as int, c, r) by {
                    if r < row {
                        assert(1 + r * MAP_WIDTH + c < 1 + row * MAP_WIDTH) by (nonlinear_arith)
                            requires r < row, 0 <= c < MAP_WIDTH;
                        assert(rects@[1 + r * MAP_WIDTH + c] == before[1 + r * MAP_WIDTH + c]);
                    } else if c < col {
                        assert(rects@[1 + r * MAP_WIDTH + c] == before[1 + r * MAP_WIDTH + c]);
                    }
                }
            }
            col = col + 1;
        }
        row = row + 1;
    }
    proof {
        assert forall|row: int, col: int| 0 <= row < MAP_HEIGHT && 0 <= col < MAP_WIDTH implies {
            &&& #[trigger] rects@[1 + row * MAP_WIDTH + col].x == screen_w - 108 + 6 * col
            &&& rects@[1 + row * MAP_WIDTH + col].y == 12 + 6 * row
            &&& rects@[1 + row * MAP_WIDTH + col].color == minimap_tile_color(grid@[row]@[col])
        } by {
            lemma_minimap_cells(*grid, screen_w as int, col, row);
        }
    }
    rects
}

} // verus!
