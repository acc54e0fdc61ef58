use vstd::prelude::*;

use crate::color::Color;

verus! {

/// Side in pixels of a wall texture.
pub const TEX_SIZE: i32 = 64;

/// A rectangle of a texture pattern, painted with the pattern's colour at shade step
/// `tone` (each pattern says how its steps map to brightness).
#[derive(PartialEq, Eq, Structural, Clone, Copy, Debug)]
pub struct Tile {
    pub x: i32,
    pub y: i32,
    pub w: i32,
    pub h: i32,
    pub tone: i32,
}

/// The horizontal offset of brick row `r`: every other row is shifted by half a brick.
pub open spec fn brick_offset(r: int) -> int {
    if r % 2 == 0 {
        0
    } else {
        8
    }
}

/// Number of bricks in row `r` (the shifted rows need one more to reach the edge).
pub open spec fn bricks_in_row(r: int) -> int {
    if r % 2 == 0 {
        4
    } else {
        5
    }
}

/// Index of the first brick of row `r` in the brick list.
pub open spec fn first_brick(r: int) -> int {
    (r / 2) * 9 + (r % 2) * 4
}

/// Brick `k` of row `r`: 16 by 8 pixels with 2 pixels of mortar on each side, shade
/// step `(|x| * 7 + y * 3) % 5` of its corner `(x, y)`.
pub open spec fn brick_tile(r: int, k: int) -> Tile {
    let x = 16 * k - brick_offset(r);
    let y = 8 * r;
    Tile {
        x: (x + 2) as i32,
        y: (y + 2) as i32,
        w: 12,
        h: 4,
        tone: (((if x < 0 { -x } else { x }) * 7 + y * 3) % 5) as i32,
    }
}

/// The bricks of the brick texture, row by row from the top: 8 rows of 16 by 8 pixel
/// bricks, every other row shifted by half a brick.
pub fn brick_tiles() -> (tiles: Vec<Tile>)
    ensures
        tiles@.len() == 36,
        forall|r: int, k: int|
            0 <= r < 8 && 0 <= k < bricks_in_row(r) ==> #[trigger] tiles@[first_brick(r) + k]
                == brick_tile(r, k),
{
    let brick_w: i32 = 16;
    let brick_h: i32 = 8;
    let mortar_th: i32 = 2;
    let mut tiles: Vec<Tile> = Vec::new();
    let mut y: i32 = 0;
    let mut row: i32 = 0;
    while y < TEX_SIZE
        invariant
            0 <= row <= 8,
            y == 8 * row,
            brick_w == 16,
            brick_h == 8,
            mortar_th == 2,
            tiles@.len() == first_brick(row as int),
            forall|r: int, k: int|
                0 <= r < row && 0 <= k < bricks_in_row(r) ==> #[trigger] tiles@[first_brick(r) + k]
                    == brick_tile(r, k),
        decreases TEX_SIZE - y,
    {
        let offset: i32 = if row % 2 == 0 { 0 } else { brick_w / 2 };
        let mut x: i32 = -offset;
        let mut k: i32 = 0;
        while x < TEX_SIZE
            invariant
                0 <= row < 8,
                y == 8 * row,
                brick_w == 16,
                brick_h == 8,
                mortar_th == 2,
                offset == brick_offset(row as int),
                x == 16 * k - offset,
                0 <= k <= bricks_in_row(row as int),
                x < TEX_SIZE ==> k < bricks_in_row(row as int),
                tiles@.len() == first_brick(row as int) + k,
                forall|r: int, j: int|
                    (0 <= r < row && 0 <= j < bricks_in_row(r)) || (r == row && 0 <= j < k)
                        ==> #[trigger] tiles@[first_brick(r) + j] == brick_tile(r, j),
            decreases bricks_in_row(row as int) - k,
        {
            let bx = x + mortar_th;
            let by = y + mortar_th;
            let bw = brick_w - mortar_th * 2;
            let bh = brick_h - mortar_th * 2;
            if bw > 0 && bh > 0 {
                let ax: i32 = if x < 0 { -x } else { x };
                let ghost before = tiles@;
                tiles.push(Tile { x: bx, y: by, w: bw, h: bh, tone: (ax * 7 + y * 3) % 5 });
                proof {
                    assert forall|r: int, j: int|
                        (0 <= r < row && 0 <= j < bricks_in_row(r)) || (r == row && 0 <= j < k + 1)
                            implies #[trigger] tiles@[first_brick(r) + j] == brick_tile(r, j) by {
                        if r < row {
                            assert(first_brick(r) + j < first_brick(row as int)) by (nonlinear_arith)
                                requires
                                    0 <= r < row,
                                    0 <= j < bricks_in_row(r),
                                    bricks_in_row(r) == (if r % 2 == 0 { 4int } else { 5 }),
                                    first_brick(r) == (r / 2) * 9 + (r % 2) * 4,
                                    first_brick(row as int) == (row / 2) * 9 + (row % 2) * 4;
                            assert(tiles@[first_brick(r) + j] == before[first_brick(r) + j]);
                        } else if j < k {
                            assert(tiles@[first_brick(r) + j] == before[first_brick(r) + j]);
                        }
                    }
                }
            }
            x = x + brick_w;
            k = k + 1;
        }
        assert(first_brick(row as int) + bricks_in_row(row as int) == first_brick(row + 1)) by (nonlinear_arith)
            requires
                0 <= row,
                bricks_in_row(row as int) == (if row % 2 == 0 { 4int } else { 5 }),
                first_brick(row as int) == (row / 2) * 9 + (row % 2) * 4,
                first_brick(row + 1) == ((row + 1) / 2) * 9 + ((row + 1) % 2) * 4;
        y = y + brick_h;
        row = row + 1;
    }
    tiles
}

/// Stone block `k` of row `r`: 12 by 12 pixels with a 1 pixel joint, every other row
/// shifted by half a block, shade step `(x * 13 + y * 7) mod 11` of its corner `(x, y)`
/// (a fixed pseudo-noise).
pub open spec fn stone_tile(r: int, k: int) -> Tile {
    let x = 12 * k - (if r % 2 == 0 { 0int } else { 6 });
    let y = 12 * r;
    Tile { x: (x + 1) as i32, y: (y + 1) as i32, w: 10, h: 10, tone: ((x * 13 + y * 7) % 11) as i32 }
}

/// The blocks of the stone texture, row by row from the top: 6 rows of 6 blocks.
pub fn stone_tiles() -> (tiles: Vec<Tile>)
    ensures
        tiles@.len() == 36,
        forall|r: int, k: int| 0 <= r < 6 && 0 <= k < 6 ==> #[trigger] tiles@[6 * r + k] == stone_tile(r, k),
{
    let block: i32 = 12;
    let mut tiles: Vec<Tile> = Vec::new();
    let mut y: i32 = 0;
    let mut row: i32 = 0;
    while y < TEX_SIZE
        invariant
            0 <= row <= 6,
            y == 12 * row,
            block == 12,
            tiles@.len() == 6 * row,
            forall|r: int, k: int|
                0 <= r < row && 0 <= k < 6 ==> #[trigger] tiles@[6 * r + k] == stone_tile(r, k),
        decreases 6 - row,
    {
        let offset: i32 = if row % 2 == 0 { 0 } else { block / 2 };
        let mut x: i32 = -offset;
        let mut k: i32 = 0;
        while x < TEX_SIZE
            invariant
                0 <= row < 6,
                y == 12 * row,
                block == 12,
                offset == (if row % 2 == 0 { 0int } else { 6 }),
                x == 12 * k - offset,
                0 <= k <= 6,
                x < TEX_SIZE ==> k < 6,
                tiles@.len() == 6 * row + k,
                forall|r: int, j: int|
                    (0 <= r < row && 0 <= j < 6) || (r == row && 0 <= j < k) ==> #[trigger] tiles@[6 * r + j]
                        == stone_tile(r, j),
            decreases 6 - k,
        {
            // pseudo-noise: the non-negative remainder of x * 13 + y * 7 by 11
            let v: i32 = x * 13 + y * 7;
            let m: i32 = if v % 11 < 0 { v % 11 + 11 } else { v % 11 };
            proof {
                assert(m == v as int % 11) by {
                    vstd::arithmetic::div_mod::lemma_fundamental_div_mod(v as int, 11);
                }
            }
            let ghost before = tiles@;
            tiles.push(Tile { x: x + 1, y: y + 1, w: block - 2, h: block - 2, tone: m });
            proof {
                assert forall|r: int, j: int|
                    (0 <= r < row && 0 <= j < 6) || (r == row && 0 <= j < k + 1) implies #[trigger] tiles@[6
                        * r + j] == stone_tile(r, j) by {
                    if r < row || j < k {
                        assert(tiles@[6 * r + j] == before[6 * r + j]);
                    }
                }
            }
            x = x + block;
            k = k + 1;
        }
        y = y + block;
        row = row + 1;
    }
    tiles
}

/// Spacing in pixels of the seams of the panel texture.
pub const PANEL_SIZE: i32 = 32;

/// The seams of the panel texture: 2 pixel lines across it every 32 pixels, the
/// horizontal ones (top to bottom) then the vertical ones (left to right).
pub fn panel_lines() -> (lines: Vec<Tile>)
    ensures
        lines@ == seq![
            Tile { x: 0, y: 0, w: 64, h: 2, tone: 0 },
            Tile { x: 0, y: 32, w: 64, h: 2, tone: 0 },
            Tile { x: 0, y: 0, w: 2, h: 64, tone: 0 },
            Tile { x: 32, y: 0, w: 2, h: 64, tone: 0 },
        ],
{
    let mut lines: Vec<Tile> = Vec::new();
    let mut y: i32 = 0;
    while y < TEX_SIZE
        invariant
            y == 0 || y == 32 || y == 64,
            y == 0 ==> lines@ == Seq::<Tile>::empty(),
            y == 32 ==> lines@ == seq![Tile { x: 0, y: 0, w: 64, h: 2, tone: 0 }],
            y == 64 ==> lines@ == seq![
                Tile { x: 0, y: 0, w: 64, h: 2, tone: 0 },
                Tile { x: 0, y: 32, w: 64, h: 2, tone: 0 },
            ],
        decreases TEX_SIZE - y,
    {
        lines.push(Tile { x: 0, y, w: TEX_SIZE, h: 2, tone: 0 });
        y = y + PANEL_SIZE;
    }
    let mut x: i32 = 0;
    while x < TEX_SIZE
        invariant
            x == 0 || x == 32 || x == 64,
            x == 0 ==> lines@ == seq![
                Tile { x: 0, y: 0, w: 64, h: 2, tone: 0 },
                Tile { x: 0, y: 32, w: 64, h: 2, tone: 0 },
            ],
            x == 32 ==> lines@ == seq![
                Tile { x: 0, y: 0, w: 64, h: 2, tone: 0 },
                Tile { x: 0, y: 32, w: 64, h: 2, tone: 0 },
                Tile { x: 0, y: 0, w: 2, h: 64, tone: 0 },
            ],
            x == 64 ==> lines@ == seq![
                Tile { x: 0, y: 0, w: 64, h: 2, tone: 0 },
                Tile { x: 0, y: 32, w: 64, h: 2, tone: 0 },
                Tile { x: 0, y: 0, w: 2, h: 64, tone: 0 },
                Tile { x: 32, y: 0, w: 2, h: 64, tone: 0 },
            ],
        decreases TEX_SIZE - x,
    {
        lines.push(Tile { x, y: 0, w: 2, h: TEX_SIZE, tone: 0 });
        x = x + PANEL_SIZE;
    }
    lines
}

/// The centres of the rivets of the panel texture: two per panel, 4 pixels in from its
/// top-left corner and 24 pixels to the right of that, panels row by row.
pub fn panel_rivets() -> (centres: Vec<(i32, i32)>)
    ensures
        centres@ == seq![(4i32, 4i32), (28, 4), (36, 4), (60, 4), (4, 36), (28, 36), (36, 36), (60, 36)],
{
    let mut centres: Vec<(i32, i32)> = Vec::new();
    let mut py: i32 = 4;
    while py < TEX_SIZE
        invariant
            py == 4 || py == 36 || py == 68,
            py == 4 ==> centres@ == Seq::<(i32, i32)>::empty(),
            py == 36 ==> centres@ == seq![(4i32, 4i32), (28, 4), (36, 4), (60, 4)],
            py == 68 ==> centres@ == seq![
                (4i32, 4i32),
                (28, 4),
                (36, 4),
                (60, 4),
                (4, 36),
                (28, 36),
                (36, 36),
                (60, 36),
            ],
        decreases TEX_SIZE + PANEL_SIZE - py,
    {
        let ghost before = centres@;
        let mut px: i32 = 4;
        while px < TEX_SIZE
            invariant
                py == 4 || py == 36,
                px == 4 || px == 36 || px == 68,
                px == 4 ==> centres@ == before,
                px == 36 ==> centres@ == before + seq![(4i32, py), (28, py)],
                px == 68 ==> centres@ == before + seq![(4i32, py), (28, py), (36, py), (60, py)],
            decreases TEX_SIZE + PANEL_SIZE - px,
        {
            centres.push((px, py));
            centres.push((px + PANEL_SIZE - 8, py));
            px = px + PANEL_SIZE;
        }
        py = py + PANEL_SIZE;
    }
    centres
}

/// A filled shape of a generated image.
#[derive(PartialEq, Eq, Structural, Clone, Copy, Debug)]
pub enum Shape {
    Rect { x: i32, y: i32, w: i32, h: i32, color: Color },
    Circle { cx: i32, cy: i32, r: i32, color: Color },
}

/// Width in pixels of the pistol image.
pub const PISTOL_W: i32 = 100;

/// Height in pixels of the pistol image.
pub const PISTOL_H: i32 = 130;

pub open spec fn rect(x: i32, y: i32, w: i32, h: i32, r: u8, g: u8, b: u8, a: u8) -> Shape {
    Shape::Rect { x, y, w, h, color: Color { r, g, b, a } }
}

/// The pistol, drawn in order over a transparent `PISTOL_W` by `PISTOL_H` image: slide,
/// rear sight, frame, trigger guard (with its opening cut back to transparent), grip
/// and magazine base.
pub open spec fn pistol_spec() -> Seq<Shape> {
    seq![
        rect(23, 8, 54, 26, 75, 75, 80, 255),
        rect(23, 8, 54, 5, 120, 120, 128, 255),
        rect(26, 30, 48, 4, 42, 42, 47, 255),
        rect(42, 2, 16, 8, 42, 42, 47, 255),
        rect(45, 4, 4, 4, 20, 20, 20, 255),
        rect(51, 4, 4, 4, 20, 20, 20, 255),
        rect(28, 34, 44, 16, 42, 42, 47, 255),
        rect(28, 34, 44, 3, 75, 75, 80, 255),
        rect(38, 50, 24, 8, 42, 42, 47, 255),
        rect(41, 50, 18, 12, 0, 0, 0, 0),
        rect(38, 58, 5, 6, 42, 42, 47, 255),
        rect(57, 58, 5, 6, 42, 42, 47, 255),
        rect(34, 58, 32, 12, 55, 38, 24, 255),
        rect(32, 70, 36, 14, 55, 38, 24, 255),
        rect(30, 84, 40, 20, 55, 38, 24, 255),
        rect(40, 70, 20, 32, 38, 25, 15, 255),
        rect(30, 84, 5, 20, 70, 48, 30, 255),
        rect(65, 84, 5, 20, 70, 48, 30, 255),
        rect(28, 104, 44, 6, 38, 25, 15, 255),
    ]
}

/// Whether a shape covers the point `(px, py)`: a rectangle its `w` by `h` cells from
/// its corner, a circle the points within its radius of its centre.
pub open spec fn covers(sh: Shape, px: int, py: int) -> bool {
    match sh {
        Shape::Rect { x, y, w, h, .. } => x <= px < x + w && y <= py < y + h,
        Shape::Circle { cx, cy, r, .. } => (px - cx) * (px - cx) + (py - cy) * (py - cy) <= r * r,
    }
}

pub open spec fn shape_color(sh: Shape) -> Color {
    match sh {
        Shape::Rect { color, .. } => color,
        Shape::Circle { color, .. } => color,
    }
}

/// The colour left at `(px, py)` after drawing the shapes in order: that of the last
/// shape covering the point, or none if no shape does.
pub open spec fn shown(shapes: Seq<Shape>, px: int, py: int) -> Option<Color>
    decreases shapes.len(),
{
    if shapes.len() == 0 {
        None
    } else if covers(shapes.last(), px, py) {
        Some(shape_color(shapes.last()))
    } else {
        shown(shapes.drop_last(), px, py)
    }
}

pub open spec fn in_box2(x0: int, x1: int, y0: int, y1: int, px: int, py: int) -> bool {
    x0 <= px < x1 && y0 <= py < y1
}

/// What the pistol image shows, region by region: the light top edge of the slide and
/// the slide below it, the dark rear-sight block with its two black sights, the slide's
/// dark lower edge, the frame with its lit top edge, the trigger guard with its opening
/// cut back to transparent, the grip with its dark inset and light side panels, the
/// magazine base, and nothing outside the 54 by 108 box from `(23, 2)`.
pub proof fn lemma_pistol_picture(px: int, py: int)
    ensures
        ({
            let metal = Color { r: 75, g: 75, b: 80, a: 255 };
            let metal_dark = Color { r: 42, g: 42, b: 47, a: 255 };
            let metal_light = Color { r: 120, g: 120, b: 128, a: 255 };
            let grip = Color { r: 55, g: 38, b: 24, a: 255 };
            let grip_dark = Color { r: 38, g: 25, b: 15, a: 255 };
            let grip_light = Color { r: 70, g: 48, b: 30, a: 255 };
            let sight = Color { r: 20, g: 20, b: 20, a: 255 };
            let clear = Color { r: 0, g: 0, b: 0, a: 0 };
            let shows = shown(pistol_spec(), px, py);
            &&& in_box2(23, 42, 8, 13, px, py) ==> shows == Some(metal_light)
            &&& in_box2(58, 77, 8, 10, px, py) ==> shows == Some(metal_light)
            &&& in_box2(23, 77, 13, 30, px, py) ==> shows == Some(metal)
            &&& in_box2(42, 58, 8, 10, px, py) ==> shows == Some(metal_dark)
            &&& (in_box2(42, 45, 2, 8, px, py) || in_box2(49, 51, 2, 8, px, py) || in_box2(55, 58, 2, 8, px, py)
                || in_box2(42, 58, 2, 4, px, py)) ==> shows == Some(metal_dark)
            &&& (in_box2(45, 49, 4, 8, px, py) || in_box2(51, 55, 4, 8, px, py)) ==> shows == Some(sight)
            &&& in_box2(26, 74, 30, 34, px, py) ==> shows == Some(metal_dark)
            &&& in_box2(28, 72, 34, 37, px, py) ==> shows == Some(metal)
            &&& in_box2(28, 72, 37, 50, px, py) ==> shows == Some(metal_dark)
            &&& (in_box2(38, 41, 50, 58, px, py) || in_box2(59, 62, 50, 58, px, py)) ==> shows == Some(metal_dark)
            &&& in_box2(41, 59, 50, 58, px, py) ==> shows == Some(clear)
            &&& in_box2(34, 66, 58, 70, px, py) ==> shows == Some(grip)
            &&& (in_box2(32, 40, 70, 84, px, py) || in_box2(60, 68, 70, 84, px, py)) ==> shows == Some(grip)
            &&& (in_box2(35, 40, 84, 104, px, py) || in_box2(60, 65, 84, 104, px, py) || in_box2(
                40,
                60,
                102,
                104,
                px,
                py,
            )) ==> shows == Some(grip)
            &&& in_box2(40, 60, 70, 102, px, py) ==> shows == Some(grip_dark)
            &&& (in_box2(30, 35, 84, 104, px, py) || in_box2(65, 70, 84, 104, px, py)) ==> shows == Some(grip_light)
            &&& in_box2(28, 72, 104, 110, px, py) ==> shows == Some(grip_dark)
            &&& !in_box2(23, 77, 2, 110, px, py) ==> shows is None
        }),
{
    reveal_with_fuel(shown, 20);
}

/// The shapes of the pistol image, in drawing order.
pub fn pistol_shapes() -> (shapes: Vec<Shape>)
    ensures
        shapes@ == pistol_spec(),
        forall|px: int, py: int|
            40 <= px < 60 && 70 <= py < 102 ==> #[trigger] shown(shapes@, px, py) == Some(
                Color { r: 38, g: 25, b: 15, a: 255 },
            ),
{
    let metal = Color::new(75, 75, 80, 255);
    let metal_dark = Color::new(42, 42, 47, 255);
    let metal_light = Color::new(120, 120, 128, 255);
    let grip = Color::new(55, 38, 24, 255);
    let grip_dark = Color::new(38, 25, 15, 255);
    let grip_light = Color::new(70, 48, 30, 255);
    let sight = Color::new(20, 20, 20, 255);
    let transparent = Color::new(0, 0, 0, 0);
    let cx: i32 = PISTOL_W / 2;
    let shapes = vec![
        Shape::Rect { x: cx - 27, y: 8, w: 54, h: 26, color: metal },
        Shape::Rect { x: cx - 27, y: 8, w: 54, h: 5, color: metal_light },
        Shape::Rect { x: cx - 24, y: 30, w: 48, h: 4, color: metal_dark },
        Shape::Rect { x: cx - 8, y: 2, w: 16, h: 8, color: metal_dark },
        Shape::Rect { x: cx - 5, y: 4, w: 4, h: 4, color: sight },
        Shape::Rect { x: cx + 1, y: 4, w: 4, h: 4, color: sight },
        Shape::Rect { x: cx - 22, y: 34, w: 44, h: 16, color: metal_dark },
        Shape::Rect { x: cx - 22, y: 34, w: 44, h: 3, color: metal },
        Shape::Rect { x: cx - 12, y: 50, w: 24, h: 8, color: metal_dark },
        Shape::Rect { x: cx - 9, y: 50, w: 18, h: 12, color: transparent },
        Shape::Rect { x: cx - 12, y: 58, w: 5, h: 6, color: metal_dark },
        Shape::Rect { x: cx + 7, y: 58, w: 5, h: 6, color: metal_dark },
        Shape::Rect { x: cx - 16, y: 58, w: 32, h: 12, color: grip },
        Shape::Rect { x: cx - 18, y: 70, w: 36, h: 14, color: grip },
        Shape::Rect { x: cx - 20, y: 84, w: 40, h: 20, color: grip },
        Shape::Rect { x: cx - 10, y: 70, w: 20, h: 32, color: grip_dark },
        Shape::Rect { x: cx - 20, y: 84, w: 5, h: 20, color: grip_light },
        Shape::Rect { x: cx + 15, y: 84, w: 5, h: 20, color: grip_light },
        Shape::Rect { x: cx - 22, y: 104, w: 44, h: 6, color: grip_dark },
    ];
    assert(shapes@ =~= pistol_spec());
    proof {
        assert forall|px: int, py: int| 40 <= px < 60 && 70 <= py < 102 implies #[trigger] shown(
            shapes@,
            px,
            py,
        ) == Some(Color { r: 38, g: 25, b: 15, a: 255 }) by {
            lemma_pistol_picture(px, py);
        }
    }
    shapes
}

/// Side in pixels of a creature image.
pub const CREATURE_SIZE: i32 = 48;

/// One eye of the creature centred at `(ex, 23)`: a closed lid when blinking, otherwise
/// the white of the eye and a pupil moved `pupil_shift` pixels sideways.
pub open spec fn creature_eye(ex: int, blink: bool, pupil_shift: int) -> Seq<Shape> {
    if blink {
        seq![Shape::Rect { x: (ex - 4) as i32, y: 22, w: 8, h: 2, color: Color { r: 20, g: 45, b: 25, a: 255 } }]
    } else {
        seq![
            Shape::Circle { cx: ex as i32, cy: 23, r: 5, color: Color { r: 250, g: 250, b: 240, a: 255 } },
            Shape::Circle {
                cx: (ex + pupil_shift) as i32,
                cy: 23,
                r: 2,
                color: Color { r: 10, g: 10, b: 15, a: 255 },
            },
        ]
    }
}

/// The creature, drawn in order over a transparent `CREATURE_SIZE` square: its shadowed
/// body, the body, a highlight, then the left and right eyes.
pub open spec fn creature_spec(blink: bool, pupil_shift: int) -> Seq<Shape> {
    seq![
        Shape::Circle { cx: 24, cy: 29, r: 19, color: Color { r: 35, g: 100, b: 55, a: 255 } },
        Shape::Circle { cx: 24, cy: 27, r: 17, color: Color { r: 85, g: 185, b: 95, a: 255 } },
        Shape::Circle { cx: 18, cy: 20, r: 6, color: Color { r: 140, g: 225, b: 145, a: 255 } },
    ] + creature_eye(17, blink, pupil_shift) + creature_eye(31, blink, pupil_shift)
}

/// The creature's highlight lies inside its body and is drawn after it, so it shows:
/// the body is the circle of radius 17 around `(24, 27)`, the highlight the circle of
/// radius 6 around `(18, 20)` drawn next, every point of the highlight is inside the body,
/// and at `(14, 16)` the finished frame shows the highlight's colour, whatever the eyes.
pub proof fn lemma_creature_highlight(blink: bool, pupil_shift: int, px: int, py: int)
    ensures
        creature_spec(blink, pupil_shift)[1] == (Shape::Circle {
            cx: 24,
            cy: 27,
            r: 17,
            color: Color { r: 85, g: 185, b: 95, a: 255 },
        }),
        creature_spec(blink, pupil_shift)[2] == (Shape::Circle {
            cx: 18,
            cy: 20,
            r: 6,
            color: Color { r: 140, g: 225, b: 145, a: 255 },
        }),
        covers(creature_spec(blink, pupil_shift)[2], px, py) ==> covers(creature_spec(blink, pupil_shift)[1], px, py),
        shown(creature_spec(blink, pupil_shift), 14, 16) == Some(Color { r: 140, g: 225, b: 145, a: 255 }),
{
    let s = creature_spec(blink, pupil_shift);
    let a = px - 18;
    let b = py - 20;
    let hl = Shape::Circle { cx: 18, cy: 20, r: 6, color: Color { r: 140, g: 225, b: 145, a: 255 } };
    let body = Shape::Circle { cx: 24, cy: 27, r: 17, color: Color { r: 85, g: 185, b: 95, a: 255 } };
    assert(s[2] == hl);
    assert(s[1] == body);
    assert(covers(hl, px, py) == ((px - 18) * (px - 18) + (py - 20) * (py - 20) <= 6 * 6));
    assert(covers(s[2], px, py) == ((px - 18) * (px - 18) + (py - 20) * (py - 20) <= 36));
    assert(covers(s[1], px, py) == ((px - 24) * (px - 24) + (py - 27) * (py - 27) <= 289));
    if (px - 18) * (px - 18) + (py - 20) * (py - 20) <= 36 {
        assert(a * a + b * b <= 36);
        assert(-6 <= a <= 6 && -6 <= b <= 6) by (nonlinear_arith)
            requires a * a + b * b <= 36;
        assert((px - 24) * (px - 24) + (py - 27) * (py - 27) <= 289) by (nonlinear_arith)
            requires a * a + b * b <= 36, -6 <= a <= 6, -6 <= b <= 6, a == px - 18, b == py - 20;
    }
    let light = Color { r: 140, g: 225, b: 145, a: 255 };
    let base = seq![s[0], s[1], s[2]];
    assert(base.last() == s[2]);
    assert((14 - 18) * (14 - 18) + (16 - 20) * (16 - 20) <= 6 * 6) by (nonlinear_arith);
    assert(covers(hl, 14, 16));
    assert(covers(s[2], 14, 16));
    assert(shown(base, 14, 16) == Some(light));
    if blink {
        let s4 = base.push(s[3]);
        assert(s =~= s4.push(s[4]));
        assert(!covers(s[4], 14, 16));
        assert(!covers(s[3], 14, 16));
        assert(shown(s4, 14, 16) == shown(base, 14, 16)) by {
            assert(s4.last() == s[3]);
            assert(s4.drop_last() =~= base);
        }
        assert(shown(s, 14, 16) == shown(s4, 14, 16)) by {
            assert(s.last() == s[4]);
            assert(s.drop_last() =~= s4);
        }
    } else {
        let sh = pupil_shift;
        assert(s[4] == Shape::Circle { cx: (17 + sh) as i32, cy: 23, r: 2, color: Color { r: 10, g: 10, b: 15, a: 255 } });
        assert(s[6] == Shape::Circle { cx: (31 + sh) as i32, cy: 23, r: 2, color: Color { r: 10, g: 10, b: 15, a: 255 } });
        assert(!covers(s[3], 14, 16)) by {
            assert((14 - 17) * (14 - 17) + (16 - 23) * (16 - 23) > 5 * 5) by (nonlinear_arith);
        }
        assert(!covers(s[5], 14, 16)) by {
            assert((14 - 31) * (14 - 31) + (16 - 23) * (16 - 23) > 5 * 5) by (nonlinear_arith);
        }
        assert(!covers(s[4], 14, 16)) by {
            let d = 14 - ((17 + sh) as i32) as int;
            assert(d * d + (16 - 23) * (16 - 23) > 2 * 2) by (nonlinear_arith);
        }
        assert(!covers(s[6], 14, 16)) by {
            let d = 14 - ((31 + sh) as i32) as int;
            assert(d * d + (16 - 23) * (16 - 23) > 2 * 2) by (nonlinear_arith);
        }
        let s4 = base.push(s[3]);
        let s5 = s4.push(s[4]);
        let s6 = s5.push(s[5]);
        assert(s =~= s6.push(s[6]));
        assert(shown(s4, 14, 16) == shown(base, 14, 16)) by {
            assert(s4.last() == s[3]);
            assert(s4.drop_last() =~= base);
        }
        assert(shown(s5, 14, 16) == shown(s4, 14, 16)) by {
            assert(s5.last() == s[4]);
            assert(s5.drop_last() =~= s4);
        }
        assert(shown(s6, 14, 16) == shown(s5, 14, 16)) by {
            assert(s6.last() == s[5]);
            assert(s6.drop_last() =~= s5);
        }
        assert(shown(s, 14, 16) == shown(s6, 14, 16)) by {
            assert(s.last() == s[6]);
            assert(s.drop_last() =~= s6);
        }
    }
}

/// Drawing one more shape: it shows where it covers, the earlier picture elsewhere.
proof fn lemma_shown_push(shapes: Seq<Shape>, sh: Shape, px: int, py: int)
    ensures
        shown(shapes.push(sh), px, py) == (if covers(sh, px, py) {
            Some(shape_color(sh))
        } else {
            shown(shapes, px, py)
        }),
{
    assert(shapes.push(sh).drop_last() =~= shapes);
}

/// What a creature frame shows at its landmarks, for every frame: the body colour at
/// the body's centre `(24, 27)`, the shadow below the body at `(24, 47)`; with open eyes
/// the white of the left eye above its pupil at `(17, 19)` and each pupil at its centre
/// (as long as it stays within 3 pixels of the eye's centre); with closed eyes the lids
/// at `(17, 22)` and `(31, 22)`.
pub proof fn lemma_creature_picture(blink: bool, pupil_shift: int)
    requires
        -3 <= pupil_shift <= 3,
    ensures
        ({
            let s = creature_spec(blink, pupil_shift);
            &&& shown(s, 24, 27) == Some(Color { r: 85, g: 185, b: 95, a: 255 })
            &&& shown(s, 24, 47) == Some(Color { r: 35, g: 100, b: 55, a: 255 })
            &&& !blink ==> shown(s, 17, 19) == Some(Color { r: 250, g: 250, b: 240, a: 255 })
            &&& !blink ==> shown(s, 17 + pupil_shift, 23) == Some(Color { r: 10, g: 10, b: 15, a: 255 })
            &&& !blink ==> shown(s, 31 + pupil_shift, 23) == Some(Color { r: 10, g: 10, b: 15, a: 255 })
            &&& blink ==> shown(s, 17, 22) == Some(Color { r: 20, g: 45, b: 25, a: 255 })
            &&& blink ==> shown(s, 31, 22) == Some(Color { r: 20, g: 45, b: 25, a: 255 })
        }),
{
    let s = creature_spec(blink, pupil_shift);
    let sh = pupil_shift;
    let c0 = s[0];
    let c1 = s[1];
    let c2 = s[2];
    let e = Seq::<Shape>::empty();
    let b1 = e.push(c0);
    let b2 = b1.push(c1);
    let b3 = b2.push(c2);
    assert(c0 == Shape::Circle { cx: 24, cy: 29, r: 19, color: Color { r: 35, g: 100, b: 55, a: 255 } });
    assert(c1 == Shape::Circle { cx: 24, cy: 27, r: 17, color: Color { r: 85, g: 185, b: 95, a: 255 } });
    assert(c2 == Shape::Circle { cx: 18, cy: 20, r: 6, color: Color { r: 140, g: 225, b: 145, a: 255 } });
    // the base: shadow, body, highlight
    assert(shown(e, 24, 27) is None && shown(e, 24, 47) is None);
    lemma_shown_push(e, c0, 24, 27);
    lemma_shown_push(e, c0, 24, 47);
    lemma_shown_push(b1, c1, 24, 27);
    lemma_shown_push(b1, c1, 24, 47);
    lemma_shown_push(b2, c2, 24, 27);
    lemma_shown_push(b2, c2, 24, 47);
    assert((24 - 24) * (24 - 24) + (47 - 29) * (47 - 29) <= 19 * 19) by (nonlinear_arith);
    assert((24 - 24) * (24 - 24) + (27 - 27) * (27 - 27) <= 17 * 17) by (nonlinear_arith);
    assert((24 - 24) * (24 - 24) + (47 - 27) * (47 - 27) > 17 * 17) by (nonlinear_arith);
    assert((24 - 18) * (24 - 18) + (27 - 20) * (27 - 20) > 6 * 6) by (nonlinear_arith);
    assert((24 - 18) * (24 - 18) + (47 - 20) * (47 - 20) > 6 * 6) by (nonlinear_arith);
    assert(shown(b3, 24, 27) == Some(shape_color(c1)));
    assert(shown(b3, 24, 47) == Some(shape_color(c0)));
    if blink {
        let l1 = s[3];
        let l2 = s[4];
        assert(s =~= b3.push(l1).push(l2));
        assert(l1 == Shape::Rect { x: 13, y: 22, w: 8, h: 2, color: Color { r: 20, g: 45, b: 25, a: 255 } });
        assert(l2 == Shape::Rect { x: 27, y: 22, w: 8, h: 2, color: Color { r: 20, g: 45, b: 25, a: 255 } });
        lemma_shown_push(b3, l1, 24, 27);
        lemma_shown_push(b3, l1, 24, 47);
        lemma_shown_push(b3, l1, 17, 22);
        lemma_shown_push(b3, l1, 31, 22);
        lemma_shown_push(b3.push(l1), l2, 24, 27);
        lemma_shown_push(b3.push(l1), l2, 24, 47);
        lemma_shown_push(b3.push(l1), l2, 17, 22);
        lemma_shown_push(b3.push(l1), l2, 31, 22);
    } else {
        let w1 = s[3];
        let p1 = s[4];
        let w2 = s[5];
        let p2 = s[6];
        assert(s =~= b3.push(w1).push(p1).push(w2).push(p2));
        let white = Color { r: 250, g: 250, b: 240, a: 255 };
        let pupil = Color { r: 10, g: 10, b: 15, a: 255 };
        assert(w1 == Shape::Circle { cx: 17, cy: 23, r: 5, color: white });
        assert(p1 == Shape::Circle { cx: (17 + sh) as i32, cy: 23, r: 2, color: pupil });
        assert(w2 == Shape::Circle { cx: 31, cy: 23, r: 5, color: white });
        assert(p2 == Shape::Circle { cx: (31 + sh) as i32, cy: 23, r: 2, color: pupil });
        let b4 = b3.push(w1);
        let b5 = b4.push(p1);
        let b6 = b5.push(w2);
        // the centres of the body and shadow are clear of both eyes
        assert forall|qx: int, qy: int| (qx == 24 && (qy == 27 || qy == 47)) implies !covers(w1, qx, qy)
            && !covers(p1, qx, qy) && !covers(w2, qx, qy) && !covers(p2, qx, qy) by {
            assert((qx - 17) * (qx - 17) + (qy - 23) * (qy - 23) > 5 * 5) by (nonlinear_arith)
                requires qx == 24, qy == 27 || qy == 47;
            assert((qx - 31) * (qx - 31) + (qy - 23) * (qy - 23) > 5 * 5) by (nonlinear_arith)
                requires qx == 24, qy == 27 || qy == 47;
            assert((qx - (17 + sh)) * (qx - (17 + sh)) + (qy - 23) * (qy - 23) > 2 * 2) by (nonlinear_arith)
                requires qx == 24, qy == 27 || qy == 47;
            assert((qx - (31 + sh)) * (qx - (31 + sh)) + (qy - 23) * (qy - 23) > 2 * 2) by (nonlinear_arith)
                requires qx == 24, qy == 27 || qy == 47;
        }
        lemma_shown_push(b3, w1, 24, 27);
        lemma_shown_push(b4, p1, 24, 27);
        lemma_shown_push(b5, w2, 24, 27);
        lemma_shown_push(b6, p2, 24, 27);
        lemma_shown_push(b3, w1, 24, 47);
        lemma_shown_push(b4, p1, 24, 47);
        lemma_shown_push(b5, w2, 24, 47);
        lemma_shown_push(b6, p2, 24, 47);
        // the white of the left eye above its pupil
        assert((17 - 17) * (17 - 17) + (19 - 23) * (19 - 23) <= 5 * 5) by (nonlinear_arith);
        assert((17 - (17 + sh)) * (17 - (17 + sh)) + (19 - 23) * (19 - 23) > 2 * 2) by (nonlinear_arith);
        assert((17 - 31) * (17 - 31) + (19 - 23) * (19 - 23) > 5 * 5) by (nonlinear_arith);
        assert((17 - (31 + sh)) * (17 - (31 + sh)) + (19 - 23) * (19 - 23) > 2 * 2) by (nonlinear_arith)
            requires -3 <= sh <= 3;
        lemma_shown_push(b3, w1, 17, 19);
        lemma_shown_push(b4, p1, 17, 19);
        lemma_shown_push(b5, w2, 17, 19);
        lemma_shown_push(b6, p2, 17, 19);
        // the left pupil at its centre, clear of the right eye
        let lx = 17 + sh;
        assert((lx - (17 + sh)) * (lx - (17 + sh)) + (23 - 23) * (23 - 23) <= 2 * 2) by (nonlinear_arith)
            requires lx == 17 + sh;
        assert((lx - 31) * (lx - 31) + (23 - 23) * (23 - 23) > 5 * 5) by (nonlinear_arith)
            requires lx == 17 + sh, -3 <= sh <= 3;
        assert((lx - (31 + sh)) * (lx - (31 + sh)) + (23 - 23) * (23 - 23) > 2 * 2) by (nonlinear_arith)
            requires lx == 17 + sh;
        lemma_shown_push(b4, p1, lx, 23);
        lemma_shown_push(b5, w2, lx, 23);
        lemma_shown_push(b6, p2, lx, 23);
        // the right pupil, drawn last
        let rx = 31 + sh;
        assert((rx - (31 + sh)) * (rx - (31 + sh)) + (23 - 23) * (23 - 23) <= 2 * 2) by (nonlinear_arith)
            requires rx == 31 + sh;
        lemma_shown_push(b6, p2, rx, 23);
    }
}

/// The shapes of one animation frame of the creature, in drawing order.
pub fn creature_shapes(blink: bool, pupil_shift: i32) -> (shapes: Vec<Shape>)
    requires
        i32::MIN <= 17 + pupil_shift,
        31 + pupil_shift <= i32::MAX,
    ensures
        shapes@ == creature_spec(blink, pupil_shift as int),
        shapes@[1] == (Shape::Circle { cx: 24, cy: 27, r: 17, color: Color { r: 85, g: 185, b: 95, a: 255 } }),
        shapes@[2] == (Shape::Circle { cx: 18, cy: 20, r: 6, color: Color { r: 140, g: 225, b: 145, a: 255 } }),
        shown(shapes@, 14, 16) == Some(Color { r: 140, g: 225, b: 145, a: 255 }),
        -3 <= pupil_shift <= 3 ==> shown(shapes@, 24, 27) == Some(Color { r: 85, g: 185, b: 95, a: 255 }),
        -3 <= pupil_shift <= 3 ==> shown(shapes@, 24, 47) == Some(Color { r: 35, g: 100, b: 55, a: 255 }),
        -3 <= pupil_shift <= 3 && !blink ==> shown(shapes@, 17 + pupil_shift, 23) == Some(
            Color { r: 10, g: 10, b: 15, a: 255 },
        ),
{
    let cx: i32 = 24;
    let cy: i32 = 27;
    let mut shapes: Vec<Shape> = vec![
        Shape::Circle { cx, cy: cy + 2, r: 19, color: Color::new(35, 100, 55, 255) },
        Shape::Circle { cx, cy, r: 17, color: Color::new(85, 185, 95, 255) },
        Shape::Circle { cx: cx - 6, cy: cy - 7, r: 6, color: Color::new(140, 225, 145, 255) },
    ];
    let eye_y: i32 = cy - 4;
    let ghost base = shapes@;
    let eyes: [i32; 2] = [cx - 7, cx + 7];
    let mut e: usize = 0;
    while e < 2
        invariant
            e <= 2,
            eyes@ == seq![17i32, 31i32],
            eye_y == 23,
            i32::MIN <= 17 + pupil_shift,
            31 + pupil_shift <= i32::MAX,
            e == 0 ==> shapes@ == base,
            e == 1 ==> shapes@ == base + creature_eye(17, blink, pupil_shift as int),
            e == 2 ==> shapes@ == base + creature_eye(17, blink, pupil_shift as int) + creature_eye(
                31,
                blink,
                pupil_shift as int,
            ),
        decreases 2 - e,
    {
        let ex = eyes[e];
        let ghost before = shapes@;
        if blink {
            shapes.push(Shape::Rect { x: ex - 4, y: eye_y - 1, w: 8, h: 2, color: Color::new(20, 45, 25, 255) });
        } else {
            shapes.push(Shape::Circle { cx: ex, cy: eye_y, r: 5, color: Color::new(250, 250, 240, 255) });
            shapes.push(Shape::Circle { cx: ex + pupil_shift, cy: eye_y, r: 2, color: Color::new(10, 10, 15, 255) });
        }
        assert(shapes@ =~= before + creature_eye(ex as int, blink, pupil_shift as int));
        e = e + 1;
    }
    assert(base =~= creature_spec(blink, pupil_shift as int).take(3));
    assert(shapes@ =~= creature_spec(blink, pupil_shift as int));
    proof {
        lemma_creature_highlight(blink, pupil_shift as int, 0, 0);
        if -3 <= pupil_shift <= 3 {
            lemma_creature_picture(blink, pupil_shift as int);
        }
    }
    shapes
}

} // verus!
