use vstd::prelude::*;

verus! {

pub const MAP_WIDTH: usize = 16;
pub const MAP_HEIGHT: usize = 16;

/// The first level's layout, row by row: `0` is floor, `1` to `4` are wall kinds.
pub const LEVEL_1: [[u8; MAP_WIDTH]; MAP_HEIGHT] = [
    [1,1,1,1,1,1,1,1,1,1,1,1,1,1,1,1],
    [1,0,0,0,0,0,0,0,0,2,2,2,0,0,0,1],
    [1,0,1,1,1,0,0,0,0,2,0,2,0,0,0,1],
    [1,0,1,0,0,0,0,0,0,2,0,2,0,0,0,1],
    [1,0,1,0,3,3,3,0,0,2,0,2,0,0,0,1],
    [1,0,0,0,3,0,3,0,0,0,0,0,0,0,0,1],
    [1,0,0,0,3,0,3,0,0,0,0,0,0,4,0,1],
    [1,0,0,0,3,3,3,0,0,0,0,0,0,4,0,1],
    [1,0,0,0,0,0,0,0,0,0,0,0,0,4,0,1],
    [1,0,0,0,0,0,1,1,1,0,0,0,0,4,0,1],
    [1,0,0,0,0,0,1,0,0,0,0,0,0,0,0,1],
    [1,0,0,0,0,0,1,0,2,2,0,3,3,0,0,1],
    [1,0,0,0,0,0,0,0,0,0,0,0,0,0,0,1],
    [1,0,0,0,0,0,0,0,0,0,0,0,0,0,0,1],
    [1,0,0,0,0,0,0,0,0,0,0,0,0,0,0,1],
    [1,1,1,1,1,1,1,1,1,1,1,1,1,1,1,1],
];

// A second, more open layout.
/// The second level's layout, row by row: `0` is floor, `1` to `4` are wall kinds.
pub const LEVEL_2: [[u8; MAP_WIDTH]; MAP_HEIGHT] = [
    [1,1,1,1,1,1,1,1,1,1,1,1,1,1,1,1],
    [1,0,0,0,0,0,0,0,0,0,0,0,0,0,0,1],
    [1,0,2,2,2,2,0,0,0,0,3,3,3,3,0,1],
    [1,0,2,0,0,2,0,0,0,0,3,0,0,3,0,1],
    [1,0,2,0,0,2,0,0,0,0,3,0,0,3,0,1],
    [1,0,2,2,0,2,0,0,0,0,3,2,0,3,0,1],
    [1,0,0,0,0,0,0,0,0,0,0,0,0,0,0,1],
    [1,0,0,0,4,4,4,4,4,4,0,0,0,0,0,1],
    [1,0,0,0,4,0,0,0,0,4,0,0,0,0,0,1],
    [1,0,0,0,4,0,0,0,0,4,0,0,0,0,0,1],
    [1,0,0,0,4,4,0,0,4,4,0,0,0,0,0,1],
    [1,0,0,0,0,0,0,0,0,0,0,0,0,0,0,1],
    [1,0,3,0,0,0,0,0,0,0,0,0,2,0,0,1],
    [1,0,0,0,0,0,0,0,0,0,0,0,0,0,0,1],
    [1,0,0,0,0,0,0,0,0,0,0,0,0,0,0,1],
    [1,1,1,1,1,1,1,1,1,1,1,1,1,1,1,1],
];

/// The value stored in the grid at column `x`, row `y`.
pub open spec fn cell(grid: [[u8; MAP_WIDTH]; MAP_HEIGHT], x: int, y: int) -> u8 {
    grid@[y]@[x]
}

pub open spec fn in_map(x: int, y: int) -> bool {
    0 <= x < MAP_WIDTH && 0 <= y < MAP_HEIGHT
}

/// The wall kind at `(x, y)`: the grid's value inside the map, kind `1` outside it.
pub open spec fn tile_at(grid: [[u8; MAP_WIDTH]; MAP_HEIGHT], x: int, y: int) -> u8 {
    if in_map(x, y) {
        cell(grid, x, y)
    } else {
        1
    }
}

/// Whether `(x, y)` blocks movement and rays: any point outside the map, or a
/// non-zero cell inside it.
pub open spec fn blocks(grid: [[u8; MAP_WIDTH]; MAP_HEIGHT], x: int, y: int) -> bool {
    !in_map(x, y) || cell(grid, x, y) != 0
}

/// Every cell on the map's outer border is a wall.
pub open spec fn border_is_wall(grid: [[u8; MAP_WIDTH]; MAP_HEIGHT]) -> bool {
    &&& forall|x: int|
        0 <= x < MAP_WIDTH ==> #[trigger] cell(grid, x, 0) != 0 && cell(grid, x, MAP_HEIGHT - 1) != 0
    &&& forall|y: int|
        0 <= y < MAP_HEIGHT ==> #[trigger] cell(grid, 0, y) != 0 && cell(grid, MAP_WIDTH - 1, y) != 0
}

/// Whether the cell at `(x, y)` is a wall; everything outside the map counts as wall.
pub fn is_wall(grid: &[[u8; MAP_WIDTH]; MAP_HEIGHT], x: i32, y: i32) -> (w: bool)
    ensures
        w == blocks(*grid, x as int, y as int),
        !in_map(x as int, y as int) ==> w,
{
    if x < 0 || y < 0 || x as usize >= MAP_WIDTH || y as usize >= MAP_HEIGHT {
        return true;
    }
    grid[y as usize][x as usize] != 0
}

/// The wall kind at `(x, y)`: `0` for floor, the grid's value for a wall, and `1`
/// for any point outside the map.
pub fn wall_type_at(grid: &[[u8; MAP_WIDTH]; MAP_HEIGHT], x: i32, y: i32) -> (t: u8)
    ensures
        t == tile_at(*grid, x as int, y as int),
{
    if x < 0 || y < 0 || x as usize >= MAP_WIDTH || y as usize >= MAP_HEIGHT {
        return 1;
    }
    grid[y as usize][x as usize]
}

/// A point is a wall exactly when its wall kind is not floor.
pub proof fn lemma_wall_iff_kind(grid: [[u8; MAP_WIDTH]; MAP_HEIGHT], x: int, y: int)
    ensures
        blocks(grid, x, y) == (tile_at(grid, x, y) != 0),
{
}

/// Whether any of the given cells is a wall (outside the map counts as wall).
pub fn any_wall(grid: &[[u8; MAP_WIDTH]; MAP_HEIGHT], cells: &[(i32, i32)]) -> (hit: bool)
    ensures
        hit == exists|k: int| 0 <= k < cells@.len() && #[trigger] blocks(*grid, cells@[k].0 as int, cells@[k].1 as int),
{
    let mut k: usize = 0;
    while k < cells.len()
        invariant
            k <= cells@.len(),
            forall|m: int| 0 <= m < k ==> !#[trigger] blocks(*grid, cells@[m].0 as int, cells@[m].1 as int),
        decreases cells@.len() - k,
    {
        let (cx, cy) = cells[k];
        if is_wall(grid, cx, cy) {
            return true;
        }
        k = k + 1;
    }
    false
}

/// A playable level: its layout, display name, where the player starts and the goal cell.
///
/// Positions are in thousandths of a cell and angles in thousandths of a radian.
pub struct Level {
    pub grid: [[u8; MAP_WIDTH]; MAP_HEIGHT],
    pub name: &'static str,
    pub player_start_milli: (u32, u32),
    pub player_start_angle_milli: i32,
    /// The cell `(column, row)` that completes the level when the player steps on it.
    pub goal_tile: (usize, usize),
}

/// The cell `(column, row)` in which a level's player starts.
pub open spec fn start_tile(l: Level) -> (int, int) {
    (l.player_start_milli.0 as int / 1000, l.player_start_milli.1 as int / 1000)
}

/// The goal cell of a level is floor, so that the player can step on it.
pub open spec fn goal_on_floor(l: Level) -> bool {
    cell(l.grid, l.goal_tile.0 as int, l.goal_tile.1 as int) == 0
}

/// A level is closed by walls on its border, starts the player on a floor cell inside
/// the map, and has its goal on a floor cell inside the map.
pub open spec fn level_well_formed(l: Level) -> bool {
    &&& border_is_wall(l.grid)
    &&& in_map(start_tile(l).0, start_tile(l).1)
    &&& cell(l.grid, start_tile(l).0, start_tile(l).1) == 0
    &&& in_map(l.goal_tile.0 as int, l.goal_tile.1 as int)
    &&& goal_on_floor(l)
}

/// The levels of the game, in menu order.
pub open spec fn levels() -> Seq<Level> {
    seq![
        Level {
            grid: LEVEL_1,
            name: "Nivel 1: Los Pasillos",
            player_start_milli: (2500, 1500),
            player_start_angle_milli: 0,
            goal_tile: (14, 7),
        },
        Level {
            grid: LEVEL_2,
            name: "Nivel 2: La Arena",
            player_start_milli: (7500, 13500),
            player_start_angle_milli: 0,
            goal_tile: (6, 8),
        },
    ]
}

pub fn get_levels() -> (ls: Vec<Level>)
    ensures
        ls@ == levels(),
{
    let ls = vec![
        Level {
            grid: LEVEL_1,
            name: "Nivel 1: Los Pasillos",
            player_start_milli: (2500, 1500),
            player_start_angle_milli: 0,
            goal_tile: (14, 7),
        },
        Level {
            grid: LEVEL_2,
            name: "Nivel 2: La Arena",
            player_start_milli: (7500, 13500),
            player_start_angle_milli: 0,
            goal_tile: (6, 8),
        },
    ];
    assert(ls@ =~= levels());
    ls
}

/// Every level is walled in, starts the player on floor, and has its goal on a floor
/// cell of the map.
pub proof fn lemma_levels_well_formed()
    ensures
        forall|i: int| 0 <= i < levels().len() ==> level_well_formed(#[trigger] levels()[i]),
{
    assert(level_well_formed(levels()[0]));
    assert(level_well_formed(levels()[1]));
}

/// The levels differ from one another in layout, start cell and goal cell.
pub proof fn lemma_levels_distinct()
    ensures
        forall|i: int, j: int|
            0 <= i < j < levels().len() ==> {
                &&& #[trigger] levels()[i].grid != #[trigger] levels()[j].grid
                &&& start_tile(levels()[i]) != start_tile(levels()[j])
                &&& levels()[i].goal_tile != levels()[j].goal_tile
            },
{
    assert(cell(levels()[0].grid, 9, 1) != cell(levels()[1].grid, 9, 1));
}

} // verus!
