use raycaster::map::{any_wall, get_levels, is_wall, wall_type_at, LEVEL_1, LEVEL_2, MAP_HEIGHT, MAP_WIDTH};

#[test]
fn outside_the_map_is_wall() {
    assert!(is_wall(&LEVEL_1, -1, 0));
    assert!(is_wall(&LEVEL_1, 0, -1));
    assert!(is_wall(&LEVEL_1, 16, 5));
    assert!(is_wall(&LEVEL_1, 5, 16));
    assert!(is_wall(&LEVEL_1, i32::MIN, i32::MAX));
}

#[test]
fn inside_cells_follow_the_grid() {
    assert!(is_wall(&LEVEL_1, 0, 0));
    assert!(!is_wall(&LEVEL_1, 1, 1));
    assert!(is_wall(&LEVEL_1, 9, 1));
    assert!(!is_wall(&LEVEL_2, 6, 8));
    assert!(is_wall(&LEVEL_2, 4, 7));
}

#[test]
fn wall_kinds() {
    assert_eq!(wall_type_at(&LEVEL_1, 13, 7), 4);
    assert_eq!(wall_type_at(&LEVEL_1, 4, 4), 3);
    assert_eq!(wall_type_at(&LEVEL_1, 9, 2), 2);
    assert_eq!(wall_type_at(&LEVEL_1, 1, 1), 0);
    assert_eq!(wall_type_at(&LEVEL_1, -3, 4), 1);
    assert_eq!(wall_type_at(&LEVEL_2, 100, 100), 1);
}

#[test]
fn wall_iff_kind_not_floor() {
    for grid in [LEVEL_1, LEVEL_2] {
        for y in -2..18 {
            for x in -2..18 {
                assert_eq!(is_wall(&grid, x, y), wall_type_at(&grid, x, y) != 0);
            }
        }
    }
}

#[test]
fn any_wall_over_cells() {
    assert!(!any_wall(&LEVEL_1, &[]));
    assert!(!any_wall(&LEVEL_1, &[(1, 1), (2, 1), (1, 2)]));
    assert!(any_wall(&LEVEL_1, &[(1, 1), (0, 0)]));
    assert!(any_wall(&LEVEL_1, &[(-5, 3)]));
    assert!(any_wall(&LEVEL_1, &[(2, 1), (2, 2), (1, 1), (1, 2)]));
}

#[test]
fn the_two_levels() {
    let levels = get_levels();
    assert_eq!(levels.len(), 2);
    assert_eq!(levels[0].name, "Nivel 1: Los Pasillos");
    assert_eq!(levels[1].name, "Nivel 2: La Arena");
    assert_eq!(levels[0].grid, LEVEL_1);
    assert_eq!(levels[1].grid, LEVEL_2);
    assert_eq!(levels[0].goal_tile, (14, 7));
    assert_eq!(levels[1].goal_tile, (6, 8));
    assert_eq!(levels[0].player_start_milli, (2500, 1500));
    assert_eq!(levels[1].player_start_milli, (7500, 13500));
    assert_eq!(levels[0].player_start_angle_milli, 0);
    assert_eq!(levels[1].player_start_angle_milli, 0);
}

#[test]
fn levels_are_walled_in_and_start_on_floor() {
    for level in get_levels() {
        for i in 0..MAP_WIDTH {
            assert_ne!(level.grid[0][i], 0);
            assert_ne!(level.grid[MAP_HEIGHT - 1][i], 0);
        }
        for j in 0..MAP_HEIGHT {
            assert_ne!(level.grid[j][0], 0);
            assert_ne!(level.grid[j][MAP_WIDTH - 1], 0);
        }
        let col = (level.player_start_milli.0 / 1000) as i32;
        let row = (level.player_start_milli.1 / 1000) as i32;
        assert!(!is_wall(&level.grid, col, row));
        assert!(level.goal_tile.0 < MAP_WIDTH && level.goal_tile.1 < MAP_HEIGHT);
    }
}

#[test]
fn goal_cells_are_floor_and_levels_differ() {
    let levels = get_levels();
    for level in &levels {
        let (c, r) = level.goal_tile;
        assert!(c < MAP_WIDTH && r < MAP_HEIGHT);
        assert_eq!(level.grid[r][c], 0);
    }
    assert_ne!(levels[0].grid, levels[1].grid);
    assert_ne!(levels[0].goal_tile, levels[1].goal_tile);
    let tile = |l: &raycaster::map::Level| (l.player_start_milli.0 / 1000, l.player_start_milli.1 / 1000);
    assert_ne!(tile(&levels[0]), tile(&levels[1]));
}
