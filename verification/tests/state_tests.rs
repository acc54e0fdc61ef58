use raycaster::map::get_levels;
use raycaster::state::{CursorChange, FrameInput, GameState, Session};

fn idle(tile: (usize, usize)) -> FrameInput {
    FrameInput {
        enter: false,
        space: false,
        up: false,
        down: false,
        escape: false,
        map_key: false,
        mouse_left: false,
        player_tile: tile,
    }
}

#[test]
fn welcome_to_level_select() {
    let levels = get_levels();
    let mut s = Session::new(levels.len());
    assert_eq!(s.state, GameState::Welcome);
    let a = s.step(&levels, &idle((2, 1)));
    assert_eq!(s.state, GameState::Welcome);
    assert_eq!(a.cursor, CursorChange::Keep);
    let a = s.step(&levels, &FrameInput { space: true, ..idle((2, 1)) });
    assert_eq!(s.state, GameState::LevelSelect);
    assert!(!a.shoot && !a.start_level);
    let mut t = Session::new(levels.len());
    t.step(&levels, &FrameInput { enter: true, ..idle((2, 1)) });
    assert_eq!(t.state, GameState::LevelSelect);
}

#[test]
fn menu_wraps_around() {
    let levels = get_levels();
    let mut s = Session::new(levels.len());
    s.step(&levels, &FrameInput { enter: true, ..idle((2, 1)) });
    s.step(&levels, &FrameInput { down: true, ..idle((2, 1)) });
    assert_eq!(s.selected, 1);
    s.step(&levels, &FrameInput { down: true, ..idle((2, 1)) });
    assert_eq!(s.selected, 0);
    s.step(&levels, &FrameInput { up: true, ..idle((2, 1)) });
    assert_eq!(s.selected, 1);
    s.step(&levels, &FrameInput { up: true, down: true, ..idle((2, 1)) });
    assert_eq!(s.selected, 1);
    let mut three = Session::new(3);
    three.state = GameState::LevelSelect;
    let three_levels = vec![get_levels().remove(0), get_levels().remove(0), get_levels().remove(1)];
    three.step(&three_levels, &FrameInput { up: true, ..idle((0, 0)) });
    assert_eq!(three.selected, 2);
}

#[test]
fn entering_a_level_then_completing_it() {
    let levels = get_levels();
    let mut s = Session::new(levels.len());
    s.step(&levels, &FrameInput { enter: true, ..idle((2, 1)) });
    s.step(&levels, &FrameInput { down: true, ..idle((2, 1)) });
    let a = s.step(&levels, &FrameInput { enter: true, ..idle((2, 1)) });
    assert_eq!(s.state, GameState::Playing);
    assert_eq!(s.current_level, 1);
    assert!(a.start_level);
    assert!(a.start_recording);
    assert_eq!(a.cursor, CursorChange::Capture);
    assert!(s.cursor_locked);

    let a = s.step(&levels, &FrameInput { map_key: true, mouse_left: true, ..idle((3, 3)) });
    assert_eq!(s.state, GameState::Playing);
    assert!(s.minimap_fullscreen);
    assert!(a.shoot);
    assert_eq!(a.cursor, CursorChange::Keep);

    // the second level's goal is (6, 8)
    let a = s.step(&levels, &idle((6, 8)));
    assert_eq!(s.state, GameState::Success);
    assert_eq!(a.cursor, CursorChange::Release);
    assert!(!s.cursor_locked);

    let a = s.step(&levels, &FrameInput { space: true, ..idle((6, 8)) });
    assert_eq!(s.state, GameState::Success);
    assert!(!a.shoot);
    s.step(&levels, &FrameInput { enter: true, ..idle((6, 8)) });
    assert_eq!(s.state, GameState::LevelSelect);
}

#[test]
fn recording_starts_only_once() {
    let levels = get_levels();
    let mut s = Session::new(levels.len());
    s.step(&levels, &FrameInput { enter: true, ..idle((2, 1)) });
    let first = s.step(&levels, &FrameInput { enter: true, ..idle((2, 1)) });
    assert!(first.start_recording);
    s.step(&levels, &FrameInput { escape: true, ..idle((2, 1)) });
    assert_eq!(s.state, GameState::LevelSelect);
    let second = s.step(&levels, &FrameInput { enter: true, ..idle((2, 1)) });
    assert!(second.start_level);
    assert!(!second.start_recording);
    assert!(s.has_recorded_once);
}

#[test]
fn escape_returns_to_menu_and_releases_cursor() {
    let levels = get_levels();
    let mut s = Session::new(levels.len());
    s.step(&levels, &FrameInput { enter: true, ..idle((2, 1)) });
    s.step(&levels, &FrameInput { enter: true, ..idle((2, 1)) });
    assert_eq!(s.current_level, 0);
    let a = s.step(&levels, &FrameInput { escape: true, space: true, ..idle((2, 1)) });
    assert_eq!(s.state, GameState::LevelSelect);
    assert_eq!(a.cursor, CursorChange::Release);
    assert!(a.shoot);
}

#[test]
fn goal_wins_over_escape_in_the_same_frame() {
    let levels = get_levels();
    let mut s = Session::new(levels.len());
    s.step(&levels, &FrameInput { enter: true, ..idle((2, 1)) });
    s.step(&levels, &FrameInput { enter: true, ..idle((2, 1)) });
    s.step(&levels, &FrameInput { escape: true, ..idle((14, 7)) });
    assert_eq!(s.state, GameState::Success);
}
