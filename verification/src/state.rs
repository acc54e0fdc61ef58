use vstd::prelude::*;

use crate::map::Level;

verus! {

/// The screens of the game.
#[derive(PartialEq, Eq, Structural, Clone, Copy, Debug)]
pub enum GameState {
    Welcome,
    LevelSelect,
    Playing,
    Success,
}

/// What the player did during one frame, as read from the keyboard and mouse.
#[derive(Clone, Copy, Debug)]
pub struct FrameInput {
    pub enter: bool,
    pub space: bool,
    pub up: bool,
    pub down: bool,
    pub escape: bool,
    /// The minimap key (`M`).
    pub map_key: bool,
    pub mouse_left: bool,
    /// The cell `(column, row)` the player stands on after this frame's movement.
    pub player_tile: (usize, usize),
}

/// A change of the mouse cursor that the frame calls for.
#[derive(PartialEq, Eq, Structural, Clone, Copy, Debug)]
pub enum CursorChange {
    Keep,
    /// Hide the cursor and centre it: the game takes the mouse.
    Capture,
    /// Show the cursor again.
    Release,
}

/// What the game loop has to carry out after a frame's decisions.
#[derive(PartialEq, Eq, Structural, Clone, Copy, Debug)]
pub struct FrameActions {
    /// Put the player at the current level's start and spawn its creatures anew.
    pub start_level: bool,
    /// Start the demo recording and the background music.
    pub start_recording: bool,
    /// Fire the weapon.
    pub shoot: bool,
    pub cursor: CursorChange,
}

/// The game's screen, menu and mode flags, as they stand between frames.
#[derive(PartialEq, Eq, Structural, Clone, Copy, Debug)]
pub struct Session {
    pub state: GameState,
    pub level_count: usize,
    pub current_level: usize,
    /// The level highlighted in the level menu.
    pub selected: usize,
    pub has_recorded_once: bool,
    pub minimap_fullscreen: bool,
    pub cursor_locked: bool,
}

/// The menu entry below `sel`, wrapping around to the first.
pub open spec fn menu_next(sel: int, n: int) -> int {
    (sel + 1) % n
}

/// The menu entry above `sel`, wrapping around to the last.
pub open spec fn menu_prev(sel: int, n: int) -> int {
    (sel + n - 1) % n
}

/// The wrapped menu moves in closed form.
pub proof fn lemma_menu_moves(sel: int, n: int)
    requires
        0 <= sel < n,
    ensures
        menu_next(sel, n) == (if sel + 1 == n { 0 } else { sel + 1 }),
        menu_prev(sel, n) == (if sel == 0 { n - 1 } else { sel - 1 }),
{
    if sel + 1 == n {
        vstd::arithmetic::div_mod::lemma_fundamental_div_mod_converse_mod(sel + 1, n, 1, 0);
    } else {
        vstd::arithmetic::div_mod::lemma_fundamental_div_mod_converse_mod(sel + 1, n, 0, sel + 1);
    }
    if sel == 0 {
        vstd::arithmetic::div_mod::lemma_fundamental_div_mod_converse_mod(sel + n - 1, n, 0, n - 1);
    } else {
        vstd::arithmetic::div_mod::lemma_fundamental_div_mod_converse_mod(sel + n - 1, n, 1, sel - 1);
    }
}

/// The state reached after one frame of input, before the cursor is settled.
pub open spec fn next_state(s: Session, goal: (usize, usize), inp: FrameInput) -> GameState {
    match s.state {
        GameState::Welcome => if inp.enter || inp.space {
            GameState::LevelSelect
        } else {
            GameState::Welcome
        },
        GameState::LevelSelect => if inp.enter {
            GameState::Playing
        } else {
            GameState::LevelSelect
        },
        GameState::Playing => if inp.player_tile == goal {
            GameState::Success
        } else if inp.escape {
            GameState::LevelSelect
        } else {
            GameState::Playing
        },
        GameState::Success => if inp.enter {
            GameState::LevelSelect
        } else {
            GameState::Success
        },
    }
}

/// The menu selection after one frame of input.
pub open spec fn next_selected(s: Session, inp: FrameInput) -> int {
    if s.state == GameState::LevelSelect {
        let a = if inp.down { menu_next(s.selected as int, s.level_count as int) } else { s.selected as int };
        if inp.up { menu_prev(a, s.level_count as int) } else { a }
    } else {
        s.selected as int
    }
}

/// Whether this frame starts a level: Enter on the level menu.
pub open spec fn starts_level(s: Session, inp: FrameInput) -> bool {
    s.state == GameState::LevelSelect && inp.enter
}

/// The session after one frame: screen, menu, level, flags and cursor.
pub open spec fn next_session(s: Session, goal: (usize, usize), inp: FrameInput) -> Session {
    let st = next_state(s, goal, inp);
    let sel = next_selected(s, inp);
    Session {
        state: st,
        level_count: s.level_count,
        current_level: if starts_level(s, inp) { sel as usize } else { s.current_level },
        selected: sel as usize,
        has_recorded_once: s.has_recorded_once || starts_level(s, inp),
        minimap_fullscreen: if s.state == GameState::Playing && inp.map_key {
            !s.minimap_fullscreen
        } else {
            s.minimap_fullscreen
        },
        cursor_locked: st == GameState::Playing,
    }
}

/// What the game loop must do after one frame.
pub open spec fn frame_actions(s: Session, goal: (usize, usize), inp: FrameInput) -> FrameActions {
    let st = next_state(s, goal, inp);
    FrameActions {
        start_level: starts_level(s, inp),
        start_recording: starts_level(s, inp) && !s.has_recorded_once,
        shoot: s.state == GameState::Playing && (inp.mouse_left || inp.space),
        cursor: if st == GameState::Playing && !s.cursor_locked {
            CursorChange::Capture
        } else if st != GameState::Playing && s.cursor_locked {
            CursorChange::Release
        } else {
            CursorChange::Keep
        },
    }
}

/// Moving down then up in the level menu, or up then down, returns to the same entry,
/// and both moves stay on the menu.
pub proof fn lemma_menu_roundtrip(sel: int, n: int)
    requires
        0 <= sel < n,
    ensures
        0 <= menu_next(sel, n) < n,
        0 <= menu_prev(sel, n) < n,
        menu_prev(menu_next(sel, n), n) == sel,
        menu_next(menu_prev(sel, n), n) == sel,
{
    lemma_menu_moves(sel, n);
    lemma_menu_moves(menu_next(sel, n), n);
    lemma_menu_moves(menu_prev(sel, n), n);
}

/// The screens follow one another as welcome, level menu, game, success, and back to
/// the level menu.
pub open spec fn screen_flow(from: GameState, to: GameState) -> bool {
    match from {
        GameState::Welcome => to == GameState::Welcome || to == GameState::LevelSelect,
        GameState::LevelSelect => to == GameState::LevelSelect || to == GameState::Playing,
        GameState::Playing => to == GameState::Playing || to == GameState::LevelSelect || to
            == GameState::Success,
        GameState::Success => to == GameState::Success || to == GameState::LevelSelect,
    }
}

/// Every frame moves along the screen flow.
pub proof fn lemma_screen_flow(s: Session, goal: (usize, usize), inp: FrameInput)
    ensures
        screen_flow(s.state, next_session(s, goal, inp).state),
{
}

/// Enter on the level menu plays the highlighted level from its start, and the game
/// takes the mouse.
pub proof fn lemma_enter_plays_selected(s: Session, goal: (usize, usize), inp: FrameInput)
    requires
        s.wf(),
        s.state == GameState::LevelSelect,
        inp.enter,
    ensures
        next_session(s, goal, inp).state == GameState::Playing,
        next_session(s, goal, inp).current_level == next_session(s, goal, inp).selected,
        frame_actions(s, goal, inp).start_level,
        frame_actions(s, goal, inp).cursor == CursorChange::Capture,
{
}

/// Stepping on the goal cell completes the level and releases the mouse; the success
/// screen is reached in no other way.
pub proof fn lemma_goal_completes_level(s: Session, goal: (usize, usize), inp: FrameInput)
    requires
        s.wf(),
    ensures
        s.state == GameState::Playing && inp.player_tile == goal ==> {
            &&& next_session(s, goal, inp).state == GameState::Success
            &&& frame_actions(s, goal, inp).cursor == CursorChange::Release
        },
        next_session(s, goal, inp).state == GameState::Success && s.state != GameState::Success
            ==> s.state == GameState::Playing && inp.player_tile == goal,
{
}

/// Escape during a level goes back to the level menu and releases the mouse (unless the
/// same frame reaches the goal).
pub proof fn lemma_escape_leaves_level(s: Session, goal: (usize, usize), inp: FrameInput)
    requires
        s.wf(),
        s.state == GameState::Playing,
        inp.escape,
        inp.player_tile != goal,
    ensures
        next_session(s, goal, inp).state == GameState::LevelSelect,
        frame_actions(s, goal, inp).cursor == CursorChange::Release,
{
}

/// The demo recording starts at most once: only while none has been started, and from
/// then on never again.
pub proof fn lemma_records_once(s: Session, goal: (usize, usize), inp: FrameInput)
    ensures
        frame_actions(s, goal, inp).start_recording ==> !s.has_recorded_once,
        frame_actions(s, goal, inp).start_recording ==> next_session(s, goal, inp).has_recorded_once,
        s.has_recorded_once ==> next_session(s, goal, inp).has_recorded_once,
        s.has_recorded_once ==> !frame_actions(s, goal, inp).start_recording,
{
}

/// The map key flips the full-screen minimap during a level and leaves it alone
/// otherwise; so two frames with the key, both while playing, restore the mode.
pub proof fn lemma_map_key_toggles(
    s: Session,
    goal: (usize, usize),
    inp: FrameInput,
    inp2: FrameInput,
)
    ensures
        s.state == GameState::Playing && inp.map_key ==> next_session(s, goal, inp).minimap_fullscreen
            != s.minimap_fullscreen,
        !(s.state == GameState::Playing && inp.map_key) ==> next_session(
            s,
            goal,
            inp,
        ).minimap_fullscreen == s.minimap_fullscreen,
        ({
            let s1 = next_session(s, goal, inp);
            s.state == GameState::Playing && inp.map_key && s1.state == GameState::Playing
                && inp2.map_key ==> next_session(s1, goal, inp2).minimap_fullscreen
                == s.minimap_fullscreen
        }),
{
}

/// The weapon fires only during a level.
pub proof fn lemma_shoots_only_playing(s: Session, goal: (usize, usize), inp: FrameInput)
    ensures
        frame_actions(s, goal, inp).shoot ==> s.state == GameState::Playing,
{
}

impl Session {
    /// The level count is positive, the current and highlighted levels exist, and the
    /// cursor is captured exactly while a level is being played.
    pub open spec fn wf(&self) -> bool {
        &&& 0 < self.level_count
        &&& self.current_level < self.level_count
        &&& self.selected < self.level_count
        &&& self.cursor_locked == (self.state == GameState::Playing)
    }

    /// The session at start-up: the welcome screen, with the first level current.
    pub fn new(level_count: usize) -> (s: Session)
        requires
            0 < level_count,
        ensures
            s.wf(),
            s == (Session {
                state: GameState::Welcome,
                level_count,
                current_level: 0,
                selected: 0,
                has_recorded_once: false,
                minimap_fullscreen: false,
                cursor_locked: false,
            }),
    {
        Session {
            state: GameState::Welcome,
            level_count,
            current_level: 0,
            selected: 0,
            has_recorded_once: false,
            minimap_fullscreen: false,
            cursor_locked: false,
        }
    }

    /// Takes one frame's decisions: moves between screens, the menu selection, the
    /// minimap mode and the cursor, and says what the game loop has to carry out.
    pub fn step(&mut self, levels: &[Level], input: &FrameInput) -> (actions: FrameActions)
        requires
            old(self).wf(),
            levels@.len() == old(self).level_count,
        ensures
            final(self).wf(),
            *final(self) == next_session(
                *old(self),
                levels@[old(self).current_level as int].goal_tile,
                *input,
            ),
            actions == frame_actions(
                *old(self),
                levels@[old(self).current_level as int].goal_tile,
                *input,
            ),
            old(self).state == GameState::Playing && input.map_key ==> final(self).minimap_fullscreen
                == !old(self).minimap_fullscreen,
            !(old(self).state == GameState::Playing && input.map_key) ==> final(self).minimap_fullscreen
                == old(self).minimap_fullscreen,
    {
        let count = self.level_count;
        let mut start_level = false;
        let mut start_recording = false;
        let mut shoot = false;
        match self.state {
            GameState::Welcome => {
                if input.enter || input.space {
                    self.state = GameState::LevelSelect;
                }
            },
            GameState::LevelSelect => {
                proof {
                    lemma_menu_moves(self.selected as int, count as int);
                }
                if input.down {
                    self.selected = (self.selected + 1) % count;
                }
                proof {
                    lemma_menu_moves(self.selected as int, count as int);
                }
                if input.up {
                    // the entry above, wrapping: (selected + count - 1) % count
                    self.selected = if self.selected == 0 { count - 1 } else { self.selected - 1 };
                }
                if input.enter {
                    self.current_level = self.selected;
                    start_level = true;
                    self.state = GameState::Playing;
                    if !self.has_recorded_once {
                        self.has_recorded_once = true;
                        start_recording = true;
                    }
                }
            },
            GameState::Playing => {
                if input.escape {
                    self.state = GameState::LevelSelect;
                }
                if input.map_key {
                    self.minimap_fullscreen = !self.minimap_fullscreen;
                }
                if input.mouse_left || input.space {
                    shoot = true;
                }
                let goal = levels[self.current_level].goal_tile;
                if input.player_tile.0 == goal.0 && input.player_tile.1 == goal.1 {
                    self.state = GameState::Success;
                }
            },
            GameState::Success => {
                if input.enter {
                    self.state = GameState::LevelSelect;
                }
            },
        }
        let should_lock = self.state == GameState::Playing;
        let cursor = if should_lock && !self.cursor_locked {
            self.cursor_locked = true;
            CursorChange::Capture
        } else if !should_lock && self.cursor_locked {
            self.cursor_locked = false;
            CursorChange::Release
        } else {
            CursorChange::Keep
        };
        FrameActions { start_level, start_recording, shoot, cursor }
    }
}

} // verus!
