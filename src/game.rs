use vstd::prelude::*;
use crate::input::{ButtonState, InputState, KEY_DOWN, KEY_LEFT, KEY_RIGHT, KEY_UP};
use crate::level::Level;
use crate::level_editor_menu::{EditorMode, LevelEditorMenu};
use crate::sprite::Position;

verus! {

/// Whether the level is being edited or played.
#[derive(Clone, Copy, Debug, PartialEq, Eq, Structural)]
pub enum GameMode {
    Editor,
    Game,
}

/// The outcome of a mode switch: the new mode, and where the camera is
/// to be put back (facing angle 0) when play starts.
#[derive(Clone, Copy, Debug, PartialEq, Eq, Structural)]
pub struct ModeSwitch {
    pub mode: GameMode,
    pub camera_reset: Option<Position>,
}

/// Editor becomes game, with the camera at the level's spawn point;
/// game becomes editor, the camera left where it is.
pub fn switch_modes(game_mode: &GameMode, level: &Level) -> (r: ModeSwitch)
    ensures
        *game_mode == GameMode::Editor ==> r == (ModeSwitch {
            mode: GameMode::Game,
            camera_reset: Some(Position { x: level@.spawnx, y: level@.spawny }),
        }),
        *game_mode == GameMode::Game ==> r == (ModeSwitch {
            mode: GameMode::Editor,
            camera_reset: None,
        }),
{
    match game_mode {
        GameMode::Editor => ModeSwitch {
            mode: GameMode::Game,
            camera_reset: Some(Position { x: level.spawnx(), y: level.spawny() }),
        },
        GameMode::Game => ModeSwitch { mode: GameMode::Editor, camera_reset: None },
    }
}

/// What the keys ask of one motion of the camera.
#[derive(Clone, Copy, Debug, PartialEq, Eq, Structural)]
pub enum AxisInput {
    /// Forward, or turning right.
    Positive,
    /// Backward, or turning left.
    Negative,
    /// Neither key is down.
    Stop,
    /// Keep the current speed.
    Keep,
}

/// `Positive` or `Negative`, as `positive` says.
pub open spec fn direction(positive: bool) -> AxisInput {
    if positive {
        AxisInput::Positive
    } else {
        AxisInput::Negative
    }
}

/// One motion driven by two keys, read in order: a click on `first` wins,
/// then a click on `second`; with neither key down the motion stops; a key
/// held since an earlier frame keeps it as it is. `first_positive` says
/// which way `first` drives the motion; `second` drives it the other way.
pub open spec fn axis_input(input: InputState, first: u32, second: u32, first_positive: bool) -> AxisInput {
    if input@.key(first as int) == ButtonState::Clicked {
        direction(first_positive)
    } else if input@.key(second as int) == ButtonState::Clicked {
        direction(!first_positive)
    } else if input@.key(first as int) == ButtonState::Released && input@.key(second as int)
        == ButtonState::Released {
        AxisInput::Stop
    } else {
        AxisInput::Keep
    }
}

/// Up, then down: forward or backward.
pub open spec fn drive_input(input: InputState) -> AxisInput {
    axis_input(input, KEY_UP, KEY_DOWN, true)
}

/// Left, then right: a left turn or a right turn.
pub open spec fn turn_input(input: InputState) -> AxisInput {
    axis_input(input, KEY_LEFT, KEY_RIGHT, false)
}

fn read_axis(input: &InputState, first: u32, second: u32, first_positive: bool) -> (r: AxisInput)
    requires
        input@.wf(),
    ensures
        r == axis_input(*input, first, second, first_positive),
{
    let (first_dir, second_dir) = if first_positive {
        (AxisInput::Positive, AxisInput::Negative)
    } else {
        (AxisInput::Negative, AxisInput::Positive)
    };
    if input.key_is_clicked(first) {
        first_dir
    } else if input.key_is_clicked(second) {
        second_dir
    } else if !input.key_is_held(first) && !input.key_is_held(second) {
        AxisInput::Stop
    } else {
        AxisInput::Keep
    }
}

/// The camera's motions that the arrow keys ask for.
#[derive(Clone, Copy, Debug, PartialEq, Eq, Structural)]
pub struct CameraControl {
    /// Up is forward, down is backward.
    pub drive: AxisInput,
    /// Left turns left (negative), right turns right (positive).
    pub turn: AxisInput,
}

pub fn camera_control(input: &InputState) -> (r: CameraControl)
    requires
        input@.wf(),
    ensures
        r.drive == drive_input(*input),
        r.turn == turn_input(*input),
{
    CameraControl {
        drive: read_axis(input, KEY_UP, KEY_DOWN, true),
        turn: read_axis(input, KEY_LEFT, KEY_RIGHT, false),
    }
}

/// Which of a ray's two candidate hits is kept: the one on a horizontal
/// grid line when it is strictly nearer and holds a wall, or when the one
/// on a vertical grid line holds none; else the vertical one.
pub fn prefer_horizontal(horizontal_nearer: bool, horizontal_tile: u8, vertical_tile: u8) -> (r:
    bool)
    ensures
        r == ((horizontal_nearer && horizontal_tile != 0) || vertical_tile == 0),
{
    (horizontal_nearer && horizontal_tile != 0) || vertical_tile == 0
}

/// What a click in the editor's panel asks for.
#[derive(Clone, Copy, Debug, PartialEq, Eq, Structural)]
pub enum MenuAction {
    Play,
    Save,
    Load,
    SpriteMode,
    TileMode,
    Nothing,
}

pub open spec fn action_of(id: Seq<char>) -> MenuAction {
    if id == "play_button"@ {
        MenuAction::Play
    } else if id == "save_button"@ {
        MenuAction::Save
    } else if id == "load_button"@ {
        MenuAction::Load
    } else if id == "sprite_button"@ {
        MenuAction::SpriteMode
    } else if id == "tile_button"@ {
        MenuAction::TileMode
    } else {
        MenuAction::Nothing
    }
}

/// The action of the button with id `clicked`; no button, or one without
/// an action, asks for nothing.
pub fn menu_action(clicked: &Option<String>) -> (r: MenuAction)
    ensures
        r == match clicked {
            Some(id) => action_of(id@),
            None => MenuAction::Nothing,
        },
{
    match clicked {
        None => MenuAction::Nothing,
        Some(id) => {
            if *id == "play_button".to_owned() {
                MenuAction::Play
            } else if *id == "save_button".to_owned() {
                MenuAction::Save
            } else if *id == "load_button".to_owned() {
                MenuAction::Load
            } else if *id == "sprite_button".to_owned() {
                MenuAction::SpriteMode
            } else if *id == "tile_button".to_owned() {
                MenuAction::TileMode
            } else {
                MenuAction::Nothing
            }
        },
    }
}

impl LevelEditorMenu {
    /// Shows the palette of `mode`, its first icon selected.
    pub fn select_palette(&mut self, mode: EditorMode)
        ensures
            final(self).selected == 1,
            final(self).editor_mode == mode,
            final(self).menu == old(self).menu,
            final(self).icon_sz == old(self).icon_sz,
    {
        self.selected = 1;
        self.editor_mode = mode;
    }
}

} // verus!
