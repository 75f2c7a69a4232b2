//! A grid raycasting game's core: the tile grid and its level files, the
//! editor's rules, the menu widgets and the input state machine.

pub mod coord;
pub mod game;
pub mod input;
pub mod level;
pub mod level_editor;
pub mod level_editor_menu;
pub mod level_file;
pub mod menu;
pub mod sprite;

pub use level_editor::invert_tile;
