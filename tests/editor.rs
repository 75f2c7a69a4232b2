use retro_fps::input::{InputState, MouseButton};
use retro_fps::level::Level;
use retro_fps::level_editor::{handle_mouse_input_editor, search_for_sprite_at_positon};
use retro_fps::level_editor_menu::{EditorMode, LevelEditorMenu};
use retro_fps::invert_tile;
use retro_fps::sprite::Sprite;

fn click(buttons: &[MouseButton], x: i32, y: i32) -> InputState {
    let mut input = InputState::new();
    input.update(&[], buttons, x, y);
    input
}

#[test]
fn invert_tile_toggles() {
    assert_eq!(invert_tile(0, 3), 3);
    assert_eq!(invert_tile(3, 3), 0);
    assert_eq!(invert_tile(7, 3), 0);
    assert_eq!(invert_tile(0, 0), 0);
}

#[test]
fn search_finds_the_first_match() {
    let mut level = Level::new(4, 4);
    level.place_sprite(Sprite::new(1.5f64.to_bits(), 2.5f64.to_bits(), 1));
    level.place_sprite(Sprite::new(0.5f64.to_bits(), 0.5f64.to_bits(), 2));
    level.place_sprite(Sprite::new(0.5f64.to_bits(), 0.5f64.to_bits(), 3));
    assert_eq!(search_for_sprite_at_positon(&level, 0.5f64.to_bits(), 0.5f64.to_bits()), Some(1));
    assert_eq!(search_for_sprite_at_positon(&level, 1.5f64.to_bits(), 2.5f64.to_bits()), Some(0));
    assert_eq!(search_for_sprite_at_positon(&level, 2.5f64.to_bits(), 2.5f64.to_bits()), None);
}

#[test]
fn search_compares_zeros_as_equal() {
    let mut level = Level::new(4, 4);
    level.place_sprite(Sprite::new((-0.0f64).to_bits(), 1.0f64.to_bits(), 1));
    assert_eq!(search_for_sprite_at_positon(&level, 0.0f64.to_bits(), 1.0f64.to_bits()), Some(0));
}

#[test]
fn left_click_toggles_a_tile() {
    let mut level = Level::new(4, 4);
    let input = click(&[MouseButton::Left], 40, 20);
    handle_mouse_input_editor(&mut level, &input, 6, &EditorMode::Tiles);
    assert_eq!(level.get_tile(2, 1), 6);
    handle_mouse_input_editor(&mut level, &input, 6, &EditorMode::Tiles);
    assert_eq!(level.get_tile(2, 1), 0);
    assert!(level.sprites().is_empty());
}

#[test]
fn click_outside_the_grid_changes_nothing() {
    let mut level = Level::new(2, 2);
    let input = click(&[MouseButton::Left], 400, 20);
    handle_mouse_input_editor(&mut level, &input, 6, &EditorMode::Tiles);
    assert_eq!(level.level_data_bytes(), &[0u8; 4][..]);
}

#[test]
fn negative_pointer_rounds_toward_zero() {
    let mut level = Level::new(2, 2);
    let input = click(&[MouseButton::Left], -5, -15);
    handle_mouse_input_editor(&mut level, &input, 2, &EditorMode::Tiles);
    assert_eq!(level.get_tile(0, 0), 2);
    let right = click(&[MouseButton::Right], -17, 3);
    handle_mouse_input_editor(&mut level, &right, 2, &EditorMode::Tiles);
    assert_eq!(f64::from_bits(level.spawnx()), -0.5);
    assert_eq!(f64::from_bits(level.spawny()), 0.5);
}

#[test]
fn left_click_toggles_a_sprite() {
    let mut level = Level::new(4, 4);
    let input = click(&[MouseButton::Left], 50, 10);
    handle_mouse_input_editor(&mut level, &input, 4, &EditorMode::Sprites);
    assert_eq!(
        level.sprites(),
        &vec![Sprite::new(3.5f64.to_bits(), 0.5f64.to_bits(), 4)]
    );
    handle_mouse_input_editor(&mut level, &input, 4, &EditorMode::Sprites);
    assert!(level.sprites().is_empty());
    assert_eq!(level.level_data_bytes(), &[0u8; 16][..]);
}

#[test]
fn right_click_moves_the_spawn() {
    let mut level = Level::new(4, 4);
    let input = click(&[MouseButton::Right], 33, 63);
    handle_mouse_input_editor(&mut level, &input, 1, &EditorMode::Tiles);
    assert_eq!(f64::from_bits(level.spawnx()), 2.5);
    assert_eq!(f64::from_bits(level.spawny()), 3.5);
    assert_eq!(level.get_tile(2, 3), 0);
}

#[test]
fn no_click_changes_nothing() {
    let mut level = Level::new(4, 4);
    let mut input = click(&[MouseButton::Left], 20, 20);
    input.update(&[], &[MouseButton::Left], 20, 20);
    handle_mouse_input_editor(&mut level, &input, 1, &EditorMode::Tiles);
    assert_eq!(level.get_tile(1, 1), 0);
}

#[test]
fn editor_menu_layout() {
    let m = LevelEditorMenu::new();
    assert_eq!((m.menu.x(), m.menu.y(), m.menu.width()), (640, 0, 320));
    let ids: Vec<String> = m.menu.children.iter().map(|c| c.id.clone().unwrap()).collect();
    assert_eq!(ids, vec!["play_button", "save_button", "load_button", "tile_button", "sprite_button"]);
    assert_eq!((m.menu.children[0].x(), m.menu.children[0].y()), (16, 592));
    assert_eq!((m.menu.children[2].x(), m.menu.children[2].y()), (152, 552));
    assert_eq!((m.menu.children[4].x(), m.menu.children[4].y()), (112, 48));
    assert_eq!(m.menu.text[0].text, "Level Editor");
    assert_eq!(m.selected, 1);
    assert_eq!(m.icon_sz, 32);
    assert_eq!(m.editor_mode, EditorMode::Tiles);
}

#[test]
fn menu_buttons_answer_clicks() {
    let m = LevelEditorMenu::new();
    let input = click(&[MouseButton::Left], 640 + 20, 600);
    assert_eq!(m.menu.get_clicked(&input, MouseButton::Left), Some("play_button".to_string()));
    let input = click(&[MouseButton::Left], 640 + 160, 560);
    assert_eq!(m.menu.get_clicked(&input, MouseButton::Left), Some("load_button".to_string()));
    let input = click(&[MouseButton::Left], 640 + 160, 300);
    assert_eq!(m.menu.get_clicked(&input, MouseButton::Left), None);
}

#[test]
fn palette_rows_wrap() {
    let m = LevelEditorMenu::new();
    let icons = m.palette_icons(12, &InputState::new());
    assert_eq!(icons.len(), 12);
    assert_eq!((icons[0].rect.x(), icons[0].rect.y()), (656, 96));
    assert_eq!((icons[8].rect.x(), icons[8].rect.y()), (640 + 272, 96));
    assert_eq!((icons[9].rect.x(), icons[9].rect.y()), (656, 128));
    assert_eq!(icons[11].rect.width(), 32);
}

#[test]
fn palette_marks_selected_and_hovered() {
    let mut m = LevelEditorMenu::new();
    m.selected = 3;
    let input = click(&[], 656 + 32 + 1, 97);
    let icons = m.palette_icons(4, &input);
    let marks: Vec<(bool, bool)> = icons.iter().map(|i| (i.selected, i.hovered)).collect();
    assert_eq!(marks, vec![(false, false), (false, true), (true, false), (false, false)]);
}

#[test]
fn large_icons_still_lay_out() {
    let mut m = LevelEditorMenu::new();
    m.icon_sz = 300;
    let icons = m.palette_icons(3, &InputState::new());
    assert_eq!((icons[0].rect.x(), icons[0].rect.y()), (656, 96));
    assert_eq!((icons[1].rect.x(), icons[1].rect.y()), (656, 396));
    assert_eq!((icons[2].rect.x(), icons[2].rect.y()), (656, 696));
    m.handle_mouse_input(&click(&[MouseButton::Left], 660, 400), 3);
    assert_eq!(m.selected, 2);
}

#[test]
fn clicking_an_icon_selects_it() {
    let mut m = LevelEditorMenu::new();
    m.handle_mouse_input(&click(&[MouseButton::Left], 656 + 32 + 5, 100), 12);
    assert_eq!(m.selected, 2);
    m.handle_mouse_input(&click(&[MouseButton::Left], 656 + 5, 130), 12);
    assert_eq!(m.selected, 10);
    m.handle_mouse_input(&click(&[MouseButton::Left], 656 + 5, 130), 9);
    assert_eq!(m.selected, 10);
    m.handle_mouse_input(&click(&[MouseButton::Right], 656 + 5, 100), 12);
    assert_eq!(m.selected, 10);
}
