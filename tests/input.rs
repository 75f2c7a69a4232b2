use retro_fps::input::{InputState, MouseButton, KEY_DOWN, KEY_UP};

#[test]
fn fresh_input_has_nothing_down() {
    let input = InputState::new();
    assert!(!input.key_is_clicked(KEY_UP));
    assert!(!input.key_is_held(KEY_UP));
    assert!(!input.mouse_button_is_clicked(MouseButton::Left));
    assert!(!input.mouse_button_is_held(MouseButton::Left));
    assert_eq!(input.mouse_pos(), (0, 0));
}

#[test]
fn key_goes_clicked_held_released() {
    let mut input = InputState::new();
    input.update(&[KEY_UP], &[], 0, 0);
    assert!(input.key_is_clicked(KEY_UP));
    assert!(input.key_is_held(KEY_UP));
    assert!(!input.key_is_held(KEY_DOWN));
    input.update(&[KEY_UP], &[], 0, 0);
    assert!(!input.key_is_clicked(KEY_UP));
    assert!(input.key_is_held(KEY_UP));
    input.update(&[KEY_UP], &[], 0, 0);
    assert!(input.key_is_held(KEY_UP));
    input.update(&[], &[], 0, 0);
    assert!(!input.key_is_clicked(KEY_UP));
    assert!(!input.key_is_held(KEY_UP));
    input.update(&[KEY_UP], &[], 0, 0);
    assert!(input.key_is_clicked(KEY_UP));
}

#[test]
fn repeated_codes_count_once() {
    let mut input = InputState::new();
    input.update(&[KEY_UP, KEY_UP, KEY_UP], &[MouseButton::Left, MouseButton::Left], 0, 0);
    assert!(input.key_is_clicked(KEY_UP));
    assert!(input.mouse_button_is_clicked(MouseButton::Left));
}

#[test]
fn codes_past_the_table_are_ignored() {
    let mut input = InputState::new();
    input.update(&[512, 9999, u32::MAX], &[], 0, 0);
    assert!(!input.key_is_held(512));
    assert!(!input.key_is_clicked(u32::MAX));
}

#[test]
fn mouse_buttons_and_position() {
    let mut input = InputState::new();
    input.update(&[], &[MouseButton::Right], 120, -7);
    assert!(input.mouse_button_is_clicked(MouseButton::Right));
    assert!(!input.mouse_button_is_held(MouseButton::Left));
    assert_eq!(input.mouse_pos(), (120, -7));
    input.update(&[], &[MouseButton::Right, MouseButton::Left], 5, 6);
    assert!(!input.mouse_button_is_clicked(MouseButton::Right));
    assert!(input.mouse_button_is_held(MouseButton::Right));
    assert!(input.mouse_button_is_clicked(MouseButton::Left));
    input.update(&[], &[], 5, 6);
    assert!(!input.mouse_button_is_held(MouseButton::Right));
    assert!(!input.mouse_button_is_held(MouseButton::Left));
}
