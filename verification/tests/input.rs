use frame_engine::input::{Button, InputState};
use frame_engine::net::InputUpload;
use frame_engine::systems::input_direction;

#[test]
fn set_and_release_buttons() {
    let mut input = InputState::new();
    assert!(!input.is_held(Button::Up));
    input.set(Button::Up, true);
    input.set(Button::Left, true);
    assert!(input.is_held(Button::Up));
    assert!(input.is_held(Button::Left));
    assert!(!input.is_held(Button::Down));
    input.set(Button::Up, false);
    assert!(!input.is_held(Button::Up));
    assert!(input.is_held(Button::Left));
    let fresh = InputState::default();
    assert!(!fresh.is_held(Button::Right));
}

#[test]
fn direction_from_held_buttons() {
    let mut input = InputState::new();
    assert_eq!(input_direction(&input), (0, 0));
    input.set(Button::Right, true);
    input.set(Button::Up, true);
    assert_eq!(input_direction(&input), (1, 1));
    input.set(Button::Left, true);
    input.set(Button::Up, false);
    input.set(Button::Down, true);
    assert_eq!(input_direction(&input), (0, -1));
}

#[test]
fn upload_round_trip() {
    let mut input = InputState::new();
    input.set(Button::Down, true);
    input.set(Button::Right, true);
    let upload = InputUpload::from_input(&input);
    assert_eq!(upload, InputUpload { up: false, down: true, left: false, right: true });
    let back = upload.to_input();
    assert!(back.is_held(Button::Down));
    assert!(back.is_held(Button::Right));
    assert!(!back.is_held(Button::Up));
    assert!(!back.is_held(Button::Left));
}

#[test]
fn last_set_of_a_button_wins() {
    let mut s = InputState::new();
    s.set(Button::Up, true);
    s.set(Button::Left, true);
    s.set(Button::Up, false);
    s.set(Button::Left, false);
    s.set(Button::Left, true);
    assert!(!s.is_held(Button::Up));
    assert!(s.is_held(Button::Left));
    assert!(!s.is_held(Button::Down));
    assert!(s.is_held(Button::Left));
}
