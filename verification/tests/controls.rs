use frame_engine::controls::{
    apply_action, cursor_motion, handle_key, handle_pointer_button, select_spawned, CursorMotion,
    EditorAction, EditorFlags, EditorKey, Followup, KeyEffect, Nudge, PointerButton, PointerState,
};
use frame_engine::input::{Button, InputState};

#[test]
fn wasd_follows_press_and_release_even_with_text_focus() {
    let mut input = InputState::new();
    assert_eq!(handle_key(&mut input, EditorKey::W, true, false, true), KeyEffect::Nothing);
    assert!(input.is_held(Button::Up));
    handle_key(&mut input, EditorKey::D, true, true, false);
    assert!(input.is_held(Button::Right));
    handle_key(&mut input, EditorKey::W, false, false, false);
    assert!(!input.is_held(Button::Up));
    assert!(input.is_held(Button::Right));
}

#[test]
fn arrows_nudge_even_on_repeat() {
    let mut input = InputState::new();
    assert_eq!(
        handle_key(&mut input, EditorKey::ArrowLeft, true, true, false),
        KeyEffect::Move(Nudge { dx: -1, dy: 0, dz: 0 })
    );
    assert_eq!(
        handle_key(&mut input, EditorKey::PageDown, true, false, false),
        KeyEffect::Move(Nudge { dx: 0, dy: 0, dz: -1 })
    );
    assert_eq!(handle_key(&mut input, EditorKey::ArrowUp, false, false, false), KeyEffect::Nothing);
    assert_eq!(handle_key(&mut input, EditorKey::ArrowUp, true, false, true), KeyEffect::Nothing);
}

#[test]
fn actions_fire_once_per_fresh_press() {
    let mut input = InputState::new();
    assert_eq!(
        handle_key(&mut input, EditorKey::Space, true, false, false),
        KeyEffect::Act(EditorAction::TogglePause)
    );
    assert_eq!(handle_key(&mut input, EditorKey::Space, true, true, false), KeyEffect::Nothing);
    assert_eq!(
        handle_key(&mut input, EditorKey::F9, true, false, false),
        KeyEffect::Act(EditorAction::ReloadScene)
    );
    assert_eq!(handle_key(&mut input, EditorKey::Other, true, false, false), KeyEffect::Nothing);
}

#[test]
fn pointer_buttons_over_viewport_only() {
    let mut state = PointerState { dragging: false, orbiting: false };
    assert!(!handle_pointer_button(&mut state, PointerButton::Left, true, false));
    assert_eq!(state, PointerState { dragging: false, orbiting: false });
    assert!(handle_pointer_button(&mut state, PointerButton::Left, true, true));
    assert!(state.dragging);
    assert_eq!(cursor_motion(&state), CursorMotion::Pan);
    assert!(!handle_pointer_button(&mut state, PointerButton::Middle, true, true));
    assert_eq!(cursor_motion(&state), CursorMotion::Orbit);
    handle_pointer_button(&mut state, PointerButton::Middle, false, true);
    handle_pointer_button(&mut state, PointerButton::Left, false, true);
    assert_eq!(cursor_motion(&state), CursorMotion::Idle);
}

#[test]
fn editor_actions() {
    let mut flags = EditorFlags { paused: false, selected: Some(4), show_help: true };
    let o = apply_action(&mut flags, EditorAction::StepOnce);
    assert_eq!((o.followup, o.log), (Followup::Nothing, None));
    let o = apply_action(&mut flags, EditorAction::TogglePause);
    assert_eq!(o.log.as_deref(), Some("Paused"));
    assert!(flags.paused);
    let o = apply_action(&mut flags, EditorAction::StepOnce);
    assert_eq!((o.followup, o.log.as_deref()), (Followup::StepWorld, Some("Stepped one tick")));
    let o = apply_action(&mut flags, EditorAction::DespawnSelected);
    assert_eq!((o.followup, o.log.as_deref()), (Followup::Despawn(4), Some("Despawned entity 4")));
    assert_eq!(flags.selected, None);
    let o = apply_action(&mut flags, EditorAction::DespawnSelected);
    assert_eq!((o.followup, o.log), (Followup::Nothing, None));
    let o = apply_action(&mut flags, EditorAction::TogglePause);
    assert_eq!(o.log.as_deref(), Some("Playing"));
    apply_action(&mut flags, EditorAction::ToggleHelp);
    assert!(!flags.show_help);
    let o = apply_action(&mut flags, EditorAction::SpawnAtFocus);
    assert_eq!(o.followup, Followup::Spawn);
    assert_eq!(select_spawned(&mut flags, 12), "Spawned entity 12");
    assert_eq!(flags.selected, Some(12));
    let o = apply_action(&mut flags, EditorAction::ClearSelection);
    assert_eq!(o.log.as_deref(), Some("Selection cleared"));
    assert_eq!(flags.selected, None);
}
