//! What the editor does with a key press or a mouse button.
//!
//! The host maps its window system's keys and buttons onto the neutral ones
//! here, hands each event over, and carries out what comes back: a nudge of
//! the selected entity, an editor action, or a pick under the cursor.
//!
//! WASD is level triggered: the held set follows every press and release,
//! even while a text field has keyboard focus, so a ticked checkbox that
//! keeps focus never swallows movement. The other keys are edge triggered
//! and defer to a focused text field. Nudges run on auto-repeat, so holding
//! an arrow glides; the one-shot actions fire once per fresh press.
use crate::input::{Button, InputState};
use crate::text::{decimal, push_decimal, push_str, string_from_chars};
use vstd::prelude::*;

verus! {

/// A key the editor responds to; every other key is `Other`.
#[derive(Clone, Copy, PartialEq, Eq, Debug, Structural)]
pub enum EditorKey {
    W,
    A,
    S,
    D,
    ArrowLeft,
    ArrowRight,
    ArrowUp,
    ArrowDown,
    PageUp,
    PageDown,
    Space,
    Period,
    Escape,
    H,
    N,
    Delete,
    F5,
    F9,
    Other,
}

/// An editor action, the same one a menu entry triggers.
#[derive(Clone, Copy, PartialEq, Eq, Debug, Structural)]
pub enum EditorAction {
    TogglePause,
    StepOnce,
    ClearSelection,
    ToggleHelp,
    SpawnAtFocus,
    DespawnSelected,
    SaveScene,
    ReloadScene,
}

/// One edit step of the selected entity along a world axis: each of the
/// three components is -1, 0 or 1, to be multiplied by the edit step.
#[derive(Clone, Copy, PartialEq, Eq, Debug, Structural)]
pub struct Nudge {
    pub dx: i8,
    pub dy: i8,
    pub dz: i8,
}

/// What a key press asks of the editor beyond the held set.
#[derive(Clone, Copy, PartialEq, Eq, Debug, Structural)]
pub enum KeyEffect {
    Nothing,
    Move(Nudge),
    Act(EditorAction),
}

/// The movement button a key drives: W, A, S, D are up, left, down, right.
pub open spec fn drive_button(key: EditorKey) -> Option<Button> {
    match key {
        EditorKey::W => Some(Button::Up),
        EditorKey::A => Some(Button::Left),
        EditorKey::S => Some(Button::Down),
        EditorKey::D => Some(Button::Right),
        _ => None,
    }
}

/// The nudge a key gives: the arrows move along X and Y, Page Up and Page
/// Down along Z.
pub open spec fn nudge_of(key: EditorKey) -> Option<Nudge> {
    match key {
        EditorKey::ArrowLeft => Some(Nudge { dx: -1i8, dy: 0, dz: 0 }),
        EditorKey::ArrowRight => Some(Nudge { dx: 1, dy: 0, dz: 0 }),
        EditorKey::ArrowUp => Some(Nudge { dx: 0, dy: 1, dz: 0 }),
        EditorKey::ArrowDown => Some(Nudge { dx: 0, dy: -1i8, dz: 0 }),
        EditorKey::PageUp => Some(Nudge { dx: 0, dy: 0, dz: 1 }),
        EditorKey::PageDown => Some(Nudge { dx: 0, dy: 0, dz: -1i8 }),
        _ => None,
    }
}

/// The one-shot action a key fires.
pub open spec fn action_of(key: EditorKey) -> Option<EditorAction> {
    match key {
        EditorKey::Space => Some(EditorAction::TogglePause),
        EditorKey::Period => Some(EditorAction::StepOnce),
        EditorKey::Escape => Some(EditorAction::ClearSelection),
        EditorKey::H => Some(EditorAction::ToggleHelp),
        EditorKey::N => Some(EditorAction::SpawnAtFocus),
        EditorKey::Delete => Some(EditorAction::DespawnSelected),
        EditorKey::F5 => Some(EditorAction::SaveScene),
        EditorKey::F9 => Some(EditorAction::ReloadScene),
        _ => None,
    }
}

/// The held buttons after a key event.
pub open spec fn held_after(held: Set<Button>, key: EditorKey, pressed: bool) -> Set<Button> {
    match drive_button(key) {
        Some(b) => if pressed {
            held.insert(b)
        } else {
            held.remove(b)
        },
        None => held,
    }
}

/// What a key event asks for: nothing while a text field wants the keys or
/// on a release; otherwise the key's nudge, even on auto-repeat, or its
/// action on a fresh press.
pub open spec fn key_effect(key: EditorKey, pressed: bool, repeat: bool, ui_wants_keys: bool) -> KeyEffect {
    if ui_wants_keys || !pressed {
        KeyEffect::Nothing
    } else {
        match nudge_of(key) {
            Some(n) => KeyEffect::Move(n),
            None => if repeat {
                KeyEffect::Nothing
            } else {
                match action_of(key) {
                    Some(a) => KeyEffect::Act(a),
                    None => KeyEffect::Nothing,
                }
            },
        }
    }
}

fn drive_button_of(key: EditorKey) -> (b: Option<Button>)
    ensures
        b == drive_button(key),
{
    match key {
        EditorKey::W => Some(Button::Up),
        EditorKey::A => Some(Button::Left),
        EditorKey::S => Some(Button::Down),
        EditorKey::D => Some(Button::Right),
        _ => None,
    }
}

fn nudge_for(key: EditorKey) -> (n: Option<Nudge>)
    ensures
        n == nudge_of(key),
{
    match key {
        EditorKey::ArrowLeft => Some(Nudge { dx: -1, dy: 0, dz: 0 }),
        EditorKey::ArrowRight => Some(Nudge { dx: 1, dy: 0, dz: 0 }),
        EditorKey::ArrowUp => Some(Nudge { dx: 0, dy: 1, dz: 0 }),
        EditorKey::ArrowDown => Some(Nudge { dx: 0, dy: -1, dz: 0 }),
        EditorKey::PageUp => Some(Nudge { dx: 0, dy: 0, dz: 1 }),
        EditorKey::PageDown => Some(Nudge { dx: 0, dy: 0, dz: -1 }),
        _ => None,
    }
}

fn action_for(key: EditorKey) -> (a: Option<EditorAction>)
    ensures
        a == action_of(key),
{
    match key {
        EditorKey::Space => Some(EditorAction::TogglePause),
        EditorKey::Period => Some(EditorAction::StepOnce),
        EditorKey::Escape => Some(EditorAction::ClearSelection),
        EditorKey::H => Some(EditorAction::ToggleHelp),
        EditorKey::N => Some(EditorAction::SpawnAtFocus),
        EditorKey::Delete => Some(EditorAction::DespawnSelected),
        EditorKey::F5 => Some(EditorAction::SaveScene),
        EditorKey::F9 => Some(EditorAction::ReloadScene),
        _ => None,
    }
}

/// Handle one key event in the editor: update the held movement buttons
/// and say what else the key asks for. `repeat` marks an auto-repeated
/// press; `ui_wants_keys` that a text field has keyboard focus.
pub fn handle_key(
    input: &mut InputState,
    key: EditorKey,
    pressed: bool,
    repeat: bool,
    ui_wants_keys: bool,
) -> (effect: KeyEffect)
    ensures
        final(input)@ == held_after(old(input)@, key, pressed),
        effect == key_effect(key, pressed, repeat, ui_wants_keys),
{
    if let Some(b) = drive_button_of(key) {
        input.set(b, pressed);
    }
    if ui_wants_keys || !pressed {
        return KeyEffect::Nothing;
    }
    match nudge_for(key) {
        Some(n) => KeyEffect::Move(n),
        None => {
            if repeat {
                KeyEffect::Nothing
            } else {
                match action_for(key) {
                    Some(a) => KeyEffect::Act(a),
                    None => KeyEffect::Nothing,
                }
            }
        },
    }
}

/// A mouse button, as the editor tells them apart.
#[derive(Clone, Copy, PartialEq, Eq, Debug, Structural)]
pub enum PointerButton {
    Left,
    Middle,
    Other,
}

/// Whether the left button is held (panning the view) and whether the
/// middle one is (orbiting the camera).
#[derive(Clone, Copy, PartialEq, Eq, Debug, Structural)]
pub struct PointerState {
    pub dragging: bool,
    pub orbiting: bool,
}

/// How a cursor movement moves the camera.
#[derive(Clone, Copy, PartialEq, Eq, Debug, Structural)]
pub enum CursorMotion {
    Orbit,
    Pan,
    Idle,
}

/// The pointer state after a button event, which counts only over the
/// viewport.
pub open spec fn pointer_after(
    state: PointerState,
    button: PointerButton,
    pressed: bool,
    over_viewport: bool,
) -> PointerState {
    if !over_viewport {
        state
    } else {
        match button {
            PointerButton::Left => PointerState { dragging: pressed, ..state },
            PointerButton::Middle => PointerState { orbiting: pressed, ..state },
            PointerButton::Other => state,
        }
    }
}

/// Handle one mouse button event: the left button pans while held, the
/// middle one orbits while held. Returns whether to pick the entity under
/// the cursor, which a left press over the viewport does.
pub fn handle_pointer_button(
    state: &mut PointerState,
    button: PointerButton,
    pressed: bool,
    over_viewport: bool,
) -> (pick: bool)
    ensures
        *final(state) == pointer_after(*old(state), button, pressed, over_viewport),
        pick == (over_viewport && button == PointerButton::Left && pressed),
{
    if !over_viewport {
        return false;
    }
    match button {
        PointerButton::Left => {
            state.dragging = pressed;
            pressed
        },
        PointerButton::Middle => {
            state.orbiting = pressed;
            false
        },
        PointerButton::Other => false,
    }
}

/// What a cursor movement does: orbit while the middle button is held,
/// otherwise pan while the left one is, otherwise nothing.
pub fn cursor_motion(state: &PointerState) -> (m: CursorMotion)
    ensures
        m == (if state.orbiting {
            CursorMotion::Orbit
        } else if state.dragging {
            CursorMotion::Pan
        } else {
            CursorMotion::Idle
        }),
{
    if state.orbiting {
        CursorMotion::Orbit
    } else if state.dragging {
        CursorMotion::Pan
    } else {
        CursorMotion::Idle
    }
}

/// The held movement buttons follow every key event, whether or not a text
/// field has keyboard focus and whether or not the press is a repeat; what
/// else the key asks for is nothing while a text field has focus, nothing
/// on a release, and never an action on an auto-repeat.
pub proof fn law_driving_ignores_focus(key: EditorKey, pressed: bool, repeat: bool, ui_wants_keys: bool)
    ensures
        ui_wants_keys ==> key_effect(key, pressed, repeat, ui_wants_keys) == KeyEffect::Nothing,
        !pressed ==> key_effect(key, pressed, repeat, ui_wants_keys) == KeyEffect::Nothing,
        repeat ==> !(key_effect(key, pressed, repeat, ui_wants_keys) is Act),
        drive_button(key) is Some ==> key_effect(key, pressed, repeat, ui_wants_keys)
            == KeyEffect::Nothing,
{
}

/// Pressing a movement key holds its button, and releasing it again gives
/// back the held set from before the press when the button was not held.
pub proof fn law_press_release_round_trip(held: Set<Button>, key: EditorKey)
    requires
        drive_button(key) is Some,
        !held.contains(drive_button(key).unwrap()),
    ensures
        held_after(held, key, true).contains(drive_button(key).unwrap()),
        held_after(held_after(held, key, true), key, false) == held,
{
    assert(held_after(held_after(held, key, true), key, false) =~= held);
}

/// The editor state the actions read and change: whether the simulation
/// is paused, which entity is selected, and whether the controls overlay
/// is shown.
#[derive(Clone, Copy, PartialEq, Eq, Debug, Structural)]
pub struct EditorFlags {
    pub paused: bool,
    pub selected: Option<usize>,
    pub show_help: bool,
}

/// The work an action leaves to the host, which owns the world and files.
#[derive(Clone, Copy, PartialEq, Eq, Debug, Structural)]
pub enum Followup {
    Nothing,
    /// Run the movement system once.
    StepWorld,
    /// Spawn an entity at the camera focus, then report it with `select_spawned`.
    Spawn,
    /// Despawn this entity.
    Despawn(usize),
    /// Save the scene to its file, or ask where.
    Save,
    /// Reload the scene from its file.
    Reload,
}

/// An action's followup and the line it writes to the output log, if any.
pub struct ActionOutcome {
    pub followup: Followup,
    pub log: Option<String>,
}

/// The log line naming an entity an action touched, such as `Despawned entity 3`.
pub open spec fn entity_line(verb: Seq<char>, id: usize) -> Seq<char> {
    verb + " entity "@ + decimal(id as nat)
}

/// The flags after an action.
pub open spec fn flags_after(f: EditorFlags, action: EditorAction) -> EditorFlags {
    match action {
        EditorAction::TogglePause => EditorFlags { paused: !f.paused, ..f },
        EditorAction::ClearSelection => EditorFlags { selected: None, ..f },
        EditorAction::ToggleHelp => EditorFlags { show_help: !f.show_help, ..f },
        EditorAction::DespawnSelected => EditorFlags { selected: None, ..f },
        _ => f,
    }
}

/// The work an action leaves to the host. Stepping happens only while
/// paused, and despawning only with an entity selected.
pub open spec fn followup_of(f: EditorFlags, action: EditorAction) -> Followup {
    match action {
        EditorAction::StepOnce => if f.paused {
            Followup::StepWorld
        } else {
            Followup::Nothing
        },
        EditorAction::SpawnAtFocus => Followup::Spawn,
        EditorAction::DespawnSelected => match f.selected {
            Some(id) => Followup::Despawn(id),
            None => Followup::Nothing,
        },
        EditorAction::SaveScene => Followup::Save,
        EditorAction::ReloadScene => Followup::Reload,
        _ => Followup::Nothing,
    }
}

/// The log line an action writes itself; spawning, saving and reloading
/// are reported by the host once it knows how they went.
pub open spec fn action_log(f: EditorFlags, action: EditorAction) -> Option<Seq<char>> {
    match action {
        EditorAction::TogglePause => Some(
            if f.paused {
                "Playing"@
            } else {
                "Paused"@
            },
        ),
        EditorAction::StepOnce => if f.paused {
            Some("Stepped one tick"@)
        } else {
            None
        },
        EditorAction::ClearSelection => Some("Selection cleared"@),
        EditorAction::DespawnSelected => match f.selected {
            Some(id) => Some(entity_line("Despawned"@, id)),
            None => None,
        },
        _ => None,
    }
}

fn entity_log_line(verb: &str, id: usize) -> (line: String)
    ensures
        line@ == entity_line(verb@, id),
{
    let mut v: Vec<char> = Vec::new();
    push_str(&mut v, verb);
    push_str(&mut v, " entity ");
    push_decimal(&mut v, id as u64);
    assert(v@ =~= entity_line(verb@, id));
    string_from_chars(v.as_slice())
}

fn literal_line(text: &str) -> (line: String)
    ensures
        line@ == text@,
{
    let mut v: Vec<char> = Vec::new();
    push_str(&mut v, text);
    assert(v@ =~= text@);
    string_from_chars(v.as_slice())
}

/// Carry out an editor action on the flags, and say what is left to the
/// host and what to log.
pub fn apply_action(flags: &mut EditorFlags, action: EditorAction) -> (o: ActionOutcome)
    ensures
        *final(flags) == flags_after(*old(flags), action),
        o.followup == followup_of(*old(flags), action),
        o.log.is_some() == action_log(*old(flags), action).is_some(),
        o.log.is_some() ==> o.log.unwrap()@ == action_log(*old(flags), action).unwrap(),
{
    match action {
        EditorAction::TogglePause => {
            flags.paused = !flags.paused;
            let line = if flags.paused {
                literal_line("Paused")
            } else {
                literal_line("Playing")
            };
            ActionOutcome { followup: Followup::Nothing, log: Some(line) }
        },
        EditorAction::StepOnce => {
            if flags.paused {
                ActionOutcome {
                    followup: Followup::StepWorld,
                    log: Some(literal_line("Stepped one tick")),
                }
            } else {
                ActionOutcome { followup: Followup::Nothing, log: None }
            }
        },
        EditorAction::ClearSelection => {
            flags.selected = None;
            ActionOutcome { followup: Followup::Nothing, log: Some(literal_line("Selection cleared")) }
        },
        EditorAction::ToggleHelp => {
            flags.show_help = !flags.show_help;
            ActionOutcome { followup: Followup::Nothing, log: None }
        },
        EditorAction::SpawnAtFocus => ActionOutcome { followup: Followup::Spawn, log: None },
        EditorAction::DespawnSelected => {
            match flags.selected {
                Some(id) => {
                    flags.selected = None;
                    ActionOutcome {
                        followup: Followup::Despawn(id),
                        log: Some(entity_log_line("Despawned", id)),
                    }
                },
                None => ActionOutcome { followup: Followup::Nothing, log: None },
            }
        },
        EditorAction::SaveScene => ActionOutcome { followup: Followup::Save, log: None },
        EditorAction::ReloadScene => ActionOutcome { followup: Followup::Reload, log: None },
    }
}

/// Select the entity the host just spawned for `SpawnAtFocus`, and give the
/// line to log for it.
pub fn select_spawned(flags: &mut EditorFlags, id: usize) -> (line: String)
    ensures
        *final(flags) == (EditorFlags { selected: Some(id), ..*old(flags) }),
        line@ == entity_line("Spawned"@, id),
{
    flags.selected = Some(id);
    entity_log_line("Spawned", id)
}

/// Pausing twice, or toggling the overlay twice, gives back the flags from
/// before; clearing the selection and despawning leave nothing selected.
pub proof fn law_toggles_undo(f: EditorFlags)
    ensures
        flags_after(flags_after(f, EditorAction::TogglePause), EditorAction::TogglePause) == f,
        flags_after(flags_after(f, EditorAction::ToggleHelp), EditorAction::ToggleHelp) == f,
        flags_after(f, EditorAction::ClearSelection).selected is None,
        flags_after(f, EditorAction::DespawnSelected).selected is None,
{
}

/// The editor's key bindings: W, A, S, D drive up, left, down and right;
/// the arrows nudge along X and Y and Page Up / Page Down along Z, each by
/// one step in one direction; Space pauses, `.` steps, Esc clears the
/// selection, H toggles the overlay, N spawns, Delete despawns, F5 saves
/// and F9 reloads. No two keys share a button, a nudge or an action, and
/// every action has a key.
pub proof fn law_key_bindings(k1: EditorKey, k2: EditorKey, a: EditorAction)
    ensures
        drive_button(EditorKey::W) == Some(Button::Up),
        drive_button(EditorKey::A) == Some(Button::Left),
        drive_button(EditorKey::S) == Some(Button::Down),
        drive_button(EditorKey::D) == Some(Button::Right),
        nudge_of(EditorKey::ArrowRight) == Some(Nudge { dx: 1, dy: 0, dz: 0 }),
        nudge_of(EditorKey::ArrowLeft) == Some(Nudge { dx: -1i8, dy: 0, dz: 0 }),
        nudge_of(EditorKey::ArrowUp) == Some(Nudge { dx: 0, dy: 1, dz: 0 }),
        nudge_of(EditorKey::ArrowDown) == Some(Nudge { dx: 0, dy: -1i8, dz: 0 }),
        nudge_of(EditorKey::PageUp) == Some(Nudge { dx: 0, dy: 0, dz: 1 }),
        nudge_of(EditorKey::PageDown) == Some(Nudge { dx: 0, dy: 0, dz: -1i8 }),
        action_of(EditorKey::Space) == Some(EditorAction::TogglePause),
        action_of(EditorKey::Period) == Some(EditorAction::StepOnce),
        action_of(EditorKey::Escape) == Some(EditorAction::ClearSelection),
        action_of(EditorKey::H) == Some(EditorAction::ToggleHelp),
        action_of(EditorKey::N) == Some(EditorAction::SpawnAtFocus),
        action_of(EditorKey::Delete) == Some(EditorAction::DespawnSelected),
        action_of(EditorKey::F5) == Some(EditorAction::SaveScene),
        action_of(EditorKey::F9) == Some(EditorAction::ReloadScene),
        drive_button(k1) is Some && drive_button(k1) == drive_button(k2) ==> k1 == k2,
        nudge_of(k1) is Some && nudge_of(k1) == nudge_of(k2) ==> k1 == k2,
        action_of(k1) is Some && action_of(k1) == action_of(k2) ==> k1 == k2,
        exists|k: EditorKey| action_of(k) == Some(a),
        key_effect(EditorKey::F5, true, false, false) == KeyEffect::Act(EditorAction::SaveScene),
        key_effect(EditorKey::F9, true, false, false) == KeyEffect::Act(EditorAction::ReloadScene),
{
    match a {
        EditorAction::TogglePause => assert(action_of(EditorKey::Space) == Some(a)),
        EditorAction::StepOnce => assert(action_of(EditorKey::Period) == Some(a)),
        EditorAction::ClearSelection => assert(action_of(EditorKey::Escape) == Some(a)),
        EditorAction::ToggleHelp => assert(action_of(EditorKey::H) == Some(a)),
        EditorAction::SpawnAtFocus => assert(action_of(EditorKey::N) == Some(a)),
        EditorAction::DespawnSelected => assert(action_of(EditorKey::Delete) == Some(a)),
        EditorAction::SaveScene => assert(action_of(EditorKey::F5) == Some(a)),
        EditorAction::ReloadScene => assert(action_of(EditorKey::F9) == Some(a)),
    }
}

/// What each action leaves to the host, for every state of the flags:
/// saving asks for a save and only saving does; reloading asks for a reload
/// and only reloading does; spawning asks for a spawn; stepping runs the
/// world once exactly when paused; despawning removes exactly the selected
/// entity, if any; pausing, clearing the selection and the overlay leave
/// nothing to the host.
pub proof fn law_action_followups(f: EditorFlags, a: EditorAction, id: usize)
    ensures
        followup_of(f, a) == Followup::Save <==> a == EditorAction::SaveScene,
        followup_of(f, a) == Followup::Reload <==> a == EditorAction::ReloadScene,
        followup_of(f, a) == Followup::Spawn <==> a == EditorAction::SpawnAtFocus,
        followup_of(f, a) == Followup::StepWorld <==> a == EditorAction::StepOnce && f.paused,
        followup_of(f, a) == Followup::Despawn(id) <==> a == EditorAction::DespawnSelected
            && f.selected == Some(id),
        a == EditorAction::TogglePause || a == EditorAction::ClearSelection || a
            == EditorAction::ToggleHelp ==> followup_of(f, a) == Followup::Nothing,
        a == EditorAction::SaveScene || a == EditorAction::ReloadScene || a
            == EditorAction::SpawnAtFocus ==> flags_after(f, a) == f && action_log(f, a) is None,
        flags_after(f, EditorAction::TogglePause).paused == !f.paused,
        flags_after(f, EditorAction::ToggleHelp).show_help == !f.show_help,
        action_log(f, EditorAction::TogglePause) == Some(
            if f.paused {
                "Playing"@
            } else {
                "Paused"@
            },
        ),
{
}

/// Over the viewport, the left button pans while held and the middle one
/// orbits while held, each leaving the other alone; off the viewport, and
/// for any other button, nothing changes. Orbiting wins over panning.
pub proof fn law_pointer_buttons(s: PointerState, pressed: bool, b: PointerButton)
    ensures
        pointer_after(s, PointerButton::Left, pressed, true) == (PointerState {
            dragging: pressed,
            orbiting: s.orbiting,
        }),
        pointer_after(s, PointerButton::Middle, pressed, true) == (PointerState {
            dragging: s.dragging,
            orbiting: pressed,
        }),
        pointer_after(s, PointerButton::Other, pressed, true) == s,
        pointer_after(s, b, pressed, false) == s,
{
}

} // verus!
