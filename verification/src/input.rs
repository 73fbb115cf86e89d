//! Graphics-free logical input: which buttons are currently held. The host
//! maps physical keys onto these neutral buttons; the engine never knows what
//! a keyboard is.
use std::collections::HashSet;
use vstd::prelude::*;

verus! {

/// A logical input button, named in engine-neutral terms.
#[derive(Clone, Copy, PartialEq, Eq, Hash, Debug, Structural)]
pub enum Button {
    Up,
    Down,
    Left,
    Right,
}

/// The key under which a button is recorded in the held set.
pub open spec fn button_code(button: Button) -> u8 {
    match button {
        Button::Up => 0,
        Button::Down => 1,
        Button::Left => 2,
        Button::Right => 3,
    }
}

fn code_of(button: Button) -> (code: u8)
    ensures
        code == button_code(button),
{
    match button {
        Button::Up => 0,
        Button::Down => 1,
        Button::Left => 2,
        Button::Right => 3,
    }
}

/// Which logical buttons are currently held. Plain runtime state, refreshed
/// by the host as input events arrive and read by systems on each tick.
pub struct InputState {
    held: HashSet<u8>,
}

impl View for InputState {
    type V = Set<Button>;

    closed spec fn view(&self) -> Set<Button> {
        Set::new(|b: Button| self.held@.contains(button_code(b)))
    }
}

impl InputState {
    /// No button held.
    pub fn new() -> (s: Self)
        ensures
            s@ == Set::<Button>::empty(),
    {
        let s = InputState { held: HashSet::new() };
        assert(s@ =~= Set::<Button>::empty());
        s
    }

    /// Record a button as held (`pressed`) or released; other buttons keep their state.
    pub fn set(&mut self, button: Button, pressed: bool)
        ensures
            final(self)@ == if pressed {
                old(self)@.insert(button)
            } else {
                old(self)@.remove(button)
            },
    {
        let code = code_of(button);
        if pressed {
            self.held.insert(code);
        } else {
            self.held.remove(&code);
        }
        proof {
            if pressed {
                assert(self@ =~= old(self)@.insert(button));
            } else {
                assert(self@ =~= old(self)@.remove(button));
            }
        }
    }

    /// Is this button currently held?
    pub fn is_held(&self, button: Button) -> (held: bool)
        ensures
            held == self@.contains(button),
    {
        let code = code_of(button);
        self.held.contains(&code)
    }
}

impl Default for InputState {
    fn default() -> (s: Self)
        ensures
            s@ == Set::<Button>::empty(),
    {
        InputState::new()
    }
}

/// The held buttons after starting from none held and calling `set` with
/// each (button, pressed) pair of `sets` in order.
pub open spec fn held_after_sets(sets: Seq<(Button, bool)>) -> Set<Button>
    decreases sets.len(),
{
    if sets.len() == 0 {
        Set::empty()
    } else {
        let before = held_after_sets(sets.drop_last());
        let (b, pressed) = sets.last();
        if pressed {
            before.insert(b)
        } else {
            before.remove(b)
        }
    }
}

/// What the last call in `sets` that names `button` set it to, if any.
pub open spec fn last_set(sets: Seq<(Button, bool)>, button: Button) -> Option<bool>
    decreases sets.len(),
{
    if sets.len() == 0 {
        None
    } else if sets.last().0 == button {
        Some(sets.last().1)
    } else {
        last_set(sets.drop_last(), button)
    }
}

/// After `InputState::new` and any sequence of `set` calls (whose states
/// `held_after_sets` follows, step for step, by their contracts), a button
/// is held exactly when the last `set` naming it pressed it; a button never
/// set is not held.
pub proof fn law_last_set_wins(sets: Seq<(Button, bool)>, button: Button)
    ensures
        held_after_sets(sets).contains(button) <==> last_set(sets, button) == Some(true),
    decreases sets.len(),
{
    if sets.len() > 0 {
        law_last_set_wins(sets.drop_last(), button);
    }
}

/// `held_after_sets` is what `new` and `set` produce: it starts as the
/// state `new` ensures, and each further pair changes it exactly as `set`
/// ensures for that button and press.
pub proof fn law_sets_follow_set_calls(sets: Seq<(Button, bool)>, button: Button, pressed: bool)
    ensures
        held_after_sets(Seq::empty()) == Set::<Button>::empty(),
        held_after_sets(sets.push((button, pressed))) == if pressed {
            held_after_sets(sets).insert(button)
        } else {
            held_after_sets(sets).remove(button)
        },
{
    assert(sets.push((button, pressed)).drop_last() =~= sets);
}

} // verus!
