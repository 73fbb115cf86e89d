//! The decisions the per-tick systems make: which entities each system acts
//! on, and which way held input drives. Systems walk the entities that match
//! a component signature and act on them.
use crate::input::{Button, InputState};
use crate::storage::ComponentStorage;
use vstd::prelude::*;

verus! {

/// The unit direction the held buttons ask for on one axis: +1 for the
/// positive button alone, -1 for the negative one alone, 0 for both or neither.
pub open spec fn axis(positive: bool, negative: bool) -> int {
    (if positive {
        1int
    } else {
        0int
    }) - (if negative {
        1int
    } else {
        0int
    })
}

/// Which way a controlled entity moves this tick: `Right` and `Left` drive
/// x, `Up` and `Down` drive y, and opposite buttons cancel.
pub fn input_direction(input: &InputState) -> (dir: (i8, i8))
    ensures
        dir.0 == axis(input@.contains(Button::Right), input@.contains(Button::Left)),
        dir.1 == axis(input@.contains(Button::Up), input@.contains(Button::Down)),
{
    let mut dx: i8 = 0;
    let mut dy: i8 = 0;
    if input.is_held(Button::Left) {
        dx = dx - 1;
    }
    if input.is_held(Button::Right) {
        dx = dx + 1;
    }
    if input.is_held(Button::Up) {
        dy = dy + 1;
    }
    if input.is_held(Button::Down) {
        dy = dy - 1;
    }
    (dx, dy)
}

/// Whether both storages hold a component for `id`.
pub open spec fn has_both<A, B>(a: Seq<Option<A>>, b: Seq<Option<B>>, id: int) -> bool {
    0 <= id < a.len() && 0 <= id < b.len() && a[id] is Some && b[id] is Some
}

/// The ids that have a component in both storages, in increasing order:
/// the entities a system acting on that pair of components visits (movement
/// pairs positions with velocities, input pairs positions with `Controlled`).
pub fn ids_with_both<A, B>(a: &ComponentStorage<A>, b: &ComponentStorage<B>) -> (ids: Vec<usize>)
    ensures
        forall|k: int| 0 <= k < ids@.len() ==> has_both(a@, b@, #[trigger] ids@[k] as int),
        forall|k: int, l: int| 0 <= k < l < ids@.len() ==> ids@[k] < ids@[l],
        forall|i: int| #[trigger] has_both(a@, b@, i) ==> ids@.contains(i as usize),
{
    let n = if a.len() < b.len() {
        a.len()
    } else {
        b.len()
    };
    let mut ids: Vec<usize> = Vec::new();
    let mut i: usize = 0;
    while i < n
        invariant
            0 <= i <= n,
            n <= a@.len(),
            n <= b@.len(),
            n == a@.len() || n == b@.len(),
            forall|k: int|
                0 <= k < ids@.len() ==> has_both(a@, b@, #[trigger] ids@[k] as int) && ids@[k] < i,
            forall|k: int, l: int| 0 <= k < l < ids@.len() ==> ids@[k] < ids@[l],
            forall|j: int| 0 <= j < i && #[trigger] has_both(a@, b@, j) ==> ids@.contains(j as usize),
        decreases n - i,
    {
        let ghost before = ids@;
        if a.get(i).is_some() && b.get(i).is_some() {
            ids.push(i);
        }
        assert forall|j: int| 0 <= j < i + 1 && #[trigger] has_both(a@, b@, j) implies ids@.contains(
            j as usize,
        ) by {
            if j < i {
                let k = choose|k: int| 0 <= k < before.len() && before[k] == j as usize;
                assert(ids@[k] == j as usize);
            } else {
                assert(ids@[ids@.len() - 1] == j as usize);
            }
        }
        i = i + 1;
    }
    ids
}

/// Whether entity `id` falls: it has a velocity and the `Gravity` marker,
/// and is not `Static`.
pub open spec fn falls<V, G, S>(
    velocities: Seq<Option<V>>,
    gravities: Seq<Option<G>>,
    statics: Seq<Option<S>>,
    id: int,
) -> bool {
    &&& 0 <= id < velocities.len()
    &&& velocities[id] is Some
    &&& 0 <= id < gravities.len() && gravities[id] is Some
    &&& !(0 <= id < statics.len() && statics[id] is Some)
}

/// The entities gravity accelerates this tick, in increasing order.
pub fn falling_entities<V, G, S>(
    velocities: &ComponentStorage<V>,
    gravities: &ComponentStorage<G>,
    statics: &ComponentStorage<S>,
) -> (ids: Vec<usize>)
    ensures
        forall|k: int|
            0 <= k < ids@.len() ==> falls(velocities@, gravities@, statics@, #[trigger] ids@[k] as int),
        forall|k: int, l: int| 0 <= k < l < ids@.len() ==> ids@[k] < ids@[l],
        forall|i: int|
            #[trigger] falls(velocities@, gravities@, statics@, i) ==> ids@.contains(i as usize),
{
    let n = velocities.len();
    let mut ids: Vec<usize> = Vec::new();
    let mut i: usize = 0;
    while i < n
        invariant
            0 <= i <= n,
            n == velocities@.len(),
            forall|k: int|
                0 <= k < ids@.len() ==> falls(velocities@, gravities@, statics@, #[trigger] ids@[k] as int)
                    && ids@[k] < i,
            forall|k: int, l: int| 0 <= k < l < ids@.len() ==> ids@[k] < ids@[l],
            forall|j: int|
                0 <= j < i && #[trigger] falls(velocities@, gravities@, statics@, j) ==> ids@.contains(
                    j as usize,
                ),
        decreases n - i,
    {
        let ghost before = ids@;
        if velocities.get(i).is_some() && gravities.get(i).is_some() && statics.get(i).is_none() {
            ids.push(i);
        }
        assert forall|j: int|
            0 <= j < i + 1 && #[trigger] falls(velocities@, gravities@, statics@, j) implies ids@.contains(
            j as usize,
        ) by {
            if j < i {
                let k = choose|k: int| 0 <= k < before.len() && before[k] == j as usize;
                assert(ids@[k] == j as usize);
            } else {
                assert(ids@[ids@.len() - 1] == j as usize);
            }
        }
        i = i + 1;
    }
    ids
}

/// One axis of held input: the positive button alone moves +1, the negative
/// one alone -1, both or neither 0.
pub proof fn law_axis(positive: bool, negative: bool)
    ensures
        axis(true, false) == 1,
        axis(false, true) == -1,
        axis(positive, positive) == 0,
        axis(positive, negative) == -axis(negative, positive),
{
}

} // verus!
