//! Which entities the physics backend simulates.
//!
//! Only `Static` entities (a fixed body) and `Gravity` entities that are not
//! `Static` (a dynamic body) get a body. A `RigidBody`-marked entity that is
//! also `Controlled` is skipped, and retried every step in case the marker
//! goes. A body is created once and then simulated, never rebuilt from the
//! world; the body of an entity that lost its `RigidBody` marker (or was
//! despawned) is removed.
use crate::storage::ComponentStorage;
use vstd::prelude::*;

verus! {

/// A body to create: the entity it belongs to, and whether it is fixed
/// (`Static`) rather than dynamic.
#[derive(Clone, Copy, PartialEq, Eq, Debug, Structural)]
pub struct BodyToCreate {
    pub id: usize,
    pub fixed: bool,
}

/// What a physics step must do before simulating: bodies to create, in
/// increasing entity order, and entities whose bodies must be removed, in
/// the order `with_body` lists them.
pub struct BodySyncPlan {
    pub create: Vec<BodyToCreate>,
    pub remove: Vec<usize>,
}

/// Whether entity `id` should get a body now: it is `RigidBody`-marked, has
/// no body yet, is not `Controlled`, has a position, and is `Static` or
/// falls under `Gravity`.
pub open spec fn needs_body<R, C, P, S, G>(
    marked: ComponentStorage<R>,
    with_body: Seq<usize>,
    controlled: ComponentStorage<C>,
    positions: ComponentStorage<P>,
    statics: ComponentStorage<S>,
    gravities: ComponentStorage<G>,
    id: int,
) -> bool {
    &&& marked.slot(id) is Some
    &&& !with_body.contains(id as usize)
    &&& controlled.slot(id) is None
    &&& positions.slot(id) is Some
    &&& (statics.slot(id) is Some || gravities.slot(id) is Some)
}

fn has_body(with_body: &Vec<usize>, id: usize) -> (b: bool)
    ensures
        b == with_body@.contains(id),
{
    let mut i: usize = 0;
    while i < with_body.len()
        invariant
            0 <= i <= with_body@.len(),
            forall|k: int| 0 <= k < i ==> with_body@[k] != id,
        decreases with_body@.len() - i,
    {
        if with_body[i] == id {
            return true;
        }
        i = i + 1;
    }
    false
}

/// Decide which bodies to create and which to remove, given the ids that
/// already have a body (`with_body`).
pub fn plan_body_sync<R, C, P, S, G>(
    marked: &ComponentStorage<R>,
    with_body: &Vec<usize>,
    controlled: &ComponentStorage<C>,
    positions: &ComponentStorage<P>,
    statics: &ComponentStorage<S>,
    gravities: &ComponentStorage<G>,
) -> (plan: BodySyncPlan)
    ensures
        forall|k: int|
            0 <= k < plan.create@.len() ==> needs_body(
                *marked,
                with_body@,
                *controlled,
                *positions,
                *statics,
                *gravities,
                (#[trigger] plan.create@[k]).id as int,
            ) && plan.create@[k].fixed == (statics.slot(plan.create@[k].id as int) is Some),
        forall|k: int, l: int| 0 <= k < l < plan.create@.len() ==> plan.create@[k].id < plan.create@[l].id,
        forall|i: int|
            #[trigger] needs_body(*marked, with_body@, *controlled, *positions, *statics, *gravities, i)
                ==> exists|k: int| 0 <= k < plan.create@.len() && plan.create@[k].id == i,
        plan.remove@ == with_body@.filter(|id: usize| marked.slot(id as int) is None),
{
    let n = marked.len();
    let mut create: Vec<BodyToCreate> = Vec::new();
    let mut i: usize = 0;
    while i < n
        invariant
            0 <= i <= n,
            n == marked@.len(),
            forall|k: int|
                0 <= k < create@.len() ==> needs_body(
                    *marked,
                    with_body@,
                    *controlled,
                    *positions,
                    *statics,
                    *gravities,
                    (#[trigger] create@[k]).id as int,
                ) && create@[k].fixed == (statics.slot(create@[k].id as int) is Some) && create@[k].id
                    < i,
            forall|k: int, l: int| 0 <= k < l < create@.len() ==> create@[k].id < create@[l].id,
            forall|j: int|
                0 <= j < i && #[trigger] needs_body(
                    *marked,
                    with_body@,
                    *controlled,
                    *positions,
                    *statics,
                    *gravities,
                    j,
                ) ==> exists|k: int| 0 <= k < create@.len() && create@[k].id == j,
        decreases n - i,
    {
        let ghost before = create@;
        if marked.get(i).is_some() && !has_body(with_body, i) && controlled.get(i).is_none()
            && positions.get(i).is_some() {
            let fixed = statics.get(i).is_some();
            if fixed || gravities.get(i).is_some() {
                create.push(BodyToCreate { id: i, fixed });
            }
        }
        assert forall|j: int|
            0 <= j < i + 1 && #[trigger] needs_body(
                *marked,
                with_body@,
                *controlled,
                *positions,
                *statics,
                *gravities,
                j,
            ) implies exists|k: int| 0 <= k < create@.len() && create@[k].id == j by {
            if j < i {
                let k = choose|k: int| 0 <= k < before.len() && before[k].id == j;
                assert(create@[k].id == j);
            } else {
                assert(create@[create@.len() - 1].id == j);
            }
        }
        i = i + 1;
    }
    let mut remove: Vec<usize> = Vec::new();
    let ghost gone = |id: usize| marked.slot(id as int) is None;
    let mut t: usize = 0;
    while t < with_body.len()
        invariant
            0 <= t <= with_body@.len(),
            gone == (|id: usize| marked.slot(id as int) is None),
            remove@ == with_body@.take(t as int).filter(gone),
        decreases with_body@.len() - t,
    {
        reveal_with_fuel(Seq::<_>::filter, 1);
        assert(with_body@.take(t + 1).drop_last() =~= with_body@.take(t as int));
        let id = with_body[t];
        if marked.get(id).is_none() {
            remove.push(id);
        }
        t = t + 1;
    }
    assert(with_body@.take(with_body@.len() as int) =~= with_body@);
    BodySyncPlan { create, remove }
}

/// No body is created for an entity that is not `RigidBody`-marked, that
/// already has one, that is `Controlled`, that has no position, or that is
/// neither `Static` nor under `Gravity`.
pub proof fn law_body_rules<R, C, P, S, G>(
    marked: ComponentStorage<R>,
    with_body: Seq<usize>,
    controlled: ComponentStorage<C>,
    positions: ComponentStorage<P>,
    statics: ComponentStorage<S>,
    gravities: ComponentStorage<G>,
    id: int,
)
    ensures
        marked.slot(id) is None ==> !needs_body(marked, with_body, controlled, positions, statics, gravities, id),
        0 <= id && with_body.contains(id as usize) ==> !needs_body(marked, with_body, controlled, positions, statics, gravities, id),
        controlled.slot(id) is Some ==> !needs_body(marked, with_body, controlled, positions, statics, gravities, id),
        positions.slot(id) is None ==> !needs_body(marked, with_body, controlled, positions, statics, gravities, id),
        statics.slot(id) is None && gravities.slot(id) is None ==> !needs_body(marked, with_body, controlled, positions, statics, gravities, id),
{
}

} // verus!
