//! Component types of the simulated world that carry no numeric state:
//! markers, the script reference, the mesh primitive, and the actions a
//! plugin may declare.
use crate::storage::{with_inserted, with_removed, ComponentStorage};
use vstd::prelude::*;

verus! {

/// Names a script in the world's script library. The behaviour lives once
/// in the library; entities reference it by name, so editing a library
/// script updates every entity that uses it.
#[derive(Clone, Debug)]
pub struct Script {
    pub uses: String,
}

/// Marks an entity as driven by input.
#[derive(Clone, Copy, PartialEq, Eq, Debug, Structural)]
pub struct Controlled;

/// Marks an entity as immovable: collision response never pushes it.
#[derive(Clone, Copy, PartialEq, Eq, Debug, Structural)]
pub struct Static;

/// Marks an entity as affected by gravity. A `Static` entity ignores
/// gravity even if marked.
#[derive(Clone, Copy, PartialEq, Eq, Debug, Structural)]
pub struct Gravity;

/// Marks an entity as simulated by the physics backend.
#[derive(Clone, Copy, PartialEq, Eq, Debug, Structural)]
pub struct RigidBody;

/// The primitive shape an entity is drawn as. The engine stores it but
/// never draws; `Custom` names an imported model.
#[derive(Clone, PartialEq, Eq, Debug)]
pub enum Mesh {
    Cube,
    Sphere,
    Plane,
    Custom(String),
}

impl Default for Mesh {
    /// `Cube`, so scenes saved before meshes existed look as they did.
    fn default() -> (m: Self)
        ensures
            m is Cube,
    {
        Mesh::Cube
    }
}

/// One menu action a plugin declares: a label, and one of a small, fixed
/// set of things the editor knows how to do with it.
#[derive(Clone, PartialEq, Debug)]
pub struct PluginAction {
    pub label: String,
    pub kind: PluginActionKind,
}

/// What a `PluginAction` does when clicked.
#[derive(Clone, PartialEq, Debug)]
pub enum PluginActionKind {
    /// Run the named script once, now, for every entity that has it assigned.
    RunScript { script: String },
    /// Flip a named per-entity value between 0 and 1 for every entity that has one.
    ToggleValue { name: String },
    /// Flip a named global value between 0 and 1.
    ToggleGlobal { name: String },
}

/// Whether a script slot holds a reference to the library script `name`.
pub open spec fn uses_script(slot: Option<Script>, name: Seq<char>) -> bool {
    match slot {
        Some(s) => s.uses@ == name,
        None => false,
    }
}

/// The entities whose script is the library script `name`, in increasing
/// id order: the ones a `RunScript` action runs.
pub fn entities_using(scripts: &ComponentStorage<Script>, name: &str) -> (ids: Vec<usize>)
    ensures
        forall|k: int|
            0 <= k < ids@.len() ==> (#[trigger] ids@[k]) < scripts@.len() && uses_script(
                scripts@[ids@[k] as int],
                name@,
            ),
        forall|k: int, l: int| 0 <= k < l < ids@.len() ==> ids@[k] < ids@[l],
        forall|i: int|
            0 <= i < scripts@.len() && uses_script(#[trigger] scripts@[i], name@)
                ==> ids@.contains(i as usize),
{
    let wanted: String = name.to_owned();
    let n = scripts.len();
    let mut ids: Vec<usize> = Vec::new();
    let mut i: usize = 0;
    while i < n
        invariant
            0 <= i <= n,
            n == scripts@.len(),
            wanted@ == name@,
            forall|k: int|
                0 <= k < ids@.len() ==> (#[trigger] ids@[k]) < i && uses_script(
                    scripts@[ids@[k] as int],
                    name@,
                ),
            forall|k: int, l: int| 0 <= k < l < ids@.len() ==> ids@[k] < ids@[l],
            forall|j: int|
                0 <= j < i && uses_script(#[trigger] scripts@[j], name@)
                    ==> ids@.contains(j as usize),
        decreases n - i,
    {
        let ghost before = ids@;
        let matches = match scripts.get(i) {
            Some(s) => s.uses == wanted,
            None => false,
        };
        if matches {
            ids.push(i);
        }
        assert forall|j: int|
            0 <= j < i + 1 && uses_script(#[trigger] scripts@[j], name@)
                implies ids@.contains(j as usize) by {
            if j < i {
                let k = choose|k: int| 0 <= k < before.len() && before[k] == j as usize;
                assert(ids@[k] == j as usize);
            } else {
                assert(ids@[ids@.len() - 1] == j as usize);
            }
        }
        i = i + 1;
    }
    ids
}

/// Write the inspector's marker edits back for entity `id`: `Controlled`
/// exactly when its box is ticked, and the chosen library script, or none.
pub fn apply_inspector_markers(
    controlled: &mut ComponentStorage<Controlled>,
    scripts: &mut ComponentStorage<Script>,
    id: usize,
    is_controlled: bool,
    script: Option<String>,
)
    requires
        id < usize::MAX,
    ensures
        final(controlled)@ == if is_controlled {
            with_inserted(old(controlled)@, id as int, Controlled)
        } else {
            with_removed(old(controlled)@, id as int)
        },
        final(scripts)@ == match script {
            Some(uses) => with_inserted(old(scripts)@, id as int, Script { uses }),
            None => with_removed(old(scripts)@, id as int),
        },
{
    if is_controlled {
        controlled.insert(id, Controlled);
    } else {
        controlled.remove(id);
    }
    match script {
        Some(uses) => scripts.insert(id, Script { uses }),
        None => scripts.remove(id),
    }
}

} // verus!
