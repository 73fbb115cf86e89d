use frame_engine::physics::{plan_body_sync, BodyToCreate};
use frame_engine::storage::ComponentStorage;
use frame_engine::systems::{falling_entities, ids_with_both};
use frame_engine::world::{
    entities_using, Controlled, Gravity, Mesh, PluginAction, PluginActionKind, RigidBody, Script,
    Static,
};

#[test]
fn gravity_skips_static_and_unmarked() {
    let mut velocities: ComponentStorage<u8> = ComponentStorage::new();
    let mut gravities: ComponentStorage<Gravity> = ComponentStorage::new();
    let mut statics: ComponentStorage<Static> = ComponentStorage::new();
    for id in 0..4 {
        velocities.insert(id, 0);
    }
    gravities.insert(0, Gravity);
    gravities.insert(1, Gravity);
    gravities.insert(3, Gravity);
    gravities.insert(5, Gravity);
    statics.insert(1, Static);
    assert_eq!(falling_entities(&velocities, &gravities, &statics), vec![0, 3]);
}

#[test]
fn pairs_of_components() {
    let mut positions: ComponentStorage<u8> = ComponentStorage::new();
    let mut controlled: ComponentStorage<Controlled> = ComponentStorage::new();
    positions.insert(0, 1);
    positions.insert(2, 1);
    positions.insert(3, 1);
    controlled.insert(2, Controlled);
    controlled.insert(3, Controlled);
    controlled.insert(7, Controlled);
    positions.remove(3);
    assert_eq!(ids_with_both(&positions, &controlled), vec![2]);
}

#[test]
fn scripts_by_name() {
    let mut scripts: ComponentStorage<Script> = ComponentStorage::new();
    scripts.insert(0, Script { uses: "orbit".to_string() });
    scripts.insert(2, Script { uses: "bob".to_string() });
    scripts.insert(5, Script { uses: "orbit".to_string() });
    assert_eq!(entities_using(&scripts, "orbit"), vec![0, 5]);
    assert_eq!(entities_using(&scripts, "pulse"), Vec::<usize>::new());
    assert_eq!(scripts.ids(), vec![0, 2, 5]);
}

#[test]
fn plain_components() {
    assert_eq!(Mesh::default(), Mesh::Cube);
    assert_ne!(Mesh::Custom("tree".to_string()), Mesh::Plane);
    let action = PluginAction {
        label: "Run".to_string(),
        kind: PluginActionKind::RunScript { script: "mywander/patrol".to_string() },
    };
    assert_eq!(action.clone(), action);
}

#[test]
fn bodies_to_create_and_remove() {
    let mut marked: ComponentStorage<RigidBody> = ComponentStorage::new();
    let mut controlled: ComponentStorage<Controlled> = ComponentStorage::new();
    let mut positions: ComponentStorage<u8> = ComponentStorage::new();
    let mut statics: ComponentStorage<Static> = ComponentStorage::new();
    let mut gravities: ComponentStorage<Gravity> = ComponentStorage::new();
    for id in 0..6 {
        positions.insert(id, 0);
    }
    for id in [0, 1, 2, 3, 4] {
        marked.insert(id, RigidBody);
    }
    statics.insert(0, Static);
    gravities.insert(1, Gravity);
    gravities.insert(2, Gravity);
    controlled.insert(2, Controlled);
    gravities.insert(4, Gravity);
    positions.remove(4);
    // 3 has neither marker, 4 has no position, 2 is controlled.
    let plan = plan_body_sync(&marked, &vec![1, 5, 7], &controlled, &positions, &statics, &gravities);
    assert_eq!(plan.create, vec![BodyToCreate { id: 0, fixed: true }]);
    assert_eq!(plan.remove, vec![5, 7]);
}
