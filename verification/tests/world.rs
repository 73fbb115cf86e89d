use frame_engine::storage::ComponentStorage;
use frame_engine::world::{apply_inspector_markers, entities_using, Controlled, Script};

#[test]
fn inspector_markers_written_back() {
    let mut controlled: ComponentStorage<Controlled> = ComponentStorage::new();
    let mut scripts: ComponentStorage<Script> = ComponentStorage::new();
    apply_inspector_markers(&mut controlled, &mut scripts, 2, true, Some("spin".to_string()));
    assert!(controlled.get(2).is_some());
    assert_eq!(scripts.get(2).map(|s| s.uses.as_str()), Some("spin"));
    assert_eq!(entities_using(&scripts, "spin"), vec![2]);
    apply_inspector_markers(&mut controlled, &mut scripts, 2, false, None);
    assert!(controlled.get(2).is_none());
    assert!(scripts.get(2).is_none());
    assert!(entities_using(&scripts, "spin").is_empty());
}
