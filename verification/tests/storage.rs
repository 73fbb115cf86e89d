use frame_engine::storage::ComponentStorage;

#[test]
fn insert_grows_with_empty_slots() {
    let mut s: ComponentStorage<u32> = ComponentStorage::new();
    s.insert(3, 7);
    assert_eq!(s.len(), 4);
    assert_eq!(s.get(3), Some(&7));
    assert_eq!(s.get(0), None);
    assert_eq!(s.get(10), None);
}

#[test]
fn insert_overwrites_and_remove_clears() {
    let mut s: ComponentStorage<u32> = ComponentStorage::default();
    s.insert(0, 1);
    s.insert(0, 2);
    assert_eq!(s.get(0), Some(&2));
    s.remove(0);
    assert_eq!(s.get(0), None);
    assert_eq!(s.len(), 1);
    s.remove(9);
    assert_eq!(s.len(), 1);
}

#[test]
fn get_mut_writes_through() {
    let mut s: ComponentStorage<u32> = ComponentStorage::new();
    s.insert(1, 5);
    if let Some(v) = s.get_mut(1) {
        *v = 9;
    }
    assert_eq!(s.get(1), Some(&9));
    assert!(s.get_mut(0).is_none());
}

#[test]
fn freed_slot_is_reused_first() {
    let mut s: ComponentStorage<u32> = ComponentStorage::new();
    for id in 0..4 {
        s.insert(id, id as u32);
    }
    assert_eq!(s.first_free(), 4);
    s.remove(2);
    s.remove(1);
    assert_eq!(s.first_free(), 1);
}

#[test]
fn ids_and_iter_walk_in_order() {
    let mut s: ComponentStorage<char> = ComponentStorage::new();
    s.insert(4, 'd');
    s.insert(1, 'a');
    assert_eq!(s.ids(), vec![1, 4]);
    let slots: Vec<Option<char>> = s.iter().cloned().collect();
    assert_eq!(slots, vec![None, Some('a'), None, None, Some('d')]);
}

#[test]
fn iter_mut_writes_every_slot() {
    let mut s: ComponentStorage<u32> = ComponentStorage::new();
    s.insert(0, 1);
    s.insert(2, 3);
    for slot in s.iter_mut().iter_mut() {
        if let Some(v) = slot {
            *v += 10;
        }
    }
    assert_eq!(s.get(0), Some(&11));
    assert_eq!(s.get(1), None);
    assert_eq!(s.get(2), Some(&13));
    assert_eq!(s.len(), 3);
}
