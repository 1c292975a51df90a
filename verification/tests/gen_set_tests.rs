use factorish::gen_set::{GenEntry, GenId, GenPayload, GenSet};

#[test]
fn add_then_get_returns_value() {
    let mut set: GenSet<i32> = GenSet::new();
    let a = set.add(10);
    let b = set.add(20);
    assert_eq!(set.get(a), Some(&10));
    assert_eq!(set.get(b), Some(&20));
    assert_eq!(set.len(), 2);
    assert_eq!((a.id, a.gen), (0, 0));
    assert_eq!((b.id, b.gen), (1, 0));
}

#[test]
fn remove_frees_and_reuses_slot_with_next_generation() {
    let mut set: GenSet<&str> = GenSet::new();
    let a = set.add("a");
    let b = set.add("b");
    assert_eq!(set.remove(a), Some("a"));
    assert_eq!(set.get(a), None);
    assert_eq!(set.remove(a), None);
    let c = set.add("c");
    assert_eq!((c.id, c.gen), (0, 1));
    assert_eq!(set.get(a), None);
    assert_eq!(set.get(c), Some(&"c"));
    assert_eq!(set.get(b), Some(&"b"));
    assert_eq!(set.len(), 2);
}

#[test]
fn stale_handle_never_reaches_new_value() {
    let mut set: GenSet<u8> = GenSet::new();
    let a = set.add(1);
    set.remove(a);
    let b = set.add(2);
    assert_eq!(b.id, a.id);
    assert_ne!(b.gen, a.gen);
    assert!(set.get(a).is_none());
    assert!(set.get_mut(a).is_none());
}

#[test]
fn handle_with_unknown_slot_is_none() {
    let mut set: GenSet<u8> = GenSet::new();
    set.add(1);
    assert!(set.get(GenId::new(5, 0)).is_none());
    assert!(set.remove(GenId::new(5, 0)).is_none());
    assert!(set.get(GenId::new(0, 3)).is_none());
}

#[test]
fn get_mut_changes_value() {
    let mut set: GenSet<i32> = GenSet::new();
    let a = set.add(1);
    if let Some(v) = set.get_mut(a) {
        *v = 7;
    }
    assert_eq!(set.get(a), Some(&7));
}

#[test]
fn iter_and_items_skip_free_slots() {
    let mut set: GenSet<i32> = GenSet::new();
    let a = set.add(1);
    let b = set.add(2);
    let c = set.add(3);
    set.remove(b);
    let values: Vec<i32> = set.iter().into_iter().copied().collect();
    assert_eq!(values, vec![1, 3]);
    let items = set.items();
    assert_eq!(items.len(), 2);
    assert!(items[0].0 == a);
    assert_eq!(*items[0].1, 1);
    assert!(items[1].0 == c);
    assert_eq!(*items[1].1, 3);
}

#[test]
fn retain_frees_rejected_values_and_chains_free_slots() {
    let mut set: GenSet<i32> = GenSet::new();
    let ids: Vec<_> = (0..5).map(|i| set.add(i)).collect();
    set.retain(|v| v % 2 == 0);
    let values: Vec<i32> = set.iter().into_iter().copied().collect();
    assert_eq!(values, vec![0, 2, 4]);
    assert!(set.get(ids[1]).is_none());
    assert!(set.get(ids[3]).is_none());
    // Freed slots are reused, the most recently freed first.
    let x = set.add(10);
    let y = set.add(11);
    assert_eq!((x.id, x.gen), (3, 1));
    assert_eq!((y.id, y.gen), (1, 1));
    let z = set.add(12);
    assert_eq!((z.id, z.gen), (5, 0));
}

#[test]
fn retain_with_id_sees_handles() {
    let mut set: GenSet<i32> = GenSet::new();
    let a = set.add(1);
    let _b = set.add(2);
    set.retain_with_id(|id, _| id.id == a.id);
    assert_eq!(set.iter().len(), 1);
    assert_eq!(set.get(a), Some(&1));
}

#[test]
fn extend_and_from_iter_fill_in_order() {
    let set = GenSet::from_iter(vec![5, 6, 7]);
    assert_eq!(set.len(), 3);
    assert_eq!(set.get(GenId::new(2, 0)), Some(&7));
    let mut set2: GenSet<i32> = GenSet::new();
    set2.extend(vec![1, 2]);
    assert_eq!(set2.iter().into_iter().copied().collect::<Vec<_>>(), vec![1, 2]);
}

#[test]
fn clear_empties_set() {
    let mut set = GenSet::from_iter(vec![1, 2, 3]);
    set.clear();
    assert_eq!(set.len(), 0);
    let a = set.add(9);
    assert_eq!((a.id, a.gen), (0, 0));
}

#[test]
fn get_by_index_shows_slots() {
    let mut set = GenSet::from_iter(vec![1, 2]);
    set.remove(GenId::new(0, 0));
    let e0 = set.get_by_index(0).unwrap();
    assert!(e0.item.is_free());
    assert!(!e0.item.is_occupied());
    let e1 = set.get_by_index(1).unwrap();
    assert!(e1.item.is_occupied());
    assert_eq!(e1.item.as_ref(), Some(&2));
    assert!(set.get_by_index(2).is_none());
    if let Some(e) = set.get_by_index_mut(1) {
        e.gen = 4;
    }
    assert!(set.get(GenId::new(1, 0)).is_none());
    assert_eq!(set.get(GenId::new(1, 4)), Some(&2));
}

#[test]
fn payload_take_leaves_free() {
    let mut p = GenPayload::new(3);
    assert_eq!(p.as_mut().map(|v| *v), Some(3));
    assert_eq!(p.take(), Some(3));
    assert!(p.is_free());
    assert_eq!(p.take(), None);
}

fn copy_parts(set: &GenSet<i32>) -> (Vec<GenEntry<i32>>, Option<usize>) {
    let v = set
        .entries()
        .iter()
        .map(|e| GenEntry {
            gen: e.gen,
            item: match &e.item {
                GenPayload::Occupied(x) => GenPayload::Occupied(*x),
                GenPayload::Free(p) => GenPayload::Free(*p),
            },
        })
        .collect();
    (v, set.free_head())
}

#[test]
fn parts_round_trip_keeps_handles() {
    let mut set: GenSet<i32> = GenSet::new();
    let a = set.add(1);
    let b = set.add(2);
    let c = set.add(3);
    set.remove(b);
    let (v, head) = copy_parts(&set);
    assert_eq!(head, Some(1));
    let mut back = GenSet::from_parts(v, head).unwrap();
    assert_eq!(back.get(a), Some(&1));
    assert_eq!(back.get(b), None);
    assert_eq!(back.get(c), Some(&3));
    let d = back.add(4);
    assert_eq!((d.id, d.gen), (1, 1));
}

#[test]
fn from_parts_rejects_broken_free_lists() {
    let occupied = |x: i32| GenEntry { gen: 0, item: GenPayload::Occupied(x) };
    let free = |p: Option<usize>| GenEntry::<i32> { gen: 0, item: GenPayload::Free(p) };
    // Head beyond the slots.
    assert!(GenSet::from_parts(vec![occupied(1)], Some(1)).is_none());
    // Head at an occupied slot.
    assert!(GenSet::from_parts(vec![occupied(1)], Some(0)).is_none());
    // A free list that loops.
    assert!(GenSet::from_parts(vec![free(Some(1)), free(Some(0))], Some(0)).is_none());
    // A sound free list of two slots.
    let set = GenSet::from_parts(vec![free(Some(1)), free(None), occupied(5)], Some(0)).unwrap();
    assert_eq!(set.len(), 3);
    assert_eq!(set.iter(), vec![&5]);
    assert_eq!(set.free_head(), Some(0));
    // No free list at all.
    assert!(GenSet::from_parts(vec![occupied(1), occupied(2)], None).is_some());
}
