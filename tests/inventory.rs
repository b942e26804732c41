use recipe_smith::inventory::{Item, PlayerInventory, StorageContainer, UUID_LAYOUT_MASK, UUID_V4_LAYOUT};

fn item(name: &str) -> Item {
    Item { name: name.to_string(), model: None, meta_tags: Vec::new() }
}

#[test]
fn new_inventory_has_empty_slots() {
    let inv = PlayerInventory::new(3);
    assert_eq!(inv.slots.len(), 3);
    assert!(inv.get_item(0).is_none());
    assert!(inv.get_item(2).is_none());
    assert!(!inv.is_full());
    assert!(PlayerInventory::new(0).is_full());
}

#[test]
fn add_get_remove_round_trip() {
    let mut inv = PlayerInventory::new(2);
    inv.add_item(1, item("Sword"));
    assert_eq!(inv.get_item(1).unwrap().name, "Sword");
    inv.add_item(1, item("Axe"));
    assert_eq!(inv.get_item(1).unwrap().name, "Axe");
    let removed = inv.remove_item(1).unwrap();
    assert_eq!(removed.name, "Axe");
    assert!(inv.get_item(1).is_none());
    assert!(inv.remove_item(1).is_none());
}

#[test]
fn out_of_range_slots_are_absent_and_ignored() {
    let mut inv = PlayerInventory::new(2);
    inv.add_item(5, item("Gem"));
    assert_eq!(inv.slots.len(), 2);
    assert!(inv.get_item(5).is_none());
    assert!(inv.remove_item(5).is_none());
    inv.empty_slot(9);
    assert_eq!(inv.slots.len(), 2);
}

#[test]
fn empty_slot_clears() {
    let mut inv = PlayerInventory::new(1);
    inv.add_item(0, item("Rock"));
    assert!(inv.is_full());
    inv.empty_slot(0);
    assert!(inv.get_item(0).is_none());
    assert!(!inv.is_full());
}

#[test]
fn store_uses_first_empty_slot() {
    let mut inv = PlayerInventory::new(3);
    inv.add_item(0, item("A"));
    assert_eq!(inv.store(item("B")).ok(), Some(1));
    assert_eq!(inv.store(item("C")).ok(), Some(2));
    let back = inv.store(item("D")).err().unwrap();
    assert_eq!(back.name, "D");
    let names: Vec<String> = inv.items().into_iter().map(|i| i.name).collect();
    assert_eq!(names, vec!["A", "B", "C"]);
}

#[test]
fn duplicate_item_keeps_model_and_tags() {
    let it = Item {
        name: "Lamp".to_string(),
        model: Some("lamp.glb".to_string()),
        meta_tags: vec![("glow".to_string(), "true".to_string())],
    };
    let copy = it.duplicate();
    assert_eq!(copy.name, "Lamp");
    assert_eq!(copy.model.as_deref(), Some("lamp.glb"));
    assert_eq!(copy.meta_tags, vec![("glow".to_string(), "true".to_string())]);
}

#[test]
fn storage_containers_get_random_version_four_ids() {
    let a = StorageContainer::new(4);
    let b = StorageContainer::new(4);
    assert_ne!(a.uuid, b.uuid);
    assert_eq!((a.uuid >> 76) & 0xF, 4);
    assert_eq!((a.uuid >> 62) & 0x3, 2);
    assert_eq!(b.uuid & UUID_LAYOUT_MASK, UUID_V4_LAYOUT);
    assert_eq!(a.inventory.slots.len(), 4);
}
