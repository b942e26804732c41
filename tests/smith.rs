use recipe_smith::inventory::{Item, PlayerInventory, UUID_LAYOUT_MASK, UUID_V4_LAYOUT};
use recipe_smith::recipe::{Crafter, Ingredient, Recipe};
use recipe_smith::smith::{CraftError, CraftEvent, RecipeSmith, PLAYER_INVENTORY_SLOTS};

fn item(name: &str) -> Item {
    Item { name: name.to_string(), model: None, meta_tags: Vec::new() }
}

fn recipe(name: &str, needs: &[(&str, u32)], outcome: &str, crafters: &[&str]) -> Recipe {
    Recipe {
        name: name.to_string(),
        ingredients: needs
            .iter()
            .map(|(n, q)| Ingredient { name: n.to_string(), quantity: *q, recipe_craftable: false })
            .collect(),
        outcome: outcome.to_string(),
        crafters: crafters.iter().map(|c| Crafter { name: c.to_string() }).collect(),
        base_cook_time: 0,
        cook_count: 0,
    }
}

fn names(smith: &RecipeSmith, player: &str) -> Vec<String> {
    smith.get_player_inventory_contents(player).unwrap().into_iter().map(|i| i.name).collect()
}

#[test]
fn joining_player_gets_standard_inventory() {
    let mut smith = RecipeSmith::new();
    smith.on_player_joined("alice");
    let inv = smith.get_player_inventory("alice").unwrap();
    assert_eq!(inv.slots.len(), PLAYER_INVENTORY_SLOTS as usize);
    assert!(smith.get_player_inventory("bob").is_none());
}

#[test]
fn craft_consumes_items_and_places_product() {
    let mut smith = RecipeSmith::new();
    smith.add_new_recipe(recipe("Plank", &[("Log", 1)], "Plank", &["Saw"]));
    smith.create_player_inventory("alice", 3);
    smith.add_item_to_player_inventory("alice", item("Stone")).unwrap();
    smith.add_item_to_player_inventory("alice", item("Log")).unwrap();
    let (r, events) = smith.craft_item("alice", "Plank");
    assert_eq!(r, Ok("Plank".to_string()));
    assert_eq!(names(&smith, "alice"), vec!["Stone", "Plank"]);
    assert_eq!(events.len(), 2);
    assert!(matches!(&events[0], CraftEvent::ItemCrafted(n) if n == "Plank"));
    assert!(matches!(&events[1], CraftEvent::InventoryChanged(p) if p == "alice"));
    assert_eq!(smith.get_all_recipes()[0].cook_count, 1);
}

#[test]
fn craft_failures_change_nothing() {
    let mut smith = RecipeSmith::new();
    smith.add_new_recipe(recipe("Plank", &[("Log", 2)], "Plank", &[]));
    smith.create_player_inventory("alice", 2);
    smith.add_item_to_player_inventory("alice", item("Log")).unwrap();
    let (r, events) = smith.craft_item("alice", "Plank");
    assert_eq!(r, Err(CraftError::Rejected));
    assert!(matches!(&events[0], CraftEvent::CraftingFailed(n) if n == "Plank"));
    assert_eq!(names(&smith, "alice"), vec!["Log"]);
    assert_eq!(smith.get_all_recipes()[0].cook_count, 0);
    let (r2, events2) = smith.craft_item("nobody", "Plank");
    assert_eq!(r2, Err(CraftError::InventoryNotFound));
    assert!(events2.is_empty());
    let (r3, _) = smith.craft_item("alice", "Unknown");
    assert_eq!(r3, Err(CraftError::Rejected));
}

#[test]
fn craft_into_full_inventory_is_refused() {
    let mut smith = RecipeSmith::new();
    smith.add_new_recipe(recipe("Idea", &[], "Idea", &[]));
    smith.create_player_inventory("alice", 1);
    smith.add_item_to_player_inventory("alice", item("Rock")).unwrap();
    let (r, events) = smith.craft_item("alice", "Idea");
    assert_eq!(r, Err(CraftError::InventoryFull));
    assert_eq!(events.len(), 1);
    assert_eq!(names(&smith, "alice"), vec!["Rock"]);
    assert_eq!(smith.get_all_recipes()[0].cook_count, 0);
}

#[test]
fn tenth_craft_reports_mastery() {
    let mut smith = RecipeSmith::new();
    smith.add_new_recipe(recipe("Spark", &[], "Spark", &[]));
    smith.create_player_inventory("alice", 20);
    for _ in 0..9 {
        let (r, events) = smith.craft_item("alice", "Spark");
        assert!(r.is_ok());
        assert_eq!(events.len(), 2);
    }
    let (r, events) = smith.craft_item("alice", "Spark");
    assert!(r.is_ok());
    assert_eq!(events.len(), 3);
    assert!(matches!(&events[2], CraftEvent::RecipeMastered(n) if n == "Spark"));
}

#[test]
fn add_and_remove_items_report_failures() {
    let mut smith = RecipeSmith::new();
    assert_eq!(smith.add_item_to_player_inventory("alice", item("A")), Err("Player inventory not found".to_string()));
    smith.create_player_inventory("alice", 1);
    assert_eq!(smith.add_item_to_player_inventory("alice", item("A")), Ok(()));
    assert_eq!(smith.add_item_to_player_inventory("alice", item("B")), Err("Inventory is full".to_string()));
    assert_eq!(smith.remove_item_from_player_inventory("alice", "B"), Err("Item not found in inventory".to_string()));
    assert_eq!(smith.remove_item_from_player_inventory("alice", "A"), Ok(()));
    assert!(names(&smith, "alice").is_empty());
    assert_eq!(smith.remove_item_from_player_inventory("carol", "A"), Err("Player inventory not found".to_string()));
}

#[test]
fn transfer_moves_or_leaves_both_unchanged() {
    let smith = RecipeSmith::new();
    let mut from = PlayerInventory::new(2);
    from.add_item(1, item("Gem"));
    let mut to = PlayerInventory::new(1);
    assert_eq!(smith.transfer_item(&mut from, &mut to, "Gem"), Ok(()));
    assert!(from.get_item(1).is_none());
    assert_eq!(to.get_item(0).unwrap().name, "Gem");

    from.add_item(0, item("Coin"));
    assert_eq!(smith.transfer_item(&mut from, &mut to, "Coin"), Err("Destination inventory is full".to_string()));
    assert_eq!(from.get_item(0).unwrap().name, "Coin");
    assert_eq!(to.get_item(0).unwrap().name, "Gem");

    assert_eq!(smith.transfer_item(&mut from, &mut to, "Ruby"), Err("Item not found in source inventory".to_string()));
}

#[test]
fn recipes_by_crafter_in_order_added() {
    let mut smith = RecipeSmith::new();
    smith.add_new_recipe(recipe("Bread", &[], "Bread", &["Oven"]));
    smith.add_new_recipe(recipe("Nail", &[], "Nail", &["Forge"]));
    smith.add_new_recipe(recipe("Pie", &[], "Pie", &["Oven", "Forge"]));
    let oven: Vec<String> = smith.get_recipes_by_crafter("Oven").into_iter().map(|r| r.name).collect();
    assert_eq!(oven, vec!["Bread", "Pie"]);
    let forge: Vec<String> = smith.get_recipes_by_crafter("Forge").into_iter().map(|r| r.name).collect();
    assert_eq!(forge, vec!["Nail", "Pie"]);
    assert_eq!(smith.get_all_recipes().len(), 3);
}

#[test]
fn update_replaces_inventory_and_container_access_event() {
    let mut smith = RecipeSmith::new();
    smith.create_player_inventory("alice", 1);
    let mut inv = PlayerInventory::new(2);
    inv.add_item(1, item("Key"));
    smith.update_player_inventory("alice", inv);
    assert_eq!(smith.get_player_inventory("alice").unwrap().slots.len(), 2);
    assert_eq!(names(&smith, "alice"), vec!["Key"]);
    let c = smith.create_storage_container(3);
    assert_eq!(c.uuid & UUID_LAYOUT_MASK, UUID_V4_LAYOUT);
    assert_eq!(c.inventory.slots.len(), 3);
    match smith.access_storage_container(&c, "alice") {
        CraftEvent::StorageContainerAccessed(p, id) => {
            assert_eq!(p, "alice");
            assert_eq!(id, c.uuid);
        }
        _ => panic!("wrong event"),
    }
}
