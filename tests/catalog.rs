use recipe_smith::catalog::{ImportError, RecipeBook};
use recipe_smith::recipe::{Crafter, Ingredient, Recipe};

fn ing(name: &str, quantity: u32, craftable: bool) -> Ingredient {
    Ingredient { name: name.to_string(), quantity, recipe_craftable: craftable }
}

fn recipe(name: &str, ingredients: Vec<Ingredient>, outcome: &str, crafters: &[&str]) -> Recipe {
    Recipe {
        name: name.to_string(),
        ingredients,
        outcome: outcome.to_string(),
        crafters: crafters.iter().map(|c| Crafter { name: c.to_string() }).collect(),
        base_cook_time: 0,
        cook_count: 0,
    }
}

fn bread() -> Recipe {
    recipe("Bread", vec![ing("Flour", 2, false), ing("Water", 1, false)], "Bread", &["Oven"])
}

fn quantity(inv: &[Ingredient], name: &str) -> u32 {
    inv.iter().find(|i| i.name == name).unwrap().quantity
}

#[test]
fn bread_is_crafted_from_exact_supply() {
    let mut book = RecipeBook::new();
    book.add_recipe(bread());
    let mut inv = vec![ing("Flour", 2, true), ing("Water", 1, true)];
    assert!(book.can_craft("Bread", &inv));
    let out = book.craft("Bread", &mut inv);
    assert_eq!(out, Some("Bread".to_string()));
    assert_eq!(quantity(&inv, "Flour"), 0);
    assert_eq!(quantity(&inv, "Water"), 0);
    assert_eq!(book.get_recipe("Bread").unwrap().cook_count, 1);
}

#[test]
fn bread_is_rejected_on_short_supply() {
    let mut book = RecipeBook::new();
    book.add_recipe(bread());
    let mut inv = vec![ing("Flour", 1, true), ing("Water", 1, true)];
    assert!(!book.can_craft("Bread", &inv));
    assert_eq!(book.craft("Bread", &mut inv), None);
    assert_eq!(quantity(&inv, "Flour"), 1);
    assert_eq!(quantity(&inv, "Water"), 1);
    assert_eq!(book.get_recipe("Bread").unwrap().cook_count, 0);
}

#[test]
fn rejected_craft_leaves_everything_unchanged() {
    let mut book = RecipeBook::new();
    book.add_recipe(bread());
    let mut inv = vec![ing("Flour", 5, false), ing("Water", 3, true)];
    assert!(!book.can_craft("Bread", &inv));
    assert_eq!(book.craft("Bread", &mut inv), None);
    assert_eq!(inv.len(), 2);
    assert_eq!(quantity(&inv, "Flour"), 5);
    assert!(!inv[0].recipe_craftable);
    assert_eq!(quantity(&inv, "Water"), 3);
}

#[test]
fn missing_material_or_recipe_is_rejected() {
    let mut book = RecipeBook::new();
    book.add_recipe(bread());
    assert!(!book.can_craft("Bread", &vec![ing("Flour", 9, true)]));
    assert!(!book.can_craft("Cake", &vec![ing("Flour", 9, true), ing("Water", 9, true)]));
    let mut inv = vec![ing("Flour", 9, true), ing("Water", 9, true)];
    assert_eq!(book.craft("Cake", &mut inv), None);
    assert_eq!(quantity(&inv, "Flour"), 9);
}

#[test]
fn more_supply_keeps_a_recipe_craftable() {
    let mut book = RecipeBook::new();
    book.add_recipe(bread());
    let small = vec![ing("Flour", 2, true), ing("Water", 1, true)];
    let large = vec![ing("Salt", 4, true), ing("Water", 7, true), ing("Flour", 3, true)];
    assert!(book.can_craft("Bread", &small));
    assert!(book.can_craft("Bread", &large));
}

#[test]
fn repeated_requirements_are_each_met_but_crafted_together() {
    let mut book = RecipeBook::new();
    book.add_recipe(recipe("Dough", vec![ing("Flour", 2, false), ing("Flour", 2, false)], "Dough", &[]));
    let mut three = vec![ing("Flour", 3, true)];
    assert!(book.can_craft("Dough", &three));
    assert_eq!(book.craft("Dough", &mut three), None);
    assert_eq!(quantity(&three, "Flour"), 3);
    assert_eq!(book.get_recipe("Dough").unwrap().cook_count, 0);
    let mut enough = vec![ing("Flour", 5, true)];
    assert_eq!(book.craft("Dough", &mut enough), Some("Dough".to_string()));
    assert_eq!(quantity(&enough, "Flour"), 1);
    assert!(!book.can_craft("Dough", &vec![ing("Flour", 1, true)]));
}

#[test]
fn quantities_stay_non_negative_over_many_crafts() {
    let mut book = RecipeBook::new();
    book.add_recipe(bread());
    let mut inv = vec![ing("Flour", 7, true), ing("Water", 3, true)];
    let mut made = 0;
    while book.craft("Bread", &mut inv).is_some() {
        made += 1;
    }
    assert_eq!(made, 3);
    assert_eq!(quantity(&inv, "Flour"), 1);
    assert_eq!(quantity(&inv, "Water"), 0);
}

#[test]
fn mastery_comes_at_the_tenth_craft() {
    let mut book = RecipeBook::new();
    book.add_recipe(bread());
    let mut inv = vec![ing("Flour", 100, true), ing("Water", 100, true)];
    for _ in 0..9 {
        assert!(book.craft("Bread", &mut inv).is_some());
    }
    let nine = book.get_recipe("Bread").unwrap();
    assert_eq!(nine.cook_count, 9);
    assert!(!nine.is_mastered());
    assert!(book.craft("Bread", &mut inv).is_some());
    let ten = book.get_recipe("Bread").unwrap();
    assert_eq!(ten.cook_count, 10);
    assert!(ten.is_mastered());
}

#[test]
fn cook_count_stops_at_its_largest_value() {
    let mut r = bread();
    r.cook_count = u32::MAX;
    r.increment_cook_count();
    assert_eq!(r.cook_count, u32::MAX);
    let mut s = bread();
    s.increment_cook_count();
    assert_eq!(s.cook_count, 1);
}

#[test]
fn added_recipe_is_listed_under_each_crafter() {
    let mut book = RecipeBook::new();
    book.add_recipe(recipe("Stew", vec![], "Stew", &["Pot", "Fire"]));
    for c in ["Pot", "Fire"] {
        let found = book.get_recipes_for_crafter(&Crafter { name: c.to_string() });
        assert_eq!(found.len(), 1);
        assert_eq!(found[0].name, "Stew");
    }
    assert!(book.get_recipes_for_crafter(&Crafter { name: "Anvil".to_string() }).is_empty());
}

#[test]
fn adding_twice_replaces_and_lists_once() {
    let mut book = RecipeBook::new();
    book.add_recipe(bread());
    let mut again = bread();
    again.outcome = "Loaf".to_string();
    book.add_recipe(again);
    assert_eq!(book.get_recipe("Bread").unwrap().outcome, "Loaf");
    let found = book.get_recipes_for_crafter(&Crafter { name: "Oven".to_string() });
    assert_eq!(found.len(), 1);
    assert_eq!(found[0].outcome, "Loaf");
    assert_eq!(book.all_recipes().len(), 1);
}

#[test]
fn import_of_two_recipes_sharing_a_crafter() {
    let mut book = RecipeBook::new();
    let records = vec![
        Ok(recipe("Bread", vec![ing("Flour", 2, false)], "Bread", &["Oven"])),
        Ok(recipe("Pie", vec![ing("Apple", 3, false)], "Pie", &["Oven"])),
    ];
    assert!(book.import_recipes(records).is_ok());
    let found = book.get_recipes_for_crafter(&Crafter { name: "Oven".to_string() });
    let names: Vec<&str> = found.iter().map(|r| r.name.as_str()).collect();
    assert_eq!(names, vec!["Bread", "Pie"]);
}

#[test]
fn import_stops_at_the_first_bad_record_and_keeps_earlier_ones() {
    let mut book = RecipeBook::new();
    let records = vec![
        Ok(recipe("Bread", vec![], "Bread", &["Oven"])),
        Err(ImportError::Malformed("row 2".to_string())),
        Ok(recipe("Pie", vec![], "Pie", &["Oven"])),
    ];
    let r = book.import_recipes(records);
    assert!(matches!(r, Err(ImportError::Malformed(ref m)) if m == "row 2"));
    assert!(book.get_recipe("Bread").is_some());
    assert!(book.get_recipe("Pie").is_none());
}

#[test]
fn get_recipe_returns_a_full_copy() {
    let mut book = RecipeBook::new();
    book.add_recipe(bread());
    let r = book.get_recipe("Bread").unwrap();
    assert_eq!(r.ingredients.len(), 2);
    assert_eq!(r.ingredients[0].name, "Flour");
    assert_eq!(r.ingredients[0].quantity, 2);
    assert_eq!(r.crafters[0].name, "Oven");
    assert!(book.get_recipe("Cake").is_none());
}
