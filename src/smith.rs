//! The crafting service: the recipe catalog together with a registry of
//! per-player inventories, and the crafting and transfer operations that
//! span both.
use vstd::prelude::*;

use crate::assoc::{
    assoc, first_with_key, key_absent, lemma_assoc_absent, lemma_assoc_first, lemma_assoc_push,
    lemma_assoc_update,
};
use crate::catalog::RecipeBook;
use crate::inventory::{
    held_items, lemma_held_items_update, slot_items, first_empty, first_named, full, holds_none_named, plain_item, slot_view, Item, ItemView,
    PlayerInventory, StorageContainer,
};
use crate::recipe::{
    bumped, mastered, stock_of, stock_pairs, take_all, Crafter, Ingredient, Recipe, RecipeView,
    Stock,
};
use crate::stock::consume_all;
use vstd::multiset::Multiset;

verus! {

/// Number of slots of the inventory that a joining player is given.
pub const PLAYER_INVENTORY_SLOTS: u32 = 20;

/// Events that the crafting service publishes, each with its payload.
#[derive(Debug, Clone)]
pub enum CraftEvent {
    RecipeLearned(String),
    ItemCrafted(String),
    InventoryChanged(String),
    RecipeMastered(String),
    CraftingFailed(String),
    StorageContainerCreated(u128),
    StorageContainerAccessed(String, u128),
}

/// What an event stands for.
pub enum EventView {
    RecipeLearned(Seq<char>),
    ItemCrafted(Seq<char>),
    InventoryChanged(Seq<char>),
    RecipeMastered(Seq<char>),
    CraftingFailed(Seq<char>),
    StorageContainerCreated(u128),
    StorageContainerAccessed(Seq<char>, u128),
}

impl View for CraftEvent {
    type V = EventView;

    open spec fn view(&self) -> EventView {
        match self {
            CraftEvent::RecipeLearned(s) => EventView::RecipeLearned(s@),
            CraftEvent::ItemCrafted(s) => EventView::ItemCrafted(s@),
            CraftEvent::InventoryChanged(s) => EventView::InventoryChanged(s@),
            CraftEvent::RecipeMastered(s) => EventView::RecipeMastered(s@),
            CraftEvent::CraftingFailed(s) => EventView::CraftingFailed(s@),
            CraftEvent::StorageContainerCreated(id) => EventView::StorageContainerCreated(*id),
            CraftEvent::StorageContainerAccessed(p, id) => EventView::StorageContainerAccessed(p@, *id),
        }
    }
}

pub open spec fn events_view(s: Seq<CraftEvent>) -> Seq<EventView> {
    s.map_values(|e: CraftEvent| e@)
}

/// Why a craft request did not produce an item.
#[derive(Debug, Clone, Copy, PartialEq, Eq, Structural)]
pub enum CraftError {
    /// The player has no inventory.
    InventoryNotFound,
    /// The recipe is unknown, or the player does not hold what it needs.
    Rejected,
    /// After the materials are used up no slot is free for the product.
    InventoryFull,
}

/// One player's inventory in the registry.
#[derive(Debug, Clone)]
pub struct PlayerEntry {
    pub player_id: String,
    pub inventory: PlayerInventory,
}

pub open spec fn player_pairs(s: Seq<PlayerEntry>) -> Seq<(Seq<char>, Seq<Option<ItemView>>)> {
    s.map_values(|e: PlayerEntry| (e.player_id@, e.inventory@))
}

/// The stock of materials that a player's slots offer to a recipe: one
/// consumable unit of each item name present.
pub open spec fn held_stock(slots: Seq<Option<ItemView>>) -> Stock {
    Map::new(|n: Seq<char>| !holds_none_named(slots, n), |n: Seq<char>| (1u32, true))
}

proof fn lemma_held_stock_step(s: Seq<Option<ItemView>>, i: int)
    requires
        0 <= i < s.len(),
    ensures
        held_stock(s.take(i + 1)) == match s[i] {
            Some(it) => held_stock(s.take(i)).insert(it.name, (1u32, true)),
            None => held_stock(s.take(i)),
        },
{
    let a = s.take(i);
    let b = s.take(i + 1);
    let target = match s[i] {
        Some(it) => held_stock(a).insert(it.name, (1u32, true)),
        None => held_stock(a),
    };
    assert forall|m: Seq<char>| held_stock(b).contains_key(m) <==> target.contains_key(m) by {
        if held_stock(b).contains_key(m) {
            let k = choose|k: int| 0 <= k < b.len() && b[k] is Some && b[k]->0.name == m;
            if k < i {
                assert(a[k] == b[k]);
            } else {
                assert(b[k] == s[i]);
            }
        }
        if target.contains_key(m) {
            if held_stock(a).contains_key(m) {
                let k = choose|k: int| 0 <= k < a.len() && a[k] is Some && a[k]->0.name == m;
                assert(b[k] == a[k]);
            } else {
                assert(b[i] == s[i]);
            }
        }
    }
    assert(held_stock(b) =~= target);
}

/// The materials that the slots of `inv` offer: one consumable unit of each
/// item name present, in order of first appearance.
fn ingredient_view(inv: &PlayerInventory) -> (r: Vec<Ingredient>)
    ensures
        stock_of(r@) == held_stock(inv@),
{
    let mut r: Vec<Ingredient> = Vec::new();
    let mut i: usize = 0;
    assert(stock_of(r@) =~= held_stock(inv@.take(0))) by {
        assert(stock_pairs(r@) =~= seq![]);
    }
    while i < inv.slots.len()
        invariant
            i <= inv.slots.len(),
            stock_of(r@) == held_stock(inv@.take(i as int)),
        decreases inv.slots.len() - i,
    {
        proof {
            lemma_held_stock_step(inv@, i as int);
        }
        match &inv.slots[i] {
            Some(x) => {
                match crate::stock::find_ingredient(&r, &x.name) {
                    Some(j) => {
                        proof {
                            lemma_assoc_first(stock_pairs(r@), j as int);
                            assert(held_stock(inv@.take(i as int)).insert(x.name@, (1u32, true))
                                =~= held_stock(inv@.take(i as int)));
                        }
                    },
                    None => {
                        let ghost pre = r@;
                        let ing = Ingredient { name: x.name.clone(), quantity: 1, recipe_craftable: true };
                        r.push(ing);
                        proof {
                            lemma_assoc_push(stock_pairs(pre), x.name@, (1u32, true));
                            assert(stock_pairs(r@) =~= stock_pairs(pre).push((x.name@, (1u32, true))));
                        }
                    },
                }
            },
            None => {},
        }
        i = i + 1;
    }
    assert(inv@.take(i as int) =~= inv@);
    r
}

/// Empties each slot of `inv` whose item's material `left` has run out of.
fn clear_consumed(inv: &mut PlayerInventory, left: &Vec<Ingredient>)
    ensures
        final(inv)@ == cleared(old(inv)@, stock_of(left@)),
{
    let ghost st = stock_of(left@);
    let ghost orig = inv@;
    let mut i: usize = 0;
    while i < inv.slots.len()
        invariant
            i <= inv.slots.len(),
            st == stock_of(left@),
            orig == old(inv)@,
            inv@.len() == orig.len(),
            forall|k: int| 0 <= k < i ==> #[trigger] inv@[k] == cleared(orig, st)[k],
            forall|k: int| i <= k < orig.len() ==> #[trigger] inv@[k] == orig[k],
        decreases inv.slots.len() - i,
    {
        let ghost pre = inv@;
        assert(pre[i as int] == orig[i as int]);
        assert(pre[i as int] == slot_view(inv.slots@[i as int]));
        let clear = match &inv.slots[i] {
            Some(x) => match crate::stock::find_ingredient(left, &x.name) {
                Some(j) => {
                    proof {
                        lemma_assoc_first(stock_pairs(left@), j as int);
                        assert(stock_pairs(left@)[j as int] == (
                            left@[j as int].name@,
                            (left@[j as int].quantity, left@[j as int].recipe_craftable),
                        ));
                        assert(inv@[i as int] == slot_view(inv.slots@[i as int]));
                        assert(inv@[i as int] == orig[i as int]);
                        assert(orig[i as int] == Some(x@));
                        assert(st.contains_key(x.name@) && st[x.name@].0 == left@[j as int].quantity);
                    }
                    left[j].quantity == 0
                },
                None => {
                    proof {
                        lemma_assoc_absent(stock_pairs(left@), x.name@);
                        assert(inv@[i as int] == slot_view(inv.slots@[i as int]));
                        assert(inv@[i as int] == orig[i as int]);
                        assert(orig[i as int] == Some(x@));
                    }
                    false
                },
            },
            None => false,
        };
        if clear {
            inv.slots.set(i, None);
            assert(inv@ =~= pre.update(i as int, None));
        }
        proof {
            assert(cleared(orig, st)[i as int] == if clear { None } else { orig[i as int] });
            assert forall|k: int| 0 <= k < i + 1 implies #[trigger] inv@[k] == cleared(orig, st)[k] by {
                if k < i {
                    assert(inv@[k] == pre[k]);
                }
            }
            assert forall|k: int| i + 1 <= k < orig.len() implies #[trigger] inv@[k] == orig[k] by {
                assert(inv@[k] == pre[k]);
            }
        }
        i = i + 1;
    }
    assert(inv@ =~= cleared(orig, st));
}

/// The slots with every item emptied whose material the stock `left` has
/// run out of.
pub open spec fn cleared(slots: Seq<Option<ItemView>>, left: Stock) -> Seq<Option<ItemView>> {
    slots.map_values(|s: Option<ItemView>| match s {
        Some(it) => if left.contains_key(it.name) && left[it.name].0 == 0 { None } else { s },
        None => s,
    })
}

/// The catalog and the registry of player inventories.
#[derive(Debug, Clone)]
pub struct RecipeSmith {
    pub initialized: bool,
    pub recipe_book: RecipeBook,
    pub player_inventories: Vec<PlayerEntry>,
}

fn find_player(s: &Vec<PlayerEntry>, id: &String) -> (r: Option<usize>)
    ensures
        match r {
            Some(j) => first_with_key(player_pairs(s@), j as int) && s@[j as int].player_id@ == id@,
            None => key_absent(player_pairs(s@), id@),
        },
{
    let mut j: usize = 0;
    while j < s.len()
        invariant
            j <= s.len(),
            forall|k: int| 0 <= k < j ==> #[trigger] s@[k].player_id@ != id@,
        decreases s.len() - j,
    {
        if s[j].player_id == *id {
            proof {
                assert forall|k: int| 0 <= k < j implies #[trigger] player_pairs(s@)[k].0
                    != player_pairs(s@)[j as int].0 by {
                    assert(player_pairs(s@)[k].0 == s@[k].player_id@);
                }
            }
            return Some(j);
        }
        j = j + 1;
    }
    proof {
        assert forall|k: int| 0 <= k < player_pairs(s@).len() implies #[trigger] player_pairs(
            s@,
        )[k].0 != id@ by {
            assert(player_pairs(s@)[k].0 == s@[k].player_id@);
        }
    }
    None
}

impl RecipeSmith {
    /// The inventories by player identifier.
    pub open spec fn inventories(&self) -> Map<Seq<char>, Seq<Option<ItemView>>> {
        assoc(player_pairs(self.player_inventories@))
    }

    pub open spec fn wf(&self) -> bool {
        self.recipe_book.wf()
    }

    pub fn new() -> (r: RecipeSmith)
        ensures
            r.wf(),
            !r.initialized,
            r.recipe_book.recipe_map().is_empty(),
            r.recipe_book.index().is_empty(),
            r.inventories().is_empty(),
    {
        let r = RecipeSmith { initialized: false, recipe_book: RecipeBook::new(), player_inventories: Vec::new() };
        assert(player_pairs(r.player_inventories@) =~= seq![]);
        assert(r.inventories() =~= Map::empty());
        r
    }

    /// Stores `inventory` as the inventory of `player_id`, replacing any
    /// inventory it had.
    fn put_inventory(&mut self, id: &String, inventory: PlayerInventory)
        ensures
            final(self).inventories() == old(self).inventories().insert(id@, inventory@),
            final(self).recipe_book == old(self).recipe_book,
            final(self).initialized == old(self).initialized,
    {
        let ghost pre = self.player_inventories@;
        match find_player(&self.player_inventories, id) {
            Some(k) => {
                self.player_inventories[k].inventory = inventory;
                proof {
                    lemma_assoc_update(player_pairs(pre), k as int, inventory@);
                    assert(player_pairs(self.player_inventories@) =~= player_pairs(pre).update(
                        k as int,
                        (player_pairs(pre)[k as int].0, inventory@),
                    ));
                }
            },
            None => {
                let ghost iv = inventory@;
                self.player_inventories.push(PlayerEntry { player_id: id.clone(), inventory });
                proof {
                    lemma_assoc_push(player_pairs(pre), id@, iv);
                    assert(player_pairs(self.player_inventories@) =~= player_pairs(pre).push((id@, iv)));
                }
            },
        }
    }

    /// Gives `player_id` a fresh inventory of `num_slots` empty slots,
    /// replacing any inventory it had.
    pub fn create_player_inventory(&mut self, player_id: &str, num_slots: u32)
        ensures
            final(self).inventories() == old(self).inventories().insert(
                player_id@,
                Seq::new(num_slots as nat, |i: int| None::<ItemView>),
            ),
            final(self).recipe_book == old(self).recipe_book,
            final(self).initialized == old(self).initialized,
    {
        let id = player_id.to_owned();
        self.put_inventory(&id, PlayerInventory::new(num_slots));
    }

    /// A player that joins is given an inventory of the standard size.
    pub fn on_player_joined(&mut self, player_id: &str)
        ensures
            final(self).inventories() == old(self).inventories().insert(
                player_id@,
                Seq::new(PLAYER_INVENTORY_SLOTS as nat, |i: int| None::<ItemView>),
            ),
            final(self).recipe_book == old(self).recipe_book,
            final(self).initialized == old(self).initialized,
    {
        self.create_player_inventory(player_id, PLAYER_INVENTORY_SLOTS);
    }

    /// A copy of the inventory of `player_id`, if it has one.
    pub fn get_player_inventory(&self, player_id: &str) -> (r: Option<PlayerInventory>)
        ensures
            match r {
                Some(inv) => self.inventories().contains_key(player_id@) && inv@ == self.inventories()[player_id@],
                None => !self.inventories().contains_key(player_id@),
            },
    {
        let id = player_id.to_owned();
        match find_player(&self.player_inventories, &id) {
            Some(k) => {
                proof {
                    lemma_assoc_first(player_pairs(self.player_inventories@), k as int);
                }
                Some(self.player_inventories[k].inventory.duplicate())
            },
            None => {
                proof {
                    lemma_assoc_absent(player_pairs(self.player_inventories@), id@);
                }
                None
            },
        }
    }

    /// Replaces the inventory of `player_id` with `inventory`.
    pub fn update_player_inventory(&mut self, player_id: &str, inventory: PlayerInventory)
        ensures
            final(self).inventories() == old(self).inventories().insert(player_id@, inventory@),
            final(self).recipe_book == old(self).recipe_book,
            final(self).initialized == old(self).initialized,
    {
        let id = player_id.to_owned();
        self.put_inventory(&id, inventory);
    }

    /// The items that `player_id` holds, in slot order; `None` when it has
    /// no inventory.
    pub fn get_player_inventory_contents(&self, player_id: &str) -> (r: Option<Vec<Item>>)
        ensures
            match r {
                Some(items) => self.inventories().contains_key(player_id@)
                    && items@.map_values(|x: Item| x@) == crate::inventory::held(self.inventories()[player_id@]),
                None => !self.inventories().contains_key(player_id@),
            },
    {
        let id = player_id.to_owned();
        match find_player(&self.player_inventories, &id) {
            Some(k) => {
                proof {
                    lemma_assoc_first(player_pairs(self.player_inventories@), k as int);
                }
                Some(self.player_inventories[k].inventory.items())
            },
            None => {
                proof {
                    lemma_assoc_absent(player_pairs(self.player_inventories@), id@);
                }
                None
            },
        }
    }

    /// Every recipe of the catalog, in order of first insertion.
    pub fn get_all_recipes(&self) -> (r: Vec<Recipe>)
        ensures
            r@.map_values(|x: Recipe| x@) == self.recipe_book.recipe_list(),
    {
        self.recipe_book.all_recipes()
    }

    /// The recipes listed under the crafter named `crafter_name`.
    pub fn get_recipes_by_crafter(&self, crafter_name: &str) -> (r: Vec<Recipe>)
        requires
            self.wf(),
        ensures
            r@.map_values(|x: Recipe| x@) == self.recipe_book.recipes_for(crafter_name@),
    {
        let crafter = Crafter { name: crafter_name.to_owned() };
        self.recipe_book.get_recipes_for_crafter(&crafter)
    }

    /// Adds `recipe` to the catalog.
    pub fn add_new_recipe(&mut self, recipe: Recipe)
        requires
            old(self).wf(),
        ensures
            final(self).wf(),
            final(self).recipe_book.recipe_map() == old(self).recipe_book.recipe_map().insert(recipe.name@, recipe@),
            final(self).recipe_book.index() == crate::catalog::index_add(
                old(self).recipe_book.index(),
                crate::recipe::crafters_view(recipe.crafters@),
                recipe.name@,
            ),
            final(self).player_inventories == old(self).player_inventories,
    {
        self.recipe_book.add_recipe(recipe);
    }

    /// A new storage container of `num_slots` empty slots.
    pub fn create_storage_container(&self, num_slots: u32) -> (r: StorageContainer)
        ensures
            r.uuid & crate::inventory::UUID_LAYOUT_MASK == crate::inventory::UUID_V4_LAYOUT,
            r.inventory@ == Seq::new(num_slots as nat, |i: int| None::<ItemView>),
    {
        StorageContainer::new(num_slots)
    }

    /// The event that records `player_id` opening `container`.
    pub fn access_storage_container(&self, container: &StorageContainer, player_id: &str) -> (r: CraftEvent)
        ensures
            r@ == EventView::StorageContainerAccessed(player_id@, container.uuid),
    {
        CraftEvent::StorageContainerAccessed(player_id.to_owned(), container.uuid)
    }

    /// Puts `item` in the first empty slot of the inventory of `player_id`.
    pub fn add_item_to_player_inventory(&mut self, player_id: &str, item: Item) -> (r: Result<(), String>)
        ensures
            final(self).recipe_book == old(self).recipe_book,
            final(self).initialized == old(self).initialized,
            ({
                let invs = old(self).inventories();
                if !invs.contains_key(player_id@) {
                    &&& r is Err && r->Err_0@ == "Player inventory not found"@
                    &&& final(self).inventories() == invs
                } else if full(invs[player_id@]) {
                    &&& r is Err && r->Err_0@ == "Inventory is full"@
                    &&& final(self).inventories() == invs
                } else {
                    &&& r is Ok
                    &&& exists|j: int| first_empty(invs[player_id@], j) && final(self).inventories()
                        == invs.insert(player_id@, invs[player_id@].update(j, Some(item@)))
                }
            }),
    {
        let id = player_id.to_owned();
        match find_player(&self.player_inventories, &id) {
            None => {
                proof {
                    lemma_assoc_absent(player_pairs(self.player_inventories@), id@);
                    reveal_strlit("Player inventory not found");
                }
                Err("Player inventory not found".to_owned())
            },
            Some(k) => {
                proof {
                    lemma_assoc_first(player_pairs(self.player_inventories@), k as int);
                }
                let ghost pre = self.player_inventories@;
                let ghost iv = item@;
                let stored = self.player_inventories[k].inventory.store(item);
                proof {
                    let nv = self.player_inventories@[k as int].inventory@;
                    lemma_assoc_update(player_pairs(pre), k as int, nv);
                    assert(player_pairs(self.player_inventories@) =~= player_pairs(pre).update(
                        k as int,
                        (player_pairs(pre)[k as int].0, nv),
                    ));
                }
                match stored {
                    Ok(j) => {
                        assert(first_empty(pre[k as int].inventory@, j as int));
                        Ok(())
                    },
                    Err(_) => {
                        proof {
                            reveal_strlit("Inventory is full");
                            assert(self.inventories() =~= old(self).inventories());
                        }
                        Err("Inventory is full".to_owned())
                    },
                }
            },
        }
    }

    /// Empties the first slot of the inventory of `player_id` that holds an
    /// item named `item_name`.
    pub fn remove_item_from_player_inventory(&mut self, player_id: &str, item_name: &str) -> (r: Result<(), String>)
        ensures
            final(self).recipe_book == old(self).recipe_book,
            final(self).initialized == old(self).initialized,
            ({
                let invs = old(self).inventories();
                if !invs.contains_key(player_id@) {
                    &&& r is Err && r->Err_0@ == "Player inventory not found"@
                    &&& final(self).inventories() == invs
                } else if holds_none_named(invs[player_id@], item_name@) {
                    &&& r is Err && r->Err_0@ == "Item not found in inventory"@
                    &&& final(self).inventories() == invs
                } else {
                    &&& r is Ok
                    &&& exists|j: int| first_named(invs[player_id@], item_name@, j) && final(self).inventories()
                        == invs.insert(player_id@, invs[player_id@].update(j, None))
                }
            }),
    {
        let id = player_id.to_owned();
        let name = item_name.to_owned();
        match find_player(&self.player_inventories, &id) {
            None => {
                proof {
                    lemma_assoc_absent(player_pairs(self.player_inventories@), id@);
                    reveal_strlit("Player inventory not found");
                }
                Err("Player inventory not found".to_owned())
            },
            Some(k) => {
                proof {
                    lemma_assoc_first(player_pairs(self.player_inventories@), k as int);
                }
                match self.player_inventories[k].inventory.find_item(&name) {
                    None => {
                        proof {
                            reveal_strlit("Item not found in inventory");
                        }
                        Err("Item not found in inventory".to_owned())
                    },
                    Some(j) => {
                        let ghost pre = self.player_inventories@;
                        self.player_inventories[k].inventory.slots.set(j, None);
                        proof {
                            let nv = self.player_inventories@[k as int].inventory@;
                            assert(nv =~= pre[k as int].inventory@.update(j as int, None));
                            lemma_assoc_update(player_pairs(pre), k as int, nv);
                            assert(player_pairs(self.player_inventories@) =~= player_pairs(pre).update(
                                k as int,
                                (player_pairs(pre)[k as int].0, nv),
                            ));
                        }
                        Ok(())
                    },
                }
            },
        }
    }

    /// Moves the first item named `item_name` of `from_inventory` into the
    /// first empty slot of `to_inventory`. Either the move happens whole, or
    /// both inventories stay as they were.
    pub fn transfer_item(
        &self,
        from_inventory: &mut PlayerInventory,
        to_inventory: &mut PlayerInventory,
        item_name: &str,
    ) -> (r: Result<(), String>)
        ensures
            holds_none_named(old(from_inventory)@, item_name@) ==> {
                &&& r is Err && r->Err_0@ == "Item not found in source inventory"@
                &&& final(from_inventory)@ == old(from_inventory)@
                &&& final(to_inventory)@ == old(to_inventory)@
            },
            !holds_none_named(old(from_inventory)@, item_name@) && full(old(to_inventory)@) ==> {
                &&& r is Err && r->Err_0@ == "Destination inventory is full"@
                &&& final(from_inventory)@ == old(from_inventory)@
                &&& final(to_inventory)@ == old(to_inventory)@
            },
            held_items(final(from_inventory)@).add(held_items(final(to_inventory)@)) == held_items(
                old(from_inventory)@,
            ).add(held_items(old(to_inventory)@)),
            final(from_inventory)@.len() == old(from_inventory)@.len(),
            final(to_inventory)@.len() == old(to_inventory)@.len(),
            !holds_none_named(old(from_inventory)@, item_name@) && !full(old(to_inventory)@) ==> {
                &&& r is Ok
                &&& exists|j: int, k: int| {
                    &&& first_named(old(from_inventory)@, item_name@, j)
                    &&& first_empty(old(to_inventory)@, k)
                    &&& final(from_inventory)@ == old(from_inventory)@.update(j, None)
                    &&& final(to_inventory)@ == old(to_inventory)@.update(k, old(from_inventory)@[j])
                }
            },
    {
        let name = item_name.to_owned();
        match from_inventory.find_item(&name) {
            None => {
                proof {
                    reveal_strlit("Item not found in source inventory");
                }
                Err("Item not found in source inventory".to_owned())
            },
            Some(j) => match to_inventory.first_empty_slot() {
                None => {
                    proof {
                        reveal_strlit("Destination inventory is full");
                    }
                    Err("Destination inventory is full".to_owned())
                },
                Some(k) => {
                    let item = from_inventory.slots[j].take();
                    to_inventory.slots.set(k, item);
                    assert(from_inventory@ =~= old(from_inventory)@.update(j as int, None));
                    assert(to_inventory@ =~= old(to_inventory)@.update(k as int, old(from_inventory)@[j as int]));
                    proof {
                        let f = old(from_inventory)@;
                        let t = old(to_inventory)@;
                        lemma_held_items_update(f, j as int, None);
                        lemma_held_items_update(t, k as int, f[j as int]);
                        assert(from_inventory@ == f.update(j as int, None));
                        assert(to_inventory@ == t.update(k as int, f[j as int]));
                        assert(slot_items(t[k as int]) =~= Multiset::empty());
                        assert(slot_items(None) =~= Multiset::<ItemView>::empty());
                        assert(held_items(t.update(k as int, f[j as int])) =~= held_items(t).add(slot_items(f[j as int])));
                        assert(held_items(f.update(j as int, None)).add(slot_items(f[j as int])) =~= held_items(f));
                        assert(held_items(from_inventory@).add(held_items(to_inventory@)) =~= held_items(f).add(
                            held_items(t),
                        ));
                    }
                    Ok(())
                },
            },
        }
    }

    /// Crafts the recipe named `recipe_name` for `player_id`. The materials
    /// offered are one unit of each item name in the player's slots. When
    /// the recipe can be drawn from them, every item whose material is used
    /// up leaves its slot, the product goes to the first empty slot, the
    /// recipe's craft count goes up by one, and the events to publish are
    /// returned. A craft that fails changes nothing.
    pub fn craft_item(&mut self, player_id: &str, recipe_name: &str) -> (r: (Result<String, CraftError>, Vec<CraftEvent>))
        requires
            old(self).wf(),
        ensures
            final(self).wf(),
            ({
                let invs = old(self).inventories();
                let pid = player_id@;
                let rn = recipe_name@;
                let recipes = old(self).recipe_book.recipe_map();
                let events = events_view(r.1@);
                if !invs.contains_key(pid) {
                    &&& r.0 == Err::<String, CraftError>(CraftError::InventoryNotFound)
                    &&& events.len() == 0
                    &&& *final(self) == *old(self)
                } else if !recipes.contains_key(rn) || take_all(held_stock(invs[pid]), recipes[rn].ingredients) is None {
                    &&& r.0 == Err::<String, CraftError>(CraftError::Rejected)
                    &&& events == seq![EventView::CraftingFailed(rn)]
                    &&& *final(self) == *old(self)
                } else {
                    let rec = recipes[rn];
                    let cl = cleared(invs[pid], take_all(held_stock(invs[pid]), rec.ingredients)->0);
                    let after = RecipeView { cook_count: bumped(rec.cook_count), ..rec };
                    if full(cl) {
                        &&& r.0 == Err::<String, CraftError>(CraftError::InventoryFull)
                        &&& events == seq![EventView::CraftingFailed(rn)]
                        &&& *final(self) == *old(self)
                    } else {
                        &&& r.0 is Ok && r.0->Ok_0@ == rec.outcome
                        &&& exists|j: int| first_empty(cl, j) && final(self).inventories()
                            == invs.insert(pid, cl.update(j, Some(plain_item(rec.outcome))))
                        &&& final(self).recipe_book.recipe_map() == recipes.insert(rn, after)
                        &&& final(self).recipe_book.index() == old(self).recipe_book.index()
                        &&& final(self).initialized == old(self).initialized
                        &&& events == seq![EventView::ItemCrafted(rec.outcome), EventView::InventoryChanged(pid)]
                            + if mastered(after) { seq![EventView::RecipeMastered(rn)] } else { seq![] }
                    }
                }
            }),
    {
        let id = player_id.to_owned();
        let rn = recipe_name.to_owned();
        let k = match find_player(&self.player_inventories, &id) {
            None => {
                proof {
                    lemma_assoc_absent(player_pairs(self.player_inventories@), id@);
                }
                let events: Vec<CraftEvent> = Vec::new();
                assert(events_view(events@) =~= seq![]);
                return (Err(CraftError::InventoryNotFound), events);
            },
            Some(k) => k,
        };
        proof {
            lemma_assoc_first(player_pairs(self.player_inventories@), k as int);
        }
        let mut failed: Vec<CraftEvent> = Vec::new();
        failed.push(CraftEvent::CraftingFailed(rn.clone()));
        assert(events_view(failed@) =~= seq![EventView::CraftingFailed(recipe_name@)]);
        let mut stock = ingredient_view(&self.player_inventories[k].inventory);
        let recipe = match self.recipe_book.get_recipe(recipe_name) {
            None => {
                return (Err(CraftError::Rejected), failed);
            },
            Some(recipe) => recipe,
        };
        if !consume_all(&mut stock, &recipe.ingredients) {
            return (Err(CraftError::Rejected), failed);
        }
        let mut updated = self.player_inventories[k].inventory.duplicate();
        clear_consumed(&mut updated, &stock);
        let ghost cl = updated@;
        let slot = match updated.store(Item::named(recipe.outcome.clone())) {
            Err(_) => {
                return (Err(CraftError::InventoryFull), failed);
            },
            Ok(j) => j,
        };
        let ghost pre = self.player_inventories@;
        let ghost nv = updated@;
        self.player_inventories[k].inventory = updated;
        proof {
            lemma_assoc_update(player_pairs(pre), k as int, nv);
            assert(player_pairs(self.player_inventories@) =~= player_pairs(pre).update(
                k as int,
                (player_pairs(pre)[k as int].0, nv),
            ));
            assert(first_empty(cl, slot as int));
        }
        self.recipe_book.record_craft(&rn);
        let mut events: Vec<CraftEvent> = Vec::new();
        events.push(CraftEvent::ItemCrafted(recipe.outcome.clone()));
        events.push(CraftEvent::InventoryChanged(id));
        let now_mastered = match self.recipe_book.get_recipe(recipe_name) {
            Some(current) => current.is_mastered(),
            None => false,
        };
        if now_mastered {
            events.push(CraftEvent::RecipeMastered(rn));
        }
        proof {
            let after = RecipeView { cook_count: bumped(recipe@.cook_count), ..recipe@ };
            assert(events_view(events@) =~= seq![EventView::ItemCrafted(recipe@.outcome), EventView::InventoryChanged(player_id@)]
                + if mastered(after) { seq![EventView::RecipeMastered(recipe_name@)] } else { seq![] });
        }
        (Ok(recipe.outcome), events)
    }
}

} // verus!
