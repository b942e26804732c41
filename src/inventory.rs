//! Items, fixed-capacity slot inventories and storage containers.
use vstd::multiset::Multiset;
use vstd::prelude::*;

verus! {

/// An item: a name, an optional model reference, and free-form metadata
/// tags, each a tag name with its value written as JSON text.
#[derive(Debug, Clone)]
pub struct Item {
    pub name: String,
    pub model: Option<String>,
    pub meta_tags: Vec<(String, String)>,
}

/// What an item stands for.
pub struct ItemView {
    pub name: Seq<char>,
    pub model: Option<Seq<char>>,
    pub meta_tags: Seq<(Seq<char>, Seq<char>)>,
}

impl View for Item {
    type V = ItemView;

    open spec fn view(&self) -> ItemView {
        ItemView {
            name: self.name@,
            model: match self.model {
                Some(m) => Some(m@),
                None => None,
            },
            meta_tags: self.meta_tags@.map_values(|t: (String, String)| (t.0@, t.1@)),
        }
    }
}

pub open spec fn slot_view(s: Option<Item>) -> Option<ItemView> {
    match s {
        Some(x) => Some(x@),
        None => None,
    }
}

pub open spec fn slots_view(s: Seq<Option<Item>>) -> Seq<Option<ItemView>> {
    s.map_values(|x: Option<Item>| slot_view(x))
}

/// An item of the given name with no model and no tags.
pub open spec fn plain_item(name: Seq<char>) -> ItemView {
    ItemView { name, model: None, meta_tags: seq![] }
}

/// The items of the occupied slots of `s`, in slot order.
pub open spec fn held(s: Seq<Option<ItemView>>) -> Seq<ItemView>
    decreases s.len(),
{
    if s.len() == 0 {
        seq![]
    } else {
        match s.last() {
            Some(x) => held(s.drop_last()).push(x),
            None => held(s.drop_last()),
        }
    }
}

/// The items that the occupied slots of `s` hold, counted with repeats.
pub open spec fn held_items(s: Seq<Option<ItemView>>) -> Multiset<ItemView> {
    held(s).to_multiset()
}

/// The item that a slot holds, as a multiset of at most one element.
pub open spec fn slot_items(v: Option<ItemView>) -> Multiset<ItemView> {
    match v {
        Some(x) => Multiset::singleton(x),
        None => Multiset::empty(),
    }
}

proof fn lemma_held_items_last(s: Seq<Option<ItemView>>)
    requires
        s.len() > 0,
    ensures
        held_items(s) == held_items(s.drop_last()).add(slot_items(s.last())),
{
    broadcast use vstd::seq_lib::group_to_multiset_ensures;
    match s.last() {
        Some(x) => {
            assert(held(s) == held(s.drop_last()).push(x));
            assert(held_items(s) =~= held_items(s.drop_last()).add(slot_items(s.last())));
        },
        None => {
            assert(held_items(s) =~= held_items(s.drop_last()).add(slot_items(s.last())));
        },
    }
}

/// Replacing the contents of one slot takes what it held out of the held
/// items and puts the new contents in.
pub proof fn lemma_held_items_update(s: Seq<Option<ItemView>>, j: int, v: Option<ItemView>)
    requires
        0 <= j < s.len(),
    ensures
        held_items(s.update(j, v)).add(slot_items(s[j])) == held_items(s).add(slot_items(v)),
    decreases s.len(),
{
    let u = s.update(j, v);
    lemma_held_items_last(u);
    lemma_held_items_last(s);
    if j == s.len() - 1 {
        assert(u.drop_last() =~= s.drop_last());
        assert(held_items(u).add(slot_items(s[j])) =~= held_items(s).add(slot_items(v)));
    } else {
        assert(u.drop_last() =~= s.drop_last().update(j, v));
        assert(u.last() == s.last());
        assert(s.drop_last()[j] == s[j]);
        lemma_held_items_update(s.drop_last(), j, v);
        let d = s.drop_last();
        let l = slot_items(s.last());
        assert(held_items(u) == held_items(d.update(j, v)).add(l));
        assert(held_items(s) == held_items(d).add(l));
        assert(held_items(d.update(j, v)).add(slot_items(s[j])) == held_items(d).add(slot_items(v)));
        assert forall|a: ItemView| #[trigger] held_items(u).add(slot_items(s[j])).count(a) == held_items(s).add(
            slot_items(v),
        ).count(a) by {
            assert(held_items(d.update(j, v)).add(slot_items(s[j])).count(a) == held_items(d).add(slot_items(v)).count(a));
        }
        assert(held_items(u).add(slot_items(s[j])) =~= held_items(s).add(slot_items(v)));
    }
}

/// `j` is the first empty slot of `s`.
pub open spec fn first_empty(s: Seq<Option<ItemView>>, j: int) -> bool {
    &&& 0 <= j < s.len()
    &&& s[j] is None
    &&& forall|k: int| 0 <= k < j ==> #[trigger] s[k] is Some
}

/// `s` has no empty slot.
pub open spec fn full(s: Seq<Option<ItemView>>) -> bool {
    forall|k: int| 0 <= k < s.len() ==> #[trigger] s[k] is Some
}

/// `j` is the first slot of `s` holding an item named `n`.
pub open spec fn first_named(s: Seq<Option<ItemView>>, n: Seq<char>, j: int) -> bool {
    &&& 0 <= j < s.len()
    &&& s[j] is Some && s[j]->0.name == n
    &&& forall|k: int| 0 <= k < j ==> !(#[trigger] s[k] is Some && s[k]->0.name == n)
}

/// No slot of `s` holds an item named `n`.
pub open spec fn holds_none_named(s: Seq<Option<ItemView>>, n: Seq<char>) -> bool {
    forall|k: int| 0 <= k < s.len() ==> !(#[trigger] s[k] is Some && s[k]->0.name == n)
}

impl Item {
    /// An item of the given name with no model and no tags.
    pub fn named(name: String) -> (r: Item)
        ensures
            r@ == plain_item(name@),
    {
        let r = Item { name, model: None, meta_tags: Vec::new() };
        assert(r@.meta_tags =~= seq![]);
        r
    }

    /// A copy of this item with the same contents.
    pub fn duplicate(&self) -> (r: Item)
        ensures
            r@ == self@,
    {
        let model = match &self.model {
            Some(m) => Some(m.clone()),
            None => None,
        };
        let mut tags: Vec<(String, String)> = Vec::new();
        let mut i: usize = 0;
        while i < self.meta_tags.len()
            invariant
                i <= self.meta_tags.len(),
                tags@.len() == i,
                forall|k: int| 0 <= k < i ==> #[trigger] tags@[k] == self.meta_tags@[k],
            decreases self.meta_tags.len() - i,
        {
            let t = (self.meta_tags[i].0.clone(), self.meta_tags[i].1.clone());
            tags.push(t);
            i = i + 1;
        }
        let r = Item { name: self.name.clone(), model, meta_tags: tags };
        assert(r@.meta_tags =~= self@.meta_tags);
        r
    }
}

/// A fixed number of slots, each empty or holding one item. The number of
/// slots never changes after creation.
#[derive(Debug, Clone)]
pub struct PlayerInventory {
    pub slots: Vec<Option<Item>>,
}

impl View for PlayerInventory {
    type V = Seq<Option<ItemView>>;

    open spec fn view(&self) -> Seq<Option<ItemView>> {
        slots_view(self.slots@)
    }
}

impl PlayerInventory {
    /// A copy of this inventory with the same contents.
    pub fn duplicate(&self) -> (r: PlayerInventory)
        ensures
            r@ == self@,
    {
        let mut slots: Vec<Option<Item>> = Vec::new();
        let mut i: usize = 0;
        while i < self.slots.len()
            invariant
                i <= self.slots.len(),
                slots@.len() == i,
                forall|k: int| 0 <= k < i ==> #[trigger] slot_view(slots@[k]) == self@[k],
            decreases self.slots.len() - i,
        {
            let s = match &self.slots[i] {
                Some(x) => Some(x.duplicate()),
                None => None,
            };
            slots.push(s);
            i = i + 1;
        }
        let r = PlayerInventory { slots };
        assert(r@ =~= self@);
        r
    }

    /// An inventory of `num_slots` empty slots.
    pub fn new(num_slots: u32) -> (r: PlayerInventory)
        ensures
            r@ == Seq::new(num_slots as nat, |i: int| None::<ItemView>),
    {
        let mut slots: Vec<Option<Item>> = Vec::new();
        let mut i: u32 = 0;
        while i < num_slots
            invariant
                i <= num_slots,
                slots@.len() == i,
                forall|k: int| 0 <= k < i ==> #[trigger] slots@[k] is None,
            decreases num_slots - i,
        {
            slots.push(None);
            i = i + 1;
        }
        let r = PlayerInventory { slots };
        assert(r@ =~= Seq::new(num_slots as nat, |i: int| None::<ItemView>));
        r
    }

    /// The item in `slot`; `None` when the slot is empty or out of range.
    pub fn get_item(&self, slot: u32) -> (r: Option<&Item>)
        ensures
            match r {
                Some(x) => slot < self@.len() && self@[slot as int] == Some(x@),
                None => slot >= self@.len() || self@[slot as int] is None,
            },
    {
        if (slot as usize) < self.slots.len() {
            match &self.slots[slot as usize] {
                Some(x) => Some(x),
                None => None,
            }
        } else {
            None
        }
    }

    /// Puts `item` in `slot`, replacing what was there. A slot out of range
    /// leaves the inventory unchanged.
    pub fn add_item(&mut self, slot: u32, item: Item)
        ensures
            final(self)@ == if slot < old(self)@.len() {
                old(self)@.update(slot as int, Some(item@))
            } else {
                old(self)@
            },
    {
        if (slot as usize) < self.slots.len() {
            self.slots.set(slot as usize, Some(item));
            assert(self@ =~= old(self)@.update(slot as int, Some(item@)));
        }
    }

    /// Empties `slot` and returns what it held.
    pub fn remove_item(&mut self, slot: u32) -> (r: Option<Item>)
        ensures
            slot_view(r) == if slot < old(self)@.len() { old(self)@[slot as int] } else { None },
            final(self)@ == if slot < old(self)@.len() {
                old(self)@.update(slot as int, None)
            } else {
                old(self)@
            },
    {
        if (slot as usize) < self.slots.len() {
            let r = self.slots[slot as usize].take();
            assert(self@ =~= old(self)@.update(slot as int, None));
            r
        } else {
            None
        }
    }

    /// Empties `slot`.
    pub fn empty_slot(&mut self, slot: u32)
        ensures
            final(self)@ == if slot < old(self)@.len() {
                old(self)@.update(slot as int, None)
            } else {
                old(self)@
            },
    {
        if (slot as usize) < self.slots.len() {
            self.slots.set(slot as usize, None);
            assert(self@ =~= old(self)@.update(slot as int, None));
        }
    }

    /// The first empty slot, if any.
    pub fn first_empty_slot(&self) -> (r: Option<usize>)
        ensures
            match r {
                Some(j) => first_empty(self@, j as int),
                None => full(self@),
            },
    {
        let mut j: usize = 0;
        while j < self.slots.len()
            invariant
                j <= self.slots.len(),
                forall|k: int| 0 <= k < j ==> #[trigger] self@[k] is Some,
            decreases self.slots.len() - j,
        {
            if self.slots[j].is_none() {
                return Some(j);
            }
            j = j + 1;
        }
        None
    }

    /// Whether every slot holds an item.
    pub fn is_full(&self) -> (r: bool)
        ensures
            r == full(self@),
    {
        self.first_empty_slot().is_none()
    }

    /// The first slot holding an item named `name`, if any.
    pub fn find_item(&self, name: &String) -> (r: Option<usize>)
        ensures
            match r {
                Some(j) => first_named(self@, name@, j as int),
                None => holds_none_named(self@, name@),
            },
    {
        let mut j: usize = 0;
        while j < self.slots.len()
            invariant
                j <= self.slots.len(),
                forall|k: int| 0 <= k < j ==> !(#[trigger] self@[k] is Some && self@[k]->0.name == name@),
            decreases self.slots.len() - j,
        {
            match &self.slots[j] {
                Some(x) => {
                    if x.name == *name {
                        return Some(j);
                    }
                },
                None => {},
            }
            j = j + 1;
        }
        None
    }

    /// Puts `item` in the first empty slot. When there is none, the
    /// inventory is unchanged and the item is handed back.
    pub fn store(&mut self, item: Item) -> (r: Result<usize, Item>)
        ensures
            match r {
                Ok(j) => first_empty(old(self)@, j as int) && final(self)@ == old(self)@.update(j as int, Some(item@)),
                Err(back) => full(old(self)@) && final(self)@ == old(self)@ && back@ == item@,
            },
    {
        match self.first_empty_slot() {
            Some(j) => {
                self.slots.set(j, Some(item));
                assert(self@ =~= old(self)@.update(j as int, Some(item@)));
                Ok(j)
            },
            None => Err(item),
        }
    }

    /// The items held, in slot order.
    pub fn items(&self) -> (r: Vec<Item>)
        ensures
            r@.map_values(|x: Item| x@) == held(self@),
    {
        let mut r: Vec<Item> = Vec::new();
        let mut i: usize = 0;
        while i < self.slots.len()
            invariant
                i <= self.slots.len(),
                r@.map_values(|x: Item| x@) == held(self@.take(i as int)),
            decreases self.slots.len() - i,
        {
            proof {
                assert(self@.take(i as int + 1).drop_last() =~= self@.take(i as int));
            }
            match &self.slots[i] {
                Some(x) => {
                    r.push(x.duplicate());
                },
                None => {},
            }
            assert(r@.map_values(|x: Item| x@) =~= held(self@.take(i as int + 1)));
            i = i + 1;
        }
        assert(self@.take(i as int) =~= self@);
        r
    }
}

/// An inventory placed in the world, with an identifier of its own.
#[derive(Debug, Clone)]
pub struct StorageContainer {
    pub uuid: u128,
    pub inventory: PlayerInventory,
}

/// The version and variant bits of a UUID read as a big-endian `u128`.
pub const UUID_LAYOUT_MASK: u128 = 0x0000_0000_0000_F000_C000_0000_0000_0000;

/// Those bits in a random (version 4, RFC 4122 variant) UUID.
pub const UUID_V4_LAYOUT: u128 = 0x0000_0000_0000_4000_8000_0000_0000_0000;

/// Relies on `uuid::Uuid::new_v4` and `Uuid::as_u128`: a random identifier
/// whose version bits say "random" (4) and whose variant bits say RFC 4122.
#[verifier::external_body]
fn random_container_id() -> (r: u128)
    ensures
        r & UUID_LAYOUT_MASK == UUID_V4_LAYOUT,
{
    uuid::Uuid::new_v4().as_u128()
}

impl StorageContainer {
    /// A container of `num_slots` empty slots with a fresh random identifier.
    pub fn new(num_slots: u32) -> (r: StorageContainer)
        ensures
            r.uuid & UUID_LAYOUT_MASK == UUID_V4_LAYOUT,
            r.inventory@ == Seq::new(num_slots as nat, |i: int| None::<ItemView>),
    {
        StorageContainer { uuid: random_container_id(), inventory: PlayerInventory::new(num_slots) }
    }
}

} // verus!
