//! Ingredients, crafters and recipes, with the arithmetic of drawing a
//! recipe's requirements from a stock of materials.
use vstd::prelude::*;

use crate::assoc::assoc;

verus! {

/// Number of successful crafts from which a recipe counts as mastered.
pub const MASTERY_THRESHOLD: u32 = 10;

/// A named material with a quantity. Held in a stock, the flag says whether
/// the material may be consumed by a recipe; inside a recipe it is unused.
#[derive(Debug, Clone)]
pub struct Ingredient {
    pub name: String,
    pub quantity: u32,
    pub recipe_craftable: bool,
}

/// A tool or station that some recipes require, identified by its name.
#[derive(Debug, Clone)]
pub struct Crafter {
    pub name: String,
}

/// A named transformation of required ingredients into one outcome item,
/// made at any of its crafters, with a cook time in seconds and a count of
/// successful crafts.
#[derive(Debug, Clone)]
pub struct Recipe {
    pub name: String,
    pub ingredients: Vec<Ingredient>,
    pub outcome: String,
    pub crafters: Vec<Crafter>,
    pub base_cook_time: u32,
    pub cook_count: u32,
}

/// What an ingredient stands for: its name as characters, its quantity and
/// its consumable flag.
pub struct IngredientView {
    pub name: Seq<char>,
    pub quantity: u32,
    pub craftable: bool,
}

/// What a recipe stands for, with crafters reduced to their names.
pub struct RecipeView {
    pub name: Seq<char>,
    pub ingredients: Seq<IngredientView>,
    pub outcome: Seq<char>,
    pub crafters: Seq<Seq<char>>,
    pub base_cook_time: u32,
    pub cook_count: u32,
}

impl View for Ingredient {
    type V = IngredientView;

    open spec fn view(&self) -> IngredientView {
        IngredientView { name: self.name@, quantity: self.quantity, craftable: self.recipe_craftable }
    }
}

impl View for Crafter {
    type V = Seq<char>;

    open spec fn view(&self) -> Seq<char> {
        self.name@
    }
}

pub open spec fn ingredients_view(s: Seq<Ingredient>) -> Seq<IngredientView> {
    s.map_values(|x: Ingredient| x@)
}

pub open spec fn crafters_view(s: Seq<Crafter>) -> Seq<Seq<char>> {
    s.map_values(|c: Crafter| c@)
}

impl View for Recipe {
    type V = RecipeView;

    open spec fn view(&self) -> RecipeView {
        RecipeView {
            name: self.name@,
            ingredients: ingredients_view(self.ingredients@),
            outcome: self.outcome@,
            crafters: crafters_view(self.crafters@),
            base_cook_time: self.base_cook_time,
            cook_count: self.cook_count,
        }
    }
}

/// A stock of materials: material name to (quantity, may be consumed).
pub type Stock = Map<Seq<char>, (u32, bool)>;

/// The stock that a list of held ingredients stands for. Where two entries
/// share a name, the first one counts.
pub open spec fn stock_of(s: Seq<Ingredient>) -> Stock {
    assoc(stock_pairs(s))
}

pub open spec fn stock_pairs(s: Seq<Ingredient>) -> Seq<(Seq<char>, (u32, bool))> {
    s.map_values(|x: Ingredient| (x.name@, (x.quantity, x.recipe_craftable)))
}

/// Draws one requirement from a stock: the material must be present, may be
/// consumed, and must be at hand in at least the required quantity.
pub open spec fn take_one(m: Stock, req: IngredientView) -> Option<Stock> {
    if m.contains_key(req.name) && m[req.name].1 && m[req.name].0 >= req.quantity {
        Some(m.insert(req.name, ((m[req.name].0 - req.quantity) as u32, m[req.name].1)))
    } else {
        None
    }
}

/// Draws all requirements in turn; `None` when one of them cannot be met
/// from what the earlier ones left.
pub open spec fn take_all(m: Stock, reqs: Seq<IngredientView>) -> Option<Stock>
    decreases reqs.len(),
{
    if reqs.len() == 0 {
        Some(m)
    } else {
        match take_one(m, reqs[0]) {
            Some(m2) => take_all(m2, reqs.drop_first()),
            None => None,
        }
    }
}

/// Every requirement of `reqs`, taken on its own, can be drawn from `m`.
pub open spec fn meets_each(m: Stock, reqs: Seq<IngredientView>) -> bool {
    forall|i: int| 0 <= i < reqs.len() ==> #[trigger] take_one(m, reqs[i]) is Some
}

/// Total quantity of material `n` that the requirements ask for.
pub open spec fn demand(reqs: Seq<IngredientView>, n: Seq<char>) -> int
    decreases reqs.len(),
{
    if reqs.len() == 0 {
        0
    } else {
        (if reqs[0].name == n { reqs[0].quantity as int } else { 0 }) + demand(reqs.drop_first(), n)
    }
}

/// `big` holds every material of `small`, in at least the same quantity,
/// and consumable wherever it is consumable in `small`.
pub open spec fn supplies(big: Stock, small: Stock) -> bool {
    forall|n: Seq<char>|
        #[trigger] small.contains_key(n) ==> {
            &&& big.contains_key(n)
            &&& big[n].0 >= small[n].0
            &&& (small[n].1 ==> big[n].1)
        }
}

pub open spec fn mastered(r: RecipeView) -> bool {
    r.cook_count >= MASTERY_THRESHOLD
}

/// The craft counter after one more successful craft; it stops at the
/// largest value it can hold.
pub open spec fn bumped(c: u32) -> u32 {
    if c < u32::MAX { (c + 1) as u32 } else { c }
}

/// The craft counter after `k` more successful crafts.
pub open spec fn bumped_times(c: u32, k: nat) -> u32
    decreases k,
{
    if k == 0 {
        c
    } else {
        bumped(bumped_times(c, (k - 1) as nat))
    }
}

/// A recipe that starts uncrafted and is crafted `k` times has a craft
/// count of `k`, and is mastered exactly when `k` reaches the threshold.
pub proof fn law_mastery_threshold(r: RecipeView, k: nat)
    requires
        r.cook_count == 0,
        k <= u32::MAX,
    ensures
        bumped_times(r.cook_count, k) == k,
        mastered(RecipeView { cook_count: bumped_times(r.cook_count, k), ..r }) <==> k >= MASTERY_THRESHOLD,
    decreases k,
{
    if k > 0 {
        law_mastery_threshold(r, (k - 1) as nat);
    }
}


impl Ingredient {
    pub fn duplicate(&self) -> (r: Ingredient)
        ensures
            r == *self,
    {
        Ingredient { name: self.name.clone(), quantity: self.quantity, recipe_craftable: self.recipe_craftable }
    }
}

impl Crafter {
    pub fn duplicate(&self) -> (r: Crafter)
        ensures
            r == *self,
    {
        Crafter { name: self.name.clone() }
    }
}

/// A copy of a list of ingredients, equal entry for entry.
pub fn copy_ingredients(s: &Vec<Ingredient>) -> (r: Vec<Ingredient>)
    ensures
        r@ == s@,
{
    let mut r: Vec<Ingredient> = Vec::new();
    let mut i: usize = 0;
    while i < s.len()
        invariant
            i <= s.len(),
            r@ == s@.take(i as int),
        decreases s.len() - i,
    {
        r.push(s[i].duplicate());
        i = i + 1;
        assert(r@ =~= s@.take(i as int));
    }
    assert(s@.take(s.len() as int) =~= s@);
    r
}

fn copy_crafters(s: &Vec<Crafter>) -> (r: Vec<Crafter>)
    ensures
        r@ == s@,
{
    let mut r: Vec<Crafter> = Vec::new();
    let mut i: usize = 0;
    while i < s.len()
        invariant
            i <= s.len(),
            r@ == s@.take(i as int),
        decreases s.len() - i,
    {
        r.push(s[i].duplicate());
        i = i + 1;
        assert(r@ =~= s@.take(i as int));
    }
    assert(s@.take(s.len() as int) =~= s@);
    r
}

impl Recipe {
    /// A copy of this recipe with the same contents.
    pub fn duplicate(&self) -> (r: Recipe)
        ensures
            r@ == self@,
    {
        Recipe {
            name: self.name.clone(),
            ingredients: copy_ingredients(&self.ingredients),
            outcome: self.outcome.clone(),
            crafters: copy_crafters(&self.crafters),
            base_cook_time: self.base_cook_time,
            cook_count: self.cook_count,
        }
    }

    pub fn increment_cook_count(&mut self)
        ensures
            final(self)@ == (RecipeView { cook_count: bumped(old(self).cook_count), ..old(self)@ }),
    {
        if self.cook_count < u32::MAX {
            self.cook_count = self.cook_count + 1;
        }
    }

    pub fn is_mastered(&self) -> (r: bool)
        ensures
            r == mastered(self@),
    {
        self.cook_count >= MASTERY_THRESHOLD
    }
}

} // verus!
