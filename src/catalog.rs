//! The recipe catalog: recipes by name, an index from crafter to recipe
//! names, craftability checks, crafting and import.
use vstd::prelude::*;

use crate::assoc::{
    assoc, first_with_key, key_absent, keys_distinct, lemma_assoc_absent, lemma_assoc_first,
    lemma_assoc_push, lemma_assoc_update,
};
use crate::recipe::{
    bumped, crafters_view, demand, meets_each, stock_of, supplies, take_all, take_one, Crafter,
    Ingredient, Recipe, RecipeView,
};
use crate::stock::{consume_all, meets_all};

verus! {

/// Why an import of recipes failed.
#[derive(Debug, Clone)]
pub enum ImportError {
    /// The source could not be opened or read.
    Unreadable(String),
    /// The source's format is neither JSON nor CSV.
    UnsupportedFormat(String),
    /// A record of the source could not be decoded.
    Malformed(String),
}

/// The recipe names listed under one crafter.
#[derive(Debug, Clone)]
pub struct CrafterEntry {
    pub crafter: Crafter,
    pub recipe_names: Vec<String>,
}

/// Recipes in order of first insertion, and for each crafter the names of
/// the recipes that list it, in order of first insertion.
#[derive(Debug, Clone)]
pub struct RecipeBook {
    pub recipes: Vec<Recipe>,
    pub crafters: Vec<CrafterEntry>,
}

pub type Index = Map<Seq<char>, Seq<Seq<char>>>;

pub open spec fn names_view(s: Seq<String>) -> Seq<Seq<char>> {
    s.map_values(|n: String| n@)
}

pub open spec fn recipe_pairs(s: Seq<Recipe>) -> Seq<(Seq<char>, RecipeView)> {
    s.map_values(|r: Recipe| (r.name@, r@))
}

pub open spec fn index_pairs(s: Seq<CrafterEntry>) -> Seq<(Seq<char>, Seq<Seq<char>>)> {
    s.map_values(|e: CrafterEntry| (e.crafter.name@, names_view(e.recipe_names@)))
}

/// The index after listing recipe name `n` under crafter `c`; a name already
/// listed there is not listed twice.
pub open spec fn index_add_one(m: Index, c: Seq<char>, n: Seq<char>) -> Index {
    if m.contains_key(c) {
        if m[c].contains(n) {
            m
        } else {
            m.insert(c, m[c].push(n))
        }
    } else {
        m.insert(c, seq![n])
    }
}

/// The index after listing recipe name `n` under each crafter of `cs`.
pub open spec fn index_add(m: Index, cs: Seq<Seq<char>>, n: Seq<char>) -> Index
    decreases cs.len(),
{
    if cs.len() == 0 {
        m
    } else {
        index_add(index_add_one(m, cs[0], n), cs.drop_first(), n)
    }
}

/// The records of an import up to the first failed one.
pub open spec fn leading_records(rs: Seq<Result<Recipe, ImportError>>) -> Seq<RecipeView>
    decreases rs.len(),
{
    if rs.len() == 0 {
        seq![]
    } else {
        match rs[0] {
            Ok(r) => seq![r@] + leading_records(rs.drop_first()),
            Err(_) => seq![],
        }
    }
}

/// The outcome of an import: its first failure, if any.
pub open spec fn import_outcome(rs: Seq<Result<Recipe, ImportError>>) -> Result<(), ImportError>
    decreases rs.len(),
{
    if rs.len() == 0 {
        Ok(())
    } else {
        match rs[0] {
            Ok(_) => import_outcome(rs.drop_first()),
            Err(e) => Err(e),
        }
    }
}

/// The recipes by name after adding each of `rs` in turn.
pub open spec fn recipes_after(m: Map<Seq<char>, RecipeView>, rs: Seq<RecipeView>) -> Map<
    Seq<char>,
    RecipeView,
>
    decreases rs.len(),
{
    if rs.len() == 0 {
        m
    } else {
        recipes_after(m.insert(rs[0].name, rs[0]), rs.drop_first())
    }
}

/// The crafter index after adding each of `rs` in turn.
pub open spec fn index_after(m: Index, rs: Seq<RecipeView>) -> Index
    decreases rs.len(),
{
    if rs.len() == 0 {
        m
    } else {
        index_after(index_add(m, rs[0].crafters, rs[0].name), rs.drop_first())
    }
}

fn find_recipe(s: &Vec<Recipe>, name: &String) -> (r: Option<usize>)
    ensures
        match r {
            Some(j) => first_with_key(recipe_pairs(s@), j as int) && s@[j as int].name@ == name@,
            None => key_absent(recipe_pairs(s@), name@),
        },
{
    let mut j: usize = 0;
    while j < s.len()
        invariant
            j <= s.len(),
            forall|k: int| 0 <= k < j ==> #[trigger] s@[k].name@ != name@,
        decreases s.len() - j,
    {
        if s[j].name == *name {
            proof {
                assert forall|k: int| 0 <= k < j implies #[trigger] recipe_pairs(s@)[k].0
                    != recipe_pairs(s@)[j as int].0 by {
                    assert(recipe_pairs(s@)[k].0 == s@[k].name@);
                }
            }
            return Some(j);
        }
        j = j + 1;
    }
    proof {
        assert forall|k: int| 0 <= k < recipe_pairs(s@).len() implies #[trigger] recipe_pairs(
            s@,
        )[k].0 != name@ by {
            assert(recipe_pairs(s@)[k].0 == s@[k].name@);
        }
    }
    None
}

fn find_crafter(s: &Vec<CrafterEntry>, name: &String) -> (r: Option<usize>)
    ensures
        match r {
            Some(j) => first_with_key(index_pairs(s@), j as int) && s@[j as int].crafter.name@
                == name@,
            None => key_absent(index_pairs(s@), name@),
        },
{
    let mut j: usize = 0;
    while j < s.len()
        invariant
            j <= s.len(),
            forall|k: int| 0 <= k < j ==> #[trigger] s@[k].crafter.name@ != name@,
        decreases s.len() - j,
    {
        if s[j].crafter.name == *name {
            proof {
                assert forall|k: int| 0 <= k < j implies #[trigger] index_pairs(s@)[k].0
                    != index_pairs(s@)[j as int].0 by {
                    assert(index_pairs(s@)[k].0 == s@[k].crafter.name@);
                }
            }
            return Some(j);
        }
        j = j + 1;
    }
    proof {
        assert forall|k: int| 0 <= k < index_pairs(s@).len() implies #[trigger] index_pairs(
            s@,
        )[k].0 != name@ by {
            assert(index_pairs(s@)[k].0 == s@[k].crafter.name@);
        }
    }
    None
}

fn names_contain(names: &Vec<String>, n: &String) -> (r: bool)
    ensures
        r == names_view(names@).contains(n@),
{
    let mut j: usize = 0;
    while j < names.len()
        invariant
            j <= names.len(),
            forall|k: int| 0 <= k < j ==> #[trigger] names@[k]@ != n@,
        decreases names.len() - j,
    {
        if names[j] == *n {
            assert(names_view(names@)[j as int] == n@);
            return true;
        }
        j = j + 1;
    }
    proof {
        if names_view(names@).contains(n@) {
            let k = choose|k: int| 0 <= k < names_view(names@).len() && names_view(names@)[k] == n@;
            assert(names@[k]@ == n@);
        }
    }
    false
}

impl RecipeBook {
    /// The recipes by name.
    pub open spec fn recipe_map(&self) -> Map<Seq<char>, RecipeView> {
        assoc(recipe_pairs(self.recipes@))
    }

    /// The recipes in order of first insertion.
    pub open spec fn recipe_list(&self) -> Seq<RecipeView> {
        self.recipes@.map_values(|r: Recipe| r@)
    }

    /// The recipe names listed under each crafter name.
    pub open spec fn index(&self) -> Index {
        assoc(index_pairs(self.crafters@))
    }

    /// Recipe names are unique, and every name in the index names a recipe.
    pub open spec fn wf(&self) -> bool {
        &&& keys_distinct(recipe_pairs(self.recipes@))
        &&& forall|c: Seq<char>, j: int|
            #![trigger self.index()[c][j]]
            self.index().contains_key(c) && 0 <= j < self.index()[c].len()
                ==> self.recipe_map().contains_key(self.index()[c][j])
    }

    pub open spec fn lookup(&self, n: Seq<char>) -> Option<RecipeView> {
        if self.recipe_map().contains_key(n) {
            Some(self.recipe_map()[n])
        } else {
            None
        }
    }

    /// The recipes listed under crafter `c`, in the index's order.
    pub open spec fn recipes_for(&self, c: Seq<char>) -> Seq<RecipeView> {
        if self.index().contains_key(c) {
            self.index()[c].map_values(|n: Seq<char>| self.recipe_map()[n])
        } else {
            seq![]
        }
    }

    /// The recipe named `n` exists and each of its requirements, taken on
    /// its own, can be drawn from the stock that `inv` stands for.
    pub open spec fn can_craft_spec(&self, n: Seq<char>, inv: Seq<Ingredient>) -> bool {
        &&& self.recipe_map().contains_key(n)
        &&& meets_each(stock_of(inv), self.recipe_map()[n].ingredients)
    }

    /// The recipe named `n` exists and all its requirements can be drawn
    /// from the stock that `inv` stands for one after another, so that
    /// requirements naming the same material draw on it together and no
    /// quantity goes below zero.
    pub open spec fn craft_spec(&self, n: Seq<char>, inv: Seq<Ingredient>) -> bool {
        &&& self.recipe_map().contains_key(n)
        &&& take_all(stock_of(inv), self.recipe_map()[n].ingredients) is Some
    }

    pub fn new() -> (r: RecipeBook)
        ensures
            r.wf(),
            r.recipe_map() == Map::<Seq<char>, RecipeView>::empty(),
            r.index() == Index::empty(),
            r.recipe_list() == Seq::<RecipeView>::empty(),
    {
        let r = RecipeBook { recipes: Vec::new(), crafters: Vec::new() };
        assert(recipe_pairs(r.recipes@) =~= seq![]);
        assert(index_pairs(r.crafters@) =~= seq![]);
        assert(r.recipe_list() =~= seq![]);
        r
    }

    /// Lists recipe name `n` under crafter `c`, unless it is listed there.
    fn index_one(&mut self, c: &Crafter, n: &String)
        ensures
            final(self).index() == index_add_one(old(self).index(), c@, n@),
            final(self).recipes == old(self).recipes,
    {
        let found = find_crafter(&self.crafters, &c.name);
        match found {
            Some(k) => {
                proof {
                    lemma_assoc_first(index_pairs(self.crafters@), k as int);
                }
                let listed = names_contain(&self.crafters[k].recipe_names, n);
                assert(index_pairs(self.crafters@)[k as int].0 == c@);
                assert(self.index()[c@] == names_view(self.crafters@[k as int].recipe_names@));
                if !listed {
                    let ghost pre = self.crafters@;
                    let ghost pv = index_pairs(pre)[k as int].1;
                    self.crafters[k].recipe_names.push(n.clone());
                    proof {
                        lemma_assoc_update(index_pairs(pre), k as int, pv.push(n@));
                        assert(names_view(self.crafters@[k as int].recipe_names@) =~= pv.push(n@));
                        assert(index_pairs(self.crafters@) =~= index_pairs(pre).update(
                            k as int,
                            (index_pairs(pre)[k as int].0, pv.push(n@)),
                        ));
                        assert(self.index() == index_add_one(old(self).index(), c@, n@));
                    }
                } else {
                    assert(self.index() == index_add_one(old(self).index(), c@, n@));
                }
            },
            None => {
                let ghost pre = self.crafters@;
                let mut names: Vec<String> = Vec::new();
                names.push(n.clone());
                self.crafters.push(CrafterEntry { crafter: c.duplicate(), recipe_names: names });
                proof {
                    lemma_assoc_absent(index_pairs(pre), c@);
                    lemma_assoc_push(index_pairs(pre), c@, seq![n@]);
                    assert(names_view(names@) =~= seq![n@]);
                    assert(index_pairs(self.crafters@) =~= index_pairs(pre).push((c@, seq![n@])));
                }
            },
        }
    }

    /// Adds `recipe`, replacing any recipe of the same name, and lists its
    /// name under each of its crafters.
    pub fn add_recipe(&mut self, recipe: Recipe)
        requires
            old(self).wf(),
        ensures
            final(self).wf(),
            final(self).recipe_map() == old(self).recipe_map().insert(recipe.name@, recipe@),
            final(self).index() == index_add(
                old(self).index(),
                crafters_view(recipe.crafters@),
                recipe.name@,
            ),
    {
        let ghost cs = crafters_view(recipe.crafters@);
        let ghost n = recipe.name@;
        let ghost old_map = self.recipe_map();
        let mut i: usize = 0;
        assert(cs.skip(0) =~= cs);
        while i < recipe.crafters.len()
            invariant
                i <= recipe.crafters.len(),
                cs == crafters_view(recipe.crafters@),
                n == recipe.name@,
                self.recipes == old(self).recipes,
                old_map == self.recipe_map(),
                keys_distinct(recipe_pairs(self.recipes@)),
                index_add(old(self).index(), cs, n) == index_add(self.index(), cs.skip(i as int), n),
                forall|c: Seq<char>, j: int|
                    #![trigger self.index()[c][j]]
                    self.index().contains_key(c) && 0 <= j < self.index()[c].len()
                        ==> old_map.contains_key(self.index()[c][j]) || self.index()[c][j] == n,
            decreases recipe.crafters.len() - i,
        {
            let ghost pre_index = self.index();
            proof {
                assert(cs.skip(i as int).drop_first() =~= cs.skip(i as int + 1));
                assert(cs.skip(i as int)[0] == recipe.crafters@[i as int]@);
            }
            self.index_one(&recipe.crafters[i], &recipe.name);
            proof {
                let c0 = recipe.crafters@[i as int]@;
                assert forall|c: Seq<char>, j: int|
                    #![trigger self.index()[c][j]]
                    self.index().contains_key(c) && 0 <= j < self.index()[c].len()
                        implies old_map.contains_key(self.index()[c][j]) || self.index()[c][j] == n by {
                    if c == c0 && pre_index.contains_key(c0) && j < pre_index[c0].len() {
                        assert(self.index()[c][j] == pre_index[c][j]);
                    }
                }
            }
            i = i + 1;
        }
        assert(cs.skip(i as int) =~= Seq::<Seq<char>>::empty());
        let ghost pre = self.recipes@;
        let found = find_recipe(&self.recipes, &recipe.name);
        match found {
            Some(k) => {
                self.recipes.set(k, recipe);
                proof {
                    lemma_assoc_update(recipe_pairs(pre), k as int, self.recipes@[k as int]@);
                    assert(recipe_pairs(self.recipes@) =~= recipe_pairs(pre).update(
                        k as int,
                        (recipe_pairs(pre)[k as int].0, self.recipes@[k as int]@),
                    ));
                }
            },
            None => {
                self.recipes.push(recipe);
                proof {
                    let last = self.recipes@[pre.len() as int];
                    lemma_assoc_push(recipe_pairs(pre), last.name@, last@);
                    assert(recipe_pairs(self.recipes@) =~= recipe_pairs(pre).push((last.name@, last@)));
                }
            },
        }
    }

    /// The recipe named `name`, if there is one.
    pub fn get_recipe(&self, name: &str) -> (r: Option<Recipe>)
        ensures
            match r {
                Some(x) => self.lookup(name@) == Some(x@),
                None => self.lookup(name@) is None,
            },
    {
        let n = name.to_owned();
        self.get_recipe_named(&n)
    }

    fn get_recipe_named(&self, n: &String) -> (r: Option<Recipe>)
        ensures
            match r {
                Some(x) => self.lookup(n@) == Some(x@),
                None => self.lookup(n@) is None,
            },
    {
        match find_recipe(&self.recipes, n) {
            Some(k) => {
                proof {
                    lemma_assoc_first(recipe_pairs(self.recipes@), k as int);
                }
                Some(self.recipes[k].duplicate())
            },
            None => {
                proof {
                    lemma_assoc_absent(recipe_pairs(self.recipes@), n@);
                }
                None
            },
        }
    }

    /// The recipes listed under `crafter`, in the order in which they were
    /// first listed there.
    pub fn get_recipes_for_crafter(&self, crafter: &Crafter) -> (r: Vec<Recipe>)
        requires
            self.wf(),
        ensures
            r@.map_values(|x: Recipe| x@) == self.recipes_for(crafter@),
    {
        let mut r: Vec<Recipe> = Vec::new();
        match find_crafter(&self.crafters, &crafter.name) {
            None => {
                proof {
                    lemma_assoc_absent(index_pairs(self.crafters@), crafter@);
                }
                assert(r@.map_values(|x: Recipe| x@) =~= self.recipes_for(crafter@));
                r
            },
            Some(k) => {
                proof {
                    lemma_assoc_first(index_pairs(self.crafters@), k as int);
                }
                let names = &self.crafters[k].recipe_names;
                let ghost want = self.recipes_for(crafter@);
                assert(self.index()[crafter@] == names_view(names@));
                let mut i: usize = 0;
                while i < names.len()
                    invariant
                        i <= names.len(),
                        self.wf(),
                        self.index().contains_key(crafter@),
                        self.index()[crafter@] == names_view(names@),
                        want == self.recipes_for(crafter@),
                        r@.len() == i,
                        forall|j: int| 0 <= j < i ==> #[trigger] r@[j]@ == want[j],
                        want.len() == names@.len(),
                    decreases names.len() - i,
                {
                    assert(self.index()[crafter@][i as int] == names@[i as int]@);
                    let found = self.get_recipe_named(&names[i]);
                    match found {
                        Some(x) => {
                            assert(x@ == want[i as int]);
                            r.push(x);
                        },
                        None => {
                            assert(false);
                        },
                    }
                    i = i + 1;
                }
                assert(r@.map_values(|x: Recipe| x@) =~= want);
                r
            },
        }
    }

    /// Every recipe, in order of first insertion.
    pub fn all_recipes(&self) -> (r: Vec<Recipe>)
        ensures
            r@.map_values(|x: Recipe| x@) == self.recipe_list(),
    {
        let mut r: Vec<Recipe> = Vec::new();
        let mut i: usize = 0;
        while i < self.recipes.len()
            invariant
                i <= self.recipes.len(),
                r@.len() == i,
                forall|j: int| 0 <= j < i ==> #[trigger] r@[j]@ == self.recipe_list()[j],
            decreases self.recipes.len() - i,
        {
            let x = self.recipes[i].duplicate();
            assert(x@ == self.recipe_list()[i as int]);
            r.push(x);
            i = i + 1;
        }
        assert(r@.map_values(|x: Recipe| x@) =~= self.recipe_list());
        r
    }

    /// Whether the recipe named `recipe_name` exists and each of its
    /// requirements is met by `inventory`, read as a stock in which the first
    /// entry of each name counts: the material is there, may be consumed,
    /// and is at hand in at least the required quantity.
    pub fn can_craft(&self, recipe_name: &str, inventory: &Vec<Ingredient>) -> (r: bool)
        ensures
            r == self.can_craft_spec(recipe_name@, inventory@),
    {
        let n = recipe_name.to_owned();
        match find_recipe(&self.recipes, &n) {
            None => {
                proof {
                    lemma_assoc_absent(recipe_pairs(self.recipes@), n@);
                }
                false
            },
            Some(k) => {
                proof {
                    lemma_assoc_first(recipe_pairs(self.recipes@), k as int);
                }
                meets_all(inventory, &self.recipes[k].ingredients)
            },
        }
    }

    /// Crafts the recipe named `recipe_name` from `inventory`: when all its
    /// requirements can be drawn from `inventory` one after another, draws
    /// them, counts one more craft of the recipe and returns the name of its
    /// outcome. Otherwise returns `None` and changes nothing: this is so
    /// whenever `can_craft` is false, and also when requirements naming the
    /// same material together ask for more than is at hand.
    pub fn craft(&mut self, recipe_name: &str, inventory: &mut Vec<Ingredient>) -> (r: Option<String>)
        requires
            old(self).wf(),
        ensures
            final(self).wf(),
            r is Some <==> old(self).craft_spec(recipe_name@, old(inventory)@),
            r is Some ==> old(self).can_craft_spec(recipe_name@, old(inventory)@),
            r is None ==> *final(inventory) == *old(inventory) && *final(self) == *old(self),
            r is Some ==> {
                let rec = old(self).recipe_map()[recipe_name@];
                &&& r->0@ == rec.outcome
                &&& stock_of(final(inventory)@) == take_all(stock_of(old(inventory)@), rec.ingredients)->0
                &&& final(self).recipe_map() == old(self).recipe_map().insert(
                    recipe_name@,
                    RecipeView { cook_count: bumped(rec.cook_count), ..rec },
                )
                &&& final(self).index() == old(self).index()
            },
            final(inventory)@.len() == old(inventory)@.len(),
            forall|k: int| 0 <= k < old(inventory)@.len() ==> #[trigger] final(inventory)@[k].name
                == old(inventory)@[k].name,
    {
        let n = recipe_name.to_owned();
        match find_recipe(&self.recipes, &n) {
            None => {
                proof {
                    lemma_assoc_absent(recipe_pairs(self.recipes@), n@);
                }
                None
            },
            Some(k) => {
                proof {
                    lemma_assoc_first(recipe_pairs(self.recipes@), k as int);
                }
                let ok = consume_all(inventory, &self.recipes[k].ingredients);
                if !ok {
                    return None;
                }
                proof {
                    crate::stock::lemma_take_all_meets_each(
                        stock_of(old(inventory)@),
                        old(self).recipe_map()[n@].ingredients,
                    );
                }
                let outcome = self.recipes[k].outcome.clone();
                self.record_craft(&n);
                Some(outcome)
            },
        }
    }

    /// Counts one more successful craft of the recipe named `name`, if
    /// there is one.
    pub fn record_craft(&mut self, name: &String)
        requires
            old(self).wf(),
        ensures
            final(self).wf(),
            final(self).index() == old(self).index(),
            final(self).recipe_map() == if old(self).recipe_map().contains_key(name@) {
                old(self).recipe_map().insert(
                    name@,
                    RecipeView { cook_count: bumped(old(self).recipe_map()[name@].cook_count), ..old(self).recipe_map()[name@] },
                )
            } else {
                old(self).recipe_map()
            },
    {
        match find_recipe(&self.recipes, name) {
            None => {
                proof {
                    lemma_assoc_absent(recipe_pairs(self.recipes@), name@);
                }
            },
            Some(k) => {
                proof {
                    lemma_assoc_first(recipe_pairs(self.recipes@), k as int);
                }
                let ghost pre = self.recipes@;
                self.recipes[k].increment_cook_count();
                proof {
                    lemma_assoc_update(recipe_pairs(pre), k as int, self.recipes@[k as int]@);
                    assert(recipe_pairs(self.recipes@) =~= recipe_pairs(pre).update(
                        k as int,
                        (recipe_pairs(pre)[k as int].0, self.recipes@[k as int]@),
                    ));
                    let np = recipe_pairs(self.recipes@);
                    assert forall|a: int, b: int| 0 <= a < b < np.len() implies #[trigger] np[a].0
                        != #[trigger] np[b].0 by {
                        assert(np[a].0 == recipe_pairs(pre)[a].0);
                        assert(np[b].0 == recipe_pairs(pre)[b].0);
                    }
                    assert(self.recipe_map().dom() =~= old(self).recipe_map().dom());
                    assert forall|c: Seq<char>, j: int|
                        #![trigger self.index()[c][j]]
                        self.index().contains_key(c) && 0 <= j < self.index()[c].len()
                            implies self.recipe_map().contains_key(self.index()[c][j]) by {
                        assert(old(self).index()[c][j] == self.index()[c][j]);
                        assert(old(self).recipe_map().contains_key(self.index()[c][j]));
                    }
                }
            },
        }
    }

    /// Adds the records of an import in order, up to the first one that
    /// failed to decode. Returns that failure, or `Ok` when every record
    /// decoded. Records added before a failure stay added.
    pub fn import_recipes(&mut self, records: Vec<Result<Recipe, ImportError>>) -> (r: Result<(), ImportError>)
        requires
            old(self).wf(),
        ensures
            final(self).wf(),
            final(self).recipe_map() == recipes_after(old(self).recipe_map(), leading_records(records@)),
            final(self).index() == index_after(old(self).index(), leading_records(records@)),
            r == import_outcome(records@),
    {
        let ghost orig = records@;
        let mut rest = records;
        while rest.len() > 0
            invariant
                orig == records@,
                self.wf(),
                recipes_after(old(self).recipe_map(), leading_records(orig)) == recipes_after(
                    self.recipe_map(),
                    leading_records(rest@),
                ),
                index_after(old(self).index(), leading_records(orig)) == index_after(
                    self.index(),
                    leading_records(rest@),
                ),
                import_outcome(orig) == import_outcome(rest@),
            decreases rest.len(),
        {
            let ghost before = rest@;
            let rec = rest.remove(0);
            assert(rest@ =~= before.drop_first());
            match rec {
                Ok(recipe) => {
                    proof {
                        let l = leading_records(before);
                        assert(l == seq![recipe@] + leading_records(rest@));
                        assert(l[0] == recipe@);
                        assert(l.drop_first() =~= leading_records(rest@));
                    }
                    self.add_recipe(recipe);
                },
                Err(e) => {
                    proof {
                        assert(leading_records(before) =~= Seq::<RecipeView>::empty());
                        assert(recipes_after(self.recipe_map(), leading_records(before)) == self.recipe_map());
                        assert(index_after(self.index(), leading_records(before)) == self.index());
                    }
                    return Err(e);
                },
            }
        }
        Ok(())
    }
}

/// Listing a name under one crafter lists it there and keeps every
/// listing that was already present.
proof fn lemma_index_add_one_lists(m: Index, c: Seq<char>, n: Seq<char>)
    ensures
        index_add_one(m, c, n).contains_key(c),
        index_add_one(m, c, n)[c].contains(n),
        forall|c2: Seq<char>, x: Seq<char>|
            m.contains_key(c2) && #[trigger] m[c2].contains(x) ==> index_add_one(m, c, n).contains_key(c2)
                && #[trigger] index_add_one(m, c, n)[c2].contains(x),
{
    if m.contains_key(c) && !m[c].contains(n) {
        assert(m[c].push(n)[m[c].len() as int] == n);
        assert forall|c2: Seq<char>, x: Seq<char>|
            m.contains_key(c2) && #[trigger] m[c2].contains(x) implies index_add_one(m, c, n).contains_key(c2)
                && #[trigger] index_add_one(m, c, n)[c2].contains(x) by {
            if c2 == c {
                let j = choose|j: int| 0 <= j < m[c].len() && m[c][j] == x;
                assert(m[c].push(n)[j] == x);
            }
        }
    } else if !m.contains_key(c) {
        assert(seq![n][0] == n);
    }
}

proof fn lemma_index_add_keeps(m: Index, cs: Seq<Seq<char>>, n: Seq<char>, c2: Seq<char>, x: Seq<char>)
    requires
        m.contains_key(c2),
        m[c2].contains(x),
    ensures
        index_add(m, cs, n).contains_key(c2),
        index_add(m, cs, n)[c2].contains(x),
    decreases cs.len(),
{
    if cs.len() > 0 {
        lemma_index_add_one_lists(m, cs[0], n);
        lemma_index_add_keeps(index_add_one(m, cs[0], n), cs.drop_first(), n, c2, x);
    }
}

proof fn lemma_index_add_lists(m: Index, cs: Seq<Seq<char>>, n: Seq<char>)
    ensures
        forall|c: Seq<char>|
            #[trigger] cs.contains(c) ==> index_add(m, cs, n).contains_key(c) && index_add(m, cs, n)[c].contains(n),
    decreases cs.len(),
{
    if cs.len() > 0 {
        let m1 = index_add_one(m, cs[0], n);
        lemma_index_add_one_lists(m, cs[0], n);
        lemma_index_add_lists(m1, cs.drop_first(), n);
        lemma_index_add_keeps(m1, cs.drop_first(), n, cs[0], n);
        assert forall|c: Seq<char>| #[trigger] cs.contains(c) implies index_add(m, cs, n).contains_key(c)
            && index_add(m, cs, n)[c].contains(n) by {
            if c != cs[0] {
                let j = choose|j: int| 0 <= j < cs.len() && cs[j] == c;
                assert(cs.drop_first()[j - 1] == c);
                assert(cs.drop_first().contains(c));
            }
        }
    }
}

/// After a recipe is added, each crafter that it lists leads back to it:
/// the recipes listed under that crafter include the recipe just added.
pub proof fn law_index_consistency(before: RecipeBook, after: RecipeBook, recipe: Recipe)
    requires
        after.wf(),
        after.recipe_map() == before.recipe_map().insert(recipe.name@, recipe@),
        after.index() == index_add(before.index(), crafters_view(recipe.crafters@), recipe.name@),
    ensures
        forall|c: Seq<char>|
            #[trigger] crafters_view(recipe.crafters@).contains(c) ==> after.index()[c].contains(recipe.name@)
                && after.recipes_for(c).contains(recipe@),
{
    let cs = crafters_view(recipe.crafters@);
    lemma_index_add_lists(before.index(), cs, recipe.name@);
    assert forall|c: Seq<char>| #[trigger] cs.contains(c) implies after.index()[c].contains(recipe.name@)
        && after.recipes_for(c).contains(recipe@) by {
        let j = choose|j: int| 0 <= j < after.index()[c].len() && after.index()[c][j] == recipe.name@;
        assert(after.recipes_for(c)[j] == recipe@);
    }
}

/// What listing name `n` under each crafter of `cs` does to the list of one
/// crafter `c`: nothing when `cs` does not name it, else what listing `n`
/// under `c` once does.
proof fn lemma_index_add_at(m: Index, cs: Seq<Seq<char>>, n: Seq<char>, c: Seq<char>)
    ensures
        index_add(m, cs, n).contains_key(c) <==> (m.contains_key(c) || cs.contains(c)),
        index_add(m, cs, n).contains_key(c) ==> index_add(m, cs, n)[c] == if cs.contains(c) {
            index_add_one(m, c, n)[c]
        } else {
            m[c]
        },
    decreases cs.len(),
{
    if cs.len() > 0 {
        let m1 = index_add_one(m, cs[0], n);
        let rest = cs.drop_first();
        lemma_index_add_at(m1, rest, n, c);
        lemma_index_add_one_lists(m, cs[0], n);
        assert forall|x: Seq<char>| #[trigger] cs.contains(x) <==> (x == cs[0] || rest.contains(x)) by {
            if cs.contains(x) && x != cs[0] {
                let j = choose|j: int| 0 <= j < cs.len() && cs[j] == x;
                assert(rest[j - 1] == x);
            }
            if rest.contains(x) {
                let j = choose|j: int| 0 <= j < rest.len() && rest[j] == x;
                assert(cs[j + 1] == x);
            }
            if x == cs[0] {
                assert(cs[0] == x);
            }
        }
        if cs[0] != c {
            assert(m1.contains_key(c) == m.contains_key(c));
            if m.contains_key(c) {
                assert(m1[c] == m[c]);
            }
        }
    }
}

/// Importing two recipes of different names into an empty catalog lists
/// both under every crafter that both name, in the order of the import.
pub proof fn law_import_order(
    before: RecipeBook,
    after: RecipeBook,
    first: Recipe,
    second: Recipe,
    c: Seq<char>,
)
    requires
        before.recipe_map().is_empty(),
        before.index().is_empty(),
        first.name@ != second.name@,
        crafters_view(first.crafters@).contains(c),
        crafters_view(second.crafters@).contains(c),
        after.recipe_map() == recipes_after(
            before.recipe_map(),
            leading_records(seq![Ok(first), Ok(second)]),
        ),
        after.index() == index_after(before.index(), leading_records(seq![Ok(first), Ok(second)])),
    ensures
        after.index()[c] == seq![first.name@, second.name@],
        after.recipes_for(c) == seq![first@, second@],
{
    let rs = seq![Ok::<Recipe, ImportError>(first), Ok::<Recipe, ImportError>(second)];
    assert(rs.drop_first() =~= seq![Ok::<Recipe, ImportError>(second)]);
    assert(rs.drop_first().drop_first() =~= Seq::<Result<Recipe, ImportError>>::empty());
    assert(leading_records(rs.drop_first().drop_first()) == Seq::<RecipeView>::empty());
    assert(leading_records(rs.drop_first()) =~= seq![second@]);
    let l = leading_records(rs);
    assert(l =~= seq![first@, second@]);
    assert(l.drop_first() =~= seq![second@]);
    assert(l.drop_first().drop_first() =~= Seq::<RecipeView>::empty());
    let m0 = before.index();
    let m1 = index_add(m0, first@.crafters, first@.name);
    let m2 = index_add(m1, second@.crafters, second@.name);
    assert(l[0] == first@);
    assert(l.drop_first()[0] == second@);
    assert(index_after(m0, l) == index_after(m1, l.drop_first()));
    assert(index_after(m1, l.drop_first()) == index_after(m2, l.drop_first().drop_first()));
    assert(index_after(m2, l.drop_first().drop_first()) == m2);
    assert(after.index() == m2);
    lemma_index_add_at(m0, first@.crafters, first@.name, c);
    lemma_index_add_at(m1, second@.crafters, second@.name, c);
    assert(m1[c] == seq![first.name@]);
    assert(!m1[c].contains(second.name@)) by {
        if m1[c].contains(second.name@) {
            let j = choose|j: int| 0 <= j < m1[c].len() && m1[c][j] == second.name@;
            assert(j == 0);
        }
    }
    assert(m2[c] =~= seq![first.name@, second.name@]);
    let r0 = before.recipe_map();
    let r1 = r0.insert(first.name@, first@);
    assert(recipes_after(r0, l) == recipes_after(r1, l.drop_first()));
    assert(recipes_after(r1, l.drop_first()) == recipes_after(
        r1.insert(second.name@, second@),
        l.drop_first().drop_first(),
    ));
    assert(after.recipe_map() == r1.insert(second.name@, second@));
    assert(after.recipes_for(c) =~= seq![first@, second@]);
}

/// Craftability is monotonic in supply: when a recipe can be crafted from
/// one stock, it can be crafted from any stock that supplies at least as
/// much of every material; the same holds of drawing all its requirements
/// together.
pub proof fn law_craftability_monotonic(
    book: RecipeBook,
    name: Seq<char>,
    inventory: Seq<Ingredient>,
    larger: Seq<Ingredient>,
)
    requires
        book.can_craft_spec(name, inventory),
        supplies(stock_of(larger), stock_of(inventory)),
    ensures
        book.can_craft_spec(name, larger),
        book.craft_spec(name, inventory) ==> book.craft_spec(name, larger),
{
    let reqs = book.recipe_map()[name].ingredients;
    let small = stock_of(inventory);
    let big = stock_of(larger);
    assert forall|i: int| 0 <= i < reqs.len() implies #[trigger] take_one(big, reqs[i]) is Some by {
        assert(take_one(small, reqs[i]) is Some);
        assert(small.contains_key(reqs[i].name));
    }
    if book.craft_spec(name, inventory) {
        crate::stock::lemma_take_all_monotonic(big, small, reqs);
    }
}

/// A successful craft leaves every material of the stock in place, with
/// what was there minus what the recipe asks of it, which is never below
/// zero.
pub proof fn law_craft_quantity_floor(book: RecipeBook, name: Seq<char>, inventory: Seq<Ingredient>)
    requires
        book.craft_spec(name, inventory),
    ensures
        ({
            let reqs = book.recipe_map()[name].ingredients;
            let left = take_all(stock_of(inventory), reqs)->0;
            &&& left.dom() == stock_of(inventory).dom()
            &&& forall|n: Seq<char>|
                #[trigger] left.contains_key(n) ==> left[n].0 as int == stock_of(inventory)[n].0 as int
                    - demand(reqs, n) && stock_of(inventory)[n].0 as int - demand(reqs, n) >= 0
        }),
{
    crate::stock::lemma_take_all_floor(stock_of(inventory), book.recipe_map()[name].ingredients);
}

} // verus!
