//! Drawing a recipe's requirements from a list of held ingredients, and the
//! laws that govern it.
use vstd::prelude::*;

use crate::assoc::{
    first_with_key, key_absent, lemma_assoc_absent, lemma_assoc_first, lemma_assoc_update,
};
use crate::recipe::{
    demand, ingredients_view, meets_each, stock_of, stock_pairs, supplies, take_all, take_one, Ingredient,
    IngredientView, Stock,
};

verus! {

/// The position of the first ingredient of `stock` named `name`, if any.
pub fn find_ingredient(stock: &Vec<Ingredient>, name: &String) -> (r: Option<usize>)
    ensures
        match r {
            Some(j) => first_with_key(stock_pairs(stock@), j as int) && stock@[j as int].name@
                == name@,
            None => key_absent(stock_pairs(stock@), name@),
        },
{
    let mut j: usize = 0;
    while j < stock.len()
        invariant
            j <= stock.len(),
            forall|k: int| 0 <= k < j ==> #[trigger] stock@[k].name@ != name@,
        decreases stock.len() - j,
    {
        if stock[j].name == *name {
            proof {
                assert forall|k: int| 0 <= k < j implies #[trigger] stock_pairs(stock@)[k].0
                    != stock_pairs(stock@)[j as int].0 by {
                    assert(stock_pairs(stock@)[k].0 == stock@[k].name@);
                }
            }
            return Some(j);
        }
        j = j + 1;
    }
    proof {
        assert forall|k: int| 0 <= k < stock_pairs(stock@).len() implies #[trigger] stock_pairs(
            stock@,
        )[k].0 != name@ by {
            assert(stock_pairs(stock@)[k].0 == stock@[k].name@);
        }
    }
    None
}

/// Whether requirement `req` alone can be drawn from `stock`.
pub fn meets_requirement(stock: &Vec<Ingredient>, req: &Ingredient) -> (r: bool)
    ensures
        r == take_one(stock_of(stock@), req@) is Some,
{
    match find_ingredient(stock, &req.name) {
        None => {
            proof {
                lemma_assoc_absent(stock_pairs(stock@), req.name@);
            }
            false
        },
        Some(j) => {
            proof {
                lemma_assoc_first(stock_pairs(stock@), j as int);
            }
            stock[j].recipe_craftable && stock[j].quantity >= req.quantity
        },
    }
}

/// Whether each requirement of `reqs`, taken on its own, can be drawn from
/// `stock`.
pub fn meets_all(stock: &Vec<Ingredient>, reqs: &Vec<Ingredient>) -> (r: bool)
    ensures
        r == meets_each(stock_of(stock@), ingredients_view(reqs@)),
{
    let ghost rv = ingredients_view(reqs@);
    let mut i: usize = 0;
    while i < reqs.len()
        invariant
            i <= reqs.len(),
            rv == ingredients_view(reqs@),
            forall|k: int| 0 <= k < i ==> #[trigger] take_one(stock_of(stock@), rv[k]) is Some,
        decreases reqs.len() - i,
    {
        if !meets_requirement(stock, &reqs[i]) {
            assert(take_one(stock_of(stock@), rv[i as int]) is None);
            return false;
        }
        i = i + 1;
    }
    true
}

/// Requirements that can be drawn together can each be drawn on their own.
pub proof fn lemma_take_all_meets_each(m: Stock, reqs: Seq<IngredientView>)
    requires
        take_all(m, reqs) is Some,
    ensures
        meets_each(m, reqs),
    decreases reqs.len(),
{
    if reqs.len() > 0 {
        let m2 = take_one(m, reqs[0])->0;
        lemma_take_all_meets_each(m2, reqs.drop_first());
        assert forall|i: int| 0 <= i < reqs.len() implies #[trigger] take_one(m, reqs[i]) is Some by {
            if i > 0 {
                assert(reqs.drop_first()[i - 1] == reqs[i]);
                assert(take_one(m2, reqs[i]) is Some);
            }
        }
    }
}

/// Draws one requirement from `stock` in place. On failure `stock` is left
/// as it was.
fn consume_one(stock: &mut Vec<Ingredient>, req: &Ingredient) -> (ok: bool)
    ensures
        ok == take_one(stock_of(old(stock)@), req@) is Some,
        ok ==> stock_of(final(stock)@) == take_one(stock_of(old(stock)@), req@)->0,
        !ok ==> final(stock)@ == old(stock)@,
        final(stock)@.len() == old(stock)@.len(),
        forall|k: int| 0 <= k < old(stock)@.len() ==> #[trigger] final(stock)@[k].name == old(stock)@[k].name,
{
    let found = find_ingredient(stock, &req.name);
    match found {
        None => {
            proof {
                lemma_assoc_absent(stock_pairs(stock@), req.name@);
            }
            false
        },
        Some(j) => {
            proof {
                lemma_assoc_first(stock_pairs(stock@), j as int);
            }
            if stock[j].recipe_craftable && stock[j].quantity >= req.quantity {
                let ghost pre = stock@;
                let q = stock[j].quantity - req.quantity;
                stock[j].quantity = q;
                proof {
                    let np = stock_pairs(pre);
                    lemma_assoc_update(np, j as int, (q, pre[j as int].recipe_craftable));
                    assert(stock_pairs(stock@) =~= np.update(j as int, (np[j as int].0, (q, pre[j as int].recipe_craftable))));
                }
                true
            } else {
                false
            }
        },
    }
}

/// Draws every requirement of `reqs` in turn from `stock`. Returns whether
/// all of them could be met; only then is `stock` changed.
pub fn consume_all(stock: &mut Vec<Ingredient>, reqs: &Vec<Ingredient>) -> (ok: bool)
    ensures
        ok == take_all(stock_of(old(stock)@), ingredients_view(reqs@)) is Some,
        ok ==> stock_of(final(stock)@) == take_all(stock_of(old(stock)@), ingredients_view(reqs@))->0,
        !ok ==> *final(stock) == *old(stock),
        final(stock)@.len() == old(stock)@.len(),
        forall|k: int| 0 <= k < old(stock)@.len() ==> #[trigger] final(stock)@[k].name == old(stock)@[k].name,
{
    let ghost orig = stock@;
    let mut work = crate::recipe::copy_ingredients(stock);
    let ghost rv = ingredients_view(reqs@);
    let mut i: usize = 0;
    assert(rv.skip(0) =~= rv);
    while i < reqs.len()
        invariant
            i <= reqs.len(),
            rv == ingredients_view(reqs@),
            *stock == *old(stock),
            orig == old(stock)@,
            take_all(stock_of(orig), rv) == take_all(stock_of(work@), rv.skip(i as int)),
            work@.len() == orig.len(),
            forall|k: int| 0 <= k < orig.len() ==> #[trigger] work@[k].name == orig[k].name,
        decreases reqs.len() - i,
    {
        proof {
            assert(rv.skip(i as int).drop_first() =~= rv.skip(i as int + 1));
            assert(rv.skip(i as int)[0] == reqs@[i as int]@);
        }
        let ok = consume_one(&mut work, &reqs[i]);
        if !ok {
            return false;
        }
        i = i + 1;
    }
    assert(rv.skip(i as int) =~= Seq::<IngredientView>::empty());
    *stock = work;
    true
}

/// Meeting a list of requirements is monotonic in supply: a stock that
/// supplies at least what another does meets every list that the other
/// meets, and what is left of it still supplies what is left of the other.
pub proof fn lemma_take_all_monotonic(big: Stock, small: Stock, reqs: Seq<IngredientView>)
    requires
        supplies(big, small),
        take_all(small, reqs) is Some,
    ensures
        take_all(big, reqs) is Some,
        supplies(take_all(big, reqs)->0, take_all(small, reqs)->0),
    decreases reqs.len(),
{
    if reqs.len() > 0 {
        let r = reqs[0];
        let s2 = take_one(small, r)->0;
        let b2 = take_one(big, r)->0;
        assert(small.contains_key(r.name));
        assert(take_one(big, r) is Some);
        assert forall|n: Seq<char>| #[trigger] s2.contains_key(n) implies {
            &&& b2.contains_key(n)
            &&& b2[n].0 >= s2[n].0
            &&& (s2[n].1 ==> b2[n].1)
        } by {
            assert(small.contains_key(n));
        }
        lemma_take_all_monotonic(b2, s2, reqs.drop_first());
    }
}

/// Drawing requirements never drives a quantity below zero: what is left of
/// each material is what was there minus the total that the requirements
/// ask of it, and that difference is never negative. No material appears or
/// disappears.
pub proof fn lemma_take_all_floor(m: Stock, reqs: Seq<IngredientView>)
    requires
        take_all(m, reqs) is Some,
    ensures
        take_all(m, reqs)->0.dom() == m.dom(),
        forall|n: Seq<char>| #[trigger] m.contains_key(n) ==> {
            &&& take_all(m, reqs)->0[n].0 as int == m[n].0 as int - demand(reqs, n)
            &&& m[n].0 as int - demand(reqs, n) >= 0
            &&& take_all(m, reqs)->0[n].1 == m[n].1
        },
    decreases reqs.len(),
{
    if reqs.len() > 0 {
        let r = reqs[0];
        let m2 = take_one(m, r)->0;
        lemma_take_all_floor(m2, reqs.drop_first());
        assert(m2.dom() =~= m.dom());
        assert forall|n: Seq<char>| #[trigger] m.contains_key(n) implies {
            &&& take_all(m, reqs)->0[n].0 as int == m[n].0 as int - demand(reqs, n)
            &&& m[n].0 as int - demand(reqs, n) >= 0
            &&& take_all(m, reqs)->0[n].1 == m[n].1
        } by {
            assert(m2.contains_key(n));
        }
    }
}

} // verus!
