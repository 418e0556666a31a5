//! The name-level model of a store.
//!
//! Both backends are specified against the same abstract view: sets of item,
//! recipe and section names, the two membership sets of the working list and
//! the checklist, and the two junction relations, all keyed by name.  Each
//! mutating operation of the storage contract has a spec-level transformer
//! here, and every backend promises that its concrete effect equals the
//! transformer applied to its old view.

use vstd::prelude::*;

verus! {

/// Abstract state of a store: every collection reduced to the names it holds.
#[verifier::ext_equal]
pub struct StoreView {
    /// Names of the items in the catalog.
    pub items: Set<Seq<char>>,
    /// Names of the known recipes.
    pub recipes: Set<Seq<char>>,
    /// Names of the known grocery-store sections.
    pub sections: Set<Seq<char>>,
    /// Names of the items currently on the shopping list.
    pub list_items: Set<Seq<char>>,
    /// Names of the recipes currently on the shopping list.
    pub list_recipes: Set<Seq<char>>,
    /// Names of the items currently on the checklist.
    pub checklist: Set<Seq<char>>,
    /// The item-recipe junction: `(item, recipe)` states that `item` is an
    /// ingredient of `recipe`.
    pub item_recipes: Set<(Seq<char>, Seq<char>)>,
    /// The item-section junction: `(item, section)` states that `item`
    /// belongs to `section`.
    pub item_sections: Set<(Seq<char>, Seq<char>)>,
}

impl StoreView {
    /// Referential integrity at the name level: junction entries and list,
    /// list-recipe and checklist marks refer only to known entities.
    pub open spec fn wf(self) -> bool {
        &&& forall|p: (Seq<char>, Seq<char>)| #[trigger] self.item_recipes.contains(p)
            ==> self.items.contains(p.0) && self.recipes.contains(p.1)
        &&& forall|p: (Seq<char>, Seq<char>)| #[trigger] self.item_sections.contains(p)
            ==> self.items.contains(p.0) && self.sections.contains(p.1)
        &&& self.list_items.subset_of(self.items)
        &&& self.list_recipes.subset_of(self.recipes)
        &&& self.checklist.subset_of(self.items)
    }

    /// The recorded ingredient set of a recipe.
    pub open spec fn ingredients_of(self, recipe: Seq<char>) -> Set<Seq<char>> {
        Set::new(|item: Seq<char>| self.item_recipes.contains((item, recipe)))
    }
}

/// The junction entries linking every name of `ingredients` to `recipe`.
pub open spec fn pairs_with(ingredients: Set<Seq<char>>, recipe: Seq<char>) -> Set<
    (Seq<char>, Seq<char>),
> {
    Set::new(|p: (Seq<char>, Seq<char>)| ingredients.contains(p.0) && p.1 == recipe)
}

/// Effect of `add_item`: upsert the item into the catalog.
pub open spec fn spec_add_item(v: StoreView, name: Seq<char>) -> StoreView {
    StoreView { items: v.items.insert(name), ..v }
}

/// Effect of `add_checklist_item`: upsert the item, then mark it on the
/// checklist.
pub open spec fn spec_add_checklist_item(v: StoreView, name: Seq<char>) -> StoreView {
    StoreView { items: v.items.insert(name), checklist: v.checklist.insert(name), ..v }
}

/// Effect of `add_list_item`: upsert the item, then mark it on the list.
pub open spec fn spec_add_list_item(v: StoreView, name: Seq<char>) -> StoreView {
    StoreView { items: v.items.insert(name), list_items: v.list_items.insert(name), ..v }
}

/// Effect of `add_recipe`: upsert the recipe, upsert every ingredient, and
/// link each ingredient to the recipe.
pub open spec fn spec_add_recipe(
    v: StoreView,
    recipe: Seq<char>,
    ingredients: Set<Seq<char>>,
) -> StoreView {
    StoreView {
        items: v.items.union(ingredients),
        recipes: v.recipes.insert(recipe),
        item_recipes: v.item_recipes.union(pairs_with(ingredients, recipe)),
        ..v
    }
}

/// Effect of `add_list_recipe`: mark the recipe on the list and put every
/// recorded ingredient on the list.
pub open spec fn spec_add_list_recipe(v: StoreView, recipe: Seq<char>) -> StoreView {
    StoreView {
        list_recipes: v.list_recipes.insert(recipe),
        list_items: v.list_items.union(v.ingredients_of(recipe)),
        ..v
    }
}

/// Effect of `delete_checklist_item`: unmark the item; the catalog entry
/// remains.
pub open spec fn spec_delete_checklist_item(v: StoreView, name: Seq<char>) -> StoreView {
    StoreView { checklist: v.checklist.remove(name), ..v }
}

/// Effect of `delete_recipe`: remove the recipe, all its junction entries,
/// and its list mark; its ingredients remain valid items.
pub open spec fn spec_delete_recipe(v: StoreView, recipe: Seq<char>) -> StoreView {
    StoreView {
        recipes: v.recipes.remove(recipe),
        list_recipes: v.list_recipes.remove(recipe),
        item_recipes: Set::new(
            |p: (Seq<char>, Seq<char>)| v.item_recipes.contains(p) && p.1 != recipe,
        ),
        ..v
    }
}

/// Effect of `refresh_list`: clear all list-item and list-recipe marks; the
/// catalog and the checklist are untouched.
pub open spec fn spec_refresh_list(v: StoreView) -> StoreView {
    StoreView {
        list_items: Set::<Seq<char>>::empty(),
        list_recipes: Set::<Seq<char>>::empty(),
        ..v
    }
}

/// The names of a sequence of strings, as a sequence.
pub open spec fn name_seq(names: Seq<String>) -> Seq<Seq<char>> {
    names.map_values(|s: String| s@)
}

/// The names of a sequence of strings, as a set.
pub open spec fn name_set(names: Seq<String>) -> Set<Seq<char>> {
    name_seq(names).to_set()
}

/// A sequence of strings with no repeated name.
pub open spec fn names_distinct(names: Seq<String>) -> bool {
    forall|i: int, j: int| 0 <= i < j < names.len() ==> names[i]@ != names[j]@
}

} // verus!

verus! {

/// The view of a store that holds nothing.
pub open spec fn empty_view() -> StoreView {
    StoreView {
        items: Set::empty(),
        recipes: Set::empty(),
        sections: Set::empty(),
        list_items: Set::empty(),
        list_recipes: Set::empty(),
        checklist: Set::empty(),
        item_recipes: Set::empty(),
        item_sections: Set::empty(),
    }
}

} // verus!
