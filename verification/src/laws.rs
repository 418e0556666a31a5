//! Laws of the storage model.
//!
//! Each proof function here states, over the name-level view and the spec
//! transformers that every backend's contracts use, a property the store
//! guarantees for all inputs; Verus checks each one.

use vstd::prelude::*;

use crate::document::{doc_has_item, DocumentStore};
use crate::relational::{
    has_name, lemma_marked_names_subset, lemma_name_set_contains, RelationalStore,
};
use crate::migrate::spec_migrate;
use crate::store::Store;
use crate::view::{
    spec_add_checklist_item, spec_add_item, spec_add_list_item, spec_add_recipe,
    spec_delete_recipe, spec_refresh_list, StoreView,
};

verus! {

/// A well-formed relational store has a view with referential integrity:
/// every junction entry and every mark refers to known entities.
pub proof fn lemma_relational_view_wf(s: RelationalStore)
    requires
        s.wf(),
    ensures
        s@.wf(),
{
    assert forall|p: (Seq<char>, Seq<char>)| #[trigger] s@.item_recipes.contains(p) implies s@
        .items.contains(p.0) && s@.recipes.contains(p.1) by {
        let js = s.items_recipes@;
        let k = choose|k: int|
            0 <= k < js.len() && crate::relational::has_id(s.items@, (#[trigger] js[k]).0)
                && crate::relational::has_id(s.recipes@, js[k].1) && crate::relational::name_of(
                s.items@,
                js[k].0,
            ) == p.0 && crate::relational::name_of(s.recipes@, js[k].1) == p.1;
        let i = choose|i: int| 0 <= i < s.items@.len() && s.items@[i].id == js[k].0;
        assert(s.items@[i].name@ == p.0);
        assert(has_name(s.items@, p.0));
        let j = choose|j: int| 0 <= j < s.recipes@.len() && s.recipes@[j].id == js[k].1;
        assert(s.recipes@[j].name@ == p.1);
        assert(has_name(s.recipes@, p.1));
    }
    assert forall|p: (Seq<char>, Seq<char>)| #[trigger] s@.item_sections.contains(p) implies s@
        .items.contains(p.0) && s@.sections.contains(p.1) by {
        let js = s.items_sections@;
        let k = choose|k: int|
            0 <= k < js.len() && crate::relational::has_id(s.items@, (#[trigger] js[k]).0)
                && crate::relational::has_id(s.sections@, js[k].1) && crate::relational::name_of(
                s.items@,
                js[k].0,
            ) == p.0 && crate::relational::name_of(s.sections@, js[k].1) == p.1;
        let i = choose|i: int| 0 <= i < s.items@.len() && s.items@[i].id == js[k].0;
        assert(s.items@[i].name@ == p.0);
        assert(has_name(s.items@, p.0));
        let j = choose|j: int| 0 <= j < s.sections@.len() && s.sections@[j].id == js[k].1;
        assert(s.sections@[j].name@ == p.1);
        assert(has_name(s.sections@, p.1));
    }
    lemma_marked_names_subset(s.items@, s.list@);
    lemma_marked_names_subset(s.items@, s.checklist@);
    lemma_marked_names_subset(s.recipes@, s.list_recipes@);
}

/// A well-formed document store has a view with referential integrity.
pub proof fn lemma_document_view_wf(d: DocumentStore)
    requires
        d.wf(),
    ensures
        d@.wf(),
{
    let c = d.collection@;
    assert forall|p: (Seq<char>, Seq<char>)| #[trigger] d@.item_recipes.contains(p) implies d@
        .items.contains(p.0) && d@.recipes.contains(p.1) by {
        let i = choose|i: int|
            0 <= i < c.len() && (#[trigger] c[i]).name@ == p.0 && crate::view::name_set(
                c[i].recipes@,
            ).contains(p.1);
        assert(doc_has_item(c, p.0));
        assert(crate::view::name_set(c[i].recipes@).subset_of(
            crate::view::name_set(d.recipes@),
        ));
    }
    assert forall|p: (Seq<char>, Seq<char>)| #[trigger] d@.item_sections.contains(p) implies d@
        .items.contains(p.0) && d@.sections.contains(p.1) by {
        let i = choose|i: int|
            0 <= i < c.len() && (#[trigger] c[i]).name@ == p.0 && (c[i].section matches Some(s)
                && s@ == p.1);
        assert(doc_has_item(c, p.0));
    }
    assert forall|x: Seq<char>| #[trigger] d@.list_items.contains(x) implies d@.items.contains(
        x,
    ) by {
        lemma_name_set_contains(d.list_items@, x);
        let t = choose|t: int| 0 <= t < d.list_items@.len() && d.list_items@[t]@ == x;
        assert(doc_has_item(c, x));
    }
    assert forall|x: Seq<char>| #[trigger] d@.list_recipes.contains(x) implies d@.recipes.contains(
        x,
    ) by {
        lemma_name_set_contains(d.list_recipes@, x);
        let t = choose|t: int| 0 <= t < d.list_recipes@.len() && d.list_recipes@[t]@ == x;
    }
    assert forall|x: Seq<char>| #[trigger] d@.checklist.contains(x) implies d@.items.contains(
        x,
    ) by {
        lemma_name_set_contains(d.checklist@, x);
        let t = choose|t: int| 0 <= t < d.checklist@.len() && d.checklist@[t]@ == x;
        assert(doc_has_item(c, x));
    }
}

/// A well-formed store of either backend has a view with referential
/// integrity.
pub proof fn lemma_store_view_wf(s: Store)
    requires
        s.wf(),
    ensures
        s@.wf(),
{
    match s {
        Store::Document(d) => lemma_document_view_wf(d),
        Store::Relational(r) => lemma_relational_view_wf(r),
    }
}

/// Adding an item is idempotent: adding the same name twice leaves exactly
/// the state that adding it once leaves.
pub proof fn lemma_add_item_idempotent(v: StoreView, n: Seq<char>)
    ensures
        spec_add_item(spec_add_item(v, n), n) == spec_add_item(v, n),
{
    assert(spec_add_item(v, n).items.insert(n) =~= v.items.insert(n));
    assert(spec_add_item(spec_add_item(v, n), n) =~= spec_add_item(v, n));
}

/// Upserts are order-independent: adding an item that a recipe already
/// recorded as an ingredient changes nothing, and in particular the recipe's
/// ingredient set is exactly what the recipe added.
pub proof fn lemma_upsert_order_independent(
    v: StoreView,
    recipe: Seq<char>,
    ingredients: Set<Seq<char>>,
    n: Seq<char>,
)
    requires
        ingredients.contains(n),
    ensures
        spec_add_item(spec_add_recipe(v, recipe, ingredients), n) == spec_add_recipe(
            v,
            recipe,
            ingredients,
        ),
        spec_add_recipe(v, recipe, ingredients).ingredients_of(recipe) == v.ingredients_of(
            recipe,
        ).union(ingredients),
{
    let v1 = spec_add_recipe(v, recipe, ingredients);
    assert(v1.items.insert(n) =~= v1.items);
    assert(spec_add_item(v1, n) =~= v1);
    assert forall|x: Seq<char>|
        v1.ingredients_of(recipe).contains(x) == v.ingredients_of(recipe).union(
            ingredients,
        ).contains(x) by {}
    assert(v1.ingredients_of(recipe) =~= v.ingredients_of(recipe).union(ingredients));
}

/// Adding items commutes: the catalog does not depend on insertion order.
pub proof fn lemma_add_item_commutes(v: StoreView, a: Seq<char>, b: Seq<char>)
    ensures
        spec_add_item(spec_add_item(v, a), b) == spec_add_item(spec_add_item(v, b), a),
{
    assert(v.items.insert(a).insert(b) =~= v.items.insert(b).insert(a));
    assert(spec_add_item(spec_add_item(v, a), b) =~= spec_add_item(spec_add_item(v, b), a));
}

/// A recipe the store does not know has no recorded ingredients, so a
/// list-recipe request for it is refused and, by the operation's contract,
/// leaves the store unchanged.
pub proof fn lemma_unknown_recipe_has_no_ingredients(v: StoreView, recipe: Seq<char>)
    requires
        v.wf(),
        !v.recipes.contains(recipe),
    ensures
        v.ingredients_of(recipe) == Set::<Seq<char>>::empty(),
{
    assert forall|x: Seq<char>| !v.ingredients_of(recipe).contains(x) by {
        if v.item_recipes.contains((x, recipe)) {
            assert(v.recipes.contains(recipe));
        }
    }
    assert(v.ingredients_of(recipe) =~= Set::<Seq<char>>::empty());
}

/// Refreshing clears the list only: an item that was put on the list and on
/// the checklist disappears from the list but stays on the checklist and in
/// the catalog.
pub proof fn lemma_refresh_clears_list_only(v: StoreView, n: Seq<char>)
    ensures
        ({
            let v1 = spec_refresh_list(spec_add_checklist_item(spec_add_list_item(v, n), n));
            &&& !v1.list_items.contains(n)
            &&& v1.checklist.contains(n)
            &&& v1.items.contains(n)
        }),
{
}

/// Deleting a recipe cascades to its junction entries: afterwards the recipe
/// is unknown, no junction entry references it, its ingredient set is empty,
/// and every former ingredient is still a valid catalog item.
pub proof fn lemma_delete_recipe_cascades(
    v: StoreView,
    recipe: Seq<char>,
    ingredients: Set<Seq<char>>,
)
    ensures
        ({
            let v1 = spec_delete_recipe(spec_add_recipe(v, recipe, ingredients), recipe);
            &&& !v1.recipes.contains(recipe)
            &&& forall|p: (Seq<char>, Seq<char>)|
                #[trigger] v1.item_recipes.contains(p) ==> p.1 != recipe
            &&& v1.ingredients_of(recipe) == Set::<Seq<char>>::empty()
            &&& ingredients.subset_of(v1.items)
        }),
{
    let v1 = spec_delete_recipe(spec_add_recipe(v, recipe, ingredients), recipe);
    assert forall|x: Seq<char>| !v1.ingredients_of(recipe).contains(x) by {}
    assert(v1.ingredients_of(recipe) =~= Set::<Seq<char>>::empty());
}

/// The migration is idempotent: running it twice against the same document
/// and the same target leaves exactly the state one run leaves.
pub proof fn lemma_migrate_idempotent(v: StoreView, d: StoreView)
    ensures
        spec_migrate(spec_migrate(v, d), d) == spec_migrate(v, d),
{
    let v1 = spec_migrate(v, d);
    assert(v1.items.union(d.items) =~= v1.items);
    assert(v1.recipes.union(crate::migrate::migrated_recipes(d)) =~= v1.recipes);
    assert(v1.sections.union(crate::migrate::migrated_sections(d)) =~= v1.sections);
    assert(v1.item_recipes.union(d.item_recipes) =~= v1.item_recipes);
    assert(v1.item_sections.union(d.item_sections) =~= v1.item_sections);
    assert(spec_migrate(v1, d) =~= v1);
}

/// Round trip: an added item is in the catalog that a full read returns, and
/// everything already in the catalog stays there, whatever the insertion
/// order was.
pub proof fn lemma_item_round_trip(v: StoreView, n: Seq<char>)
    ensures
        spec_add_item(v, n).items.contains(n),
        forall|m: Seq<char>| v.items.contains(m) ==> #[trigger] spec_add_item(
            v,
            n,
        ).items.contains(m),
{
}

} // verus!
