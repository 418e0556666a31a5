//! Errors of the storage layer, and the dispatch over the two backends.

use vstd::prelude::*;

verus! {

/// The failures a store operation can report.
///
/// "Insert, ignore duplicate" is handled internally by every upsert and never
/// surfaces as an error.
#[derive(Clone, Copy, Debug, PartialEq, Eq, Structural)]
pub enum StoreError {
    /// A list-recipe was requested for a recipe with no recorded ingredients.
    RecipeIngredientsNotFound,
    /// The store ran out of row identifiers; this is the in-memory analogue
    /// of a resource-exhaustion failure of the underlying store.
    CapacityExhausted,
    /// A name lookup that must be unique did not return exactly one row.
    MigrationAssertionFailure,
}

} // verus!

verus! {

/// A full read of the shopping list: the items on the list, the recipes on
/// the list, and the checklist.
pub struct List {
    /// Names of the items on the list.
    pub items: Vec<String>,
    /// Names of the recipes on the list.
    pub recipes: Vec<String>,
    /// Names of the items on the checklist.
    pub checklist: Vec<String>,
}

} // verus!

verus! {

/// Which backend a store should use.
#[derive(Clone, Copy, Debug, PartialEq, Eq, Structural)]
pub enum StoreType {
    /// The document-oriented backend.
    Document,
    /// The relational backend.
    Relational,
}

/// The storage capability: the same operations over either backend,
/// selected once at construction.
pub enum Store {
    /// A document-oriented store.
    Document(crate::document::DocumentStore),
    /// A relational store.
    Relational(crate::relational::RelationalStore),
}

impl View for Store {
    type V = crate::view::StoreView;

    open spec fn view(&self) -> crate::view::StoreView {
        match self {
            Store::Document(d) => d@,
            Store::Relational(s) => s@,
        }
    }
}

impl Store {
    /// The invariant of whichever backend this store carries.
    pub open spec fn wf(self) -> bool {
        match self {
            Store::Document(d) => d.wf(),
            Store::Relational(s) => s.wf(),
        }
    }

    /// Whether upserting one entity of this name can succeed: always, except
    /// in a relational store whose id space is exhausted and which does not
    /// know the name yet.
    pub open spec fn can_upsert_item(self, name: Seq<char>) -> bool {
        match self {
            Store::Document(_) => true,
            Store::Relational(s) => s.next_id < u32::MAX || s@.items.contains(name),
        }
    }

    /// Whether adding a recipe with this many ingredients can succeed.
    pub open spec fn can_add_recipe(self, n_ingredients: int) -> bool {
        match self {
            Store::Document(_) => true,
            Store::Relational(s) => s.next_id as int + n_ingredients + 1 <= u32::MAX as int,
        }
    }

    /// An empty store over the chosen backend.
    pub fn new(store_type: StoreType) -> (s: Store)
        ensures
            s.wf(),
            s@ == crate::view::empty_view(),
            store_type == StoreType::Document ==> s is Document,
            store_type == StoreType::Relational ==> (s matches Store::Relational(r)
                && r.next_id == 0),
    {
        match store_type {
            StoreType::Document => Store::Document(crate::document::DocumentStore::new()),
            StoreType::Relational => Store::Relational(crate::relational::RelationalStore::new()),
        }
    }

    /// Upsert an item into the catalog.
    pub fn add_item(&mut self, item: &str) -> (r: Result<(), StoreError>)
        requires
            old(self).wf(),
        ensures
            final(self).wf(),
            r is Err <==> !old(self).can_upsert_item(item@),
            r is Ok ==> final(self)@ == crate::view::spec_add_item(old(self)@, item@),
            r is Err ==> *final(self) == *old(self) && r == Err::<(), StoreError>(
                StoreError::CapacityExhausted,
            ),
    {
        match self {
            Store::Document(d) => d.add_item(item),
            Store::Relational(s) => s.add_item(item),
        }
    }

    /// Upsert an item, then mark it on the checklist.
    pub fn add_checklist_item(&mut self, item: &str) -> (r: Result<(), StoreError>)
        requires
            old(self).wf(),
        ensures
            final(self).wf(),
            r is Err <==> !old(self).can_upsert_item(item@),
            r is Ok ==> final(self)@ == crate::view::spec_add_checklist_item(old(self)@, item@),
            r is Err ==> *final(self) == *old(self) && r == Err::<(), StoreError>(
                StoreError::CapacityExhausted,
            ),
    {
        match self {
            Store::Document(d) => d.add_checklist_item(item),
            Store::Relational(s) => s.add_checklist_item(item),
        }
    }

    /// Upsert an item, then mark it on the shopping list.
    pub fn add_list_item(&mut self, item: &str) -> (r: Result<(), StoreError>)
        requires
            old(self).wf(),
        ensures
            final(self).wf(),
            r is Err <==> !old(self).can_upsert_item(item@),
            r is Ok ==> final(self)@ == crate::view::spec_add_list_item(old(self)@, item@),
            r is Err ==> *final(self) == *old(self) && r == Err::<(), StoreError>(
                StoreError::CapacityExhausted,
            ),
    {
        match self {
            Store::Document(d) => d.add_list_item(item),
            Store::Relational(s) => s.add_list_item(item),
        }
    }

    /// Upsert a recipe, upsert every ingredient, and link each ingredient to
    /// the recipe.
    pub fn add_recipe(&mut self, recipe: &str, ingredients: &Vec<String>) -> (r: Result<
        (),
        StoreError,
    >)
        requires
            old(self).wf(),
        ensures
            final(self).wf(),
            r is Err <==> !old(self).can_add_recipe(ingredients@.len() as int),
            r is Ok ==> final(self)@ == crate::view::spec_add_recipe(
                old(self)@,
                recipe@,
                crate::view::name_set(ingredients@),
            ),
            r is Err ==> *final(self) == *old(self) && r == Err::<(), StoreError>(
                StoreError::CapacityExhausted,
            ),
    {
        match self {
            Store::Document(d) => d.add_recipe(recipe, ingredients),
            Store::Relational(s) => s.add_recipe(recipe, ingredients),
        }
    }

    /// Mark a recipe on the shopping list, with each of its recorded
    /// ingredients; fails when the recipe has no recorded ingredients.
    pub fn add_list_recipe(&mut self, recipe: &str) -> (r: Result<(), StoreError>)
        requires
            old(self).wf(),
        ensures
            final(self).wf(),
            r is Err <==> old(self)@.ingredients_of(recipe@) == Set::<Seq<char>>::empty(),
            r is Ok ==> final(self)@ == crate::view::spec_add_list_recipe(old(self)@, recipe@),
            r is Err ==> *final(self) == *old(self) && r == Err::<(), StoreError>(
                StoreError::RecipeIngredientsNotFound,
            ),
    {
        match self {
            Store::Document(d) => d.add_list_recipe(recipe),
            Store::Relational(s) => s.add_list_recipe(recipe),
        }
    }

    /// The recorded ingredient set of a recipe, or `None` for an unknown
    /// recipe name.
    pub fn recipe_ingredients(&self, recipe: &str) -> (r: Result<Option<Vec<String>>, StoreError>)
        requires
            self.wf(),
        ensures
            r is Ok,
            r matches Ok(Some(names)) ==> self@.recipes.contains(recipe@)
                && crate::view::name_set(names@) == self@.ingredients_of(recipe@)
                && crate::view::names_distinct(names@),
            r matches Ok(None) ==> !self@.recipes.contains(recipe@),
    {
        match self {
            Store::Document(d) => d.recipe_ingredients(recipe),
            Store::Relational(s) => s.recipe_ingredients(recipe),
        }
    }

    /// Unmark an item from the checklist; the catalog entry remains.
    pub fn delete_checklist_item(&mut self, item: &str) -> (r: Result<(), StoreError>)
        requires
            old(self).wf(),
        ensures
            final(self).wf(),
            r is Ok,
            final(self)@ == crate::view::spec_delete_checklist_item(old(self)@, item@),
    {
        match self {
            Store::Document(d) => d.delete_checklist_item(item),
            Store::Relational(s) => s.delete_checklist_item(item),
        }
    }

    /// Remove a recipe and every junction entry that references it; its
    /// ingredients remain valid items.
    pub fn delete_recipe(&mut self, recipe: &str) -> (r: Result<(), StoreError>)
        requires
            old(self).wf(),
        ensures
            final(self).wf(),
            r is Ok,
            final(self)@ == crate::view::spec_delete_recipe(old(self)@, recipe@),
    {
        match self {
            Store::Document(d) => d.delete_recipe(recipe),
            Store::Relational(s) => s.delete_recipe(recipe),
        }
    }

    /// Clear all list-item and list-recipe marks; the catalog and the
    /// checklist are untouched.
    pub fn refresh_list(&mut self) -> (r: Result<(), StoreError>)
        requires
            old(self).wf(),
        ensures
            final(self).wf(),
            r is Ok,
            final(self)@ == crate::view::spec_refresh_list(old(self)@),
    {
        match self {
            Store::Document(d) => d.refresh_list(),
            Store::Relational(s) => s.refresh_list(),
        }
    }

    /// Full read of the item catalog.
    pub fn items(&self) -> (r: Result<Vec<String>, StoreError>)
        requires
            self.wf(),
        ensures
            r is Ok,
            r matches Ok(names) ==> crate::view::name_set(names@) == self@.items
                && crate::view::names_distinct(names@),
    {
        match self {
            Store::Document(d) => d.items(),
            Store::Relational(s) => s.items(),
        }
    }

    /// Full read of the recipe catalog.
    pub fn recipes(&self) -> (r: Result<Vec<String>, StoreError>)
        requires
            self.wf(),
        ensures
            r is Ok,
            r matches Ok(names) ==> crate::view::name_set(names@) == self@.recipes
                && crate::view::names_distinct(names@),
    {
        match self {
            Store::Document(d) => d.recipes(),
            Store::Relational(s) => s.recipes(),
        }
    }

    /// Full read of the section catalog.
    pub fn sections(&self) -> (r: Result<Vec<String>, StoreError>)
        requires
            self.wf(),
        ensures
            r is Ok,
            r matches Ok(names) ==> crate::view::name_set(names@) == self@.sections
                && crate::view::names_distinct(names@),
    {
        match self {
            Store::Document(d) => d.sections(),
            Store::Relational(s) => s.sections(),
        }
    }

    /// Full read of the checklist.
    pub fn checklist(&self) -> (r: Result<Vec<String>, StoreError>)
        requires
            self.wf(),
        ensures
            r is Ok,
            r matches Ok(names) ==> crate::view::name_set(names@) == self@.checklist
                && crate::view::names_distinct(names@),
    {
        match self {
            Store::Document(d) => d.checklist(),
            Store::Relational(s) => s.checklist(),
        }
    }

    /// Full read of the items on the shopping list.
    pub fn list_items(&self) -> (r: Result<Vec<String>, StoreError>)
        requires
            self.wf(),
        ensures
            r is Ok,
            r matches Ok(names) ==> crate::view::name_set(names@) == self@.list_items
                && crate::view::names_distinct(names@),
    {
        match self {
            Store::Document(d) => d.list_items(),
            Store::Relational(s) => s.list_items(),
        }
    }

    /// Full read of the recipes on the shopping list.
    pub fn list_recipes(&self) -> (r: Result<Vec<String>, StoreError>)
        requires
            self.wf(),
        ensures
            r is Ok,
            r matches Ok(names) ==> crate::view::name_set(names@) == self@.list_recipes
                && crate::view::names_distinct(names@),
    {
        match self {
            Store::Document(d) => d.list_recipes(),
            Store::Relational(s) => s.list_recipes(),
        }
    }

    /// Full read of the shopping list: its items, its recipes, and the
    /// checklist.
    pub fn list(&self) -> (r: Result<List, StoreError>)
        requires
            self.wf(),
        ensures
            r is Ok,
            r matches Ok(l) ==> crate::view::name_set(l.items@) == self@.list_items
                && crate::view::names_distinct(l.items@) && crate::view::name_set(l.recipes@)
                == self@.list_recipes && crate::view::names_distinct(l.recipes@)
                && crate::view::name_set(l.checklist@) == self@.checklist
                && crate::view::names_distinct(l.checklist@),
    {
        match self {
            Store::Document(d) => d.list(),
            Store::Relational(s) => s.list(),
        }
    }
}

} // verus!
