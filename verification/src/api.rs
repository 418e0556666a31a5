//! The command layer: one entry point that dispatches every operation of
//! the storage contract over a [`crate::store::Store`] and wraps its result
//! in a response value.  The formatting of responses for a terminal belongs
//! to the calling layer, not to this crate.

use vstd::prelude::*;

use crate::store::{List, Store, StoreError};
use crate::view::{
    name_set, names_distinct, spec_add_checklist_item, spec_add_item, spec_add_list_item,
    spec_add_list_recipe, spec_add_recipe, spec_delete_checklist_item, spec_delete_recipe,
    spec_refresh_list,
};

verus! {

/// The add commands.
pub enum Add {
    /// Upsert an item and mark it on the checklist.
    ChecklistItem(String),
    /// Upsert an item into the catalog.
    Item(String),
    /// Upsert an item and mark it on the shopping list.
    ListItem(String),
    /// Mark a recipe and its recorded ingredients on the shopping list.
    ListRecipe(String),
    /// Upsert a recipe with its ingredient names.
    Recipe(String, Vec<String>),
}

/// The read commands.
pub enum Read {
    /// Read the whole item catalog.
    All,
    /// Read the checklist.
    Checklist,
    /// Read the shopping list.
    List,
    /// Read one recipe's recorded ingredients.
    Recipe(String),
    /// Read the recipe catalog.
    Recipes,
    /// Read the section catalog.
    Sections,
}

/// The update commands.
pub enum Update {
    /// Clear the shopping list's item and recipe marks.
    RefreshList,
}

/// The delete commands.
pub enum Delete {
    /// Unmark an item from the checklist.
    ChecklistItem(String),
    /// Remove a recipe and its junction entries.
    Recipe(String),
}

/// A command against the store.
pub enum ApiCommand {
    Add(Add),
    Delete(Delete),
    Read(Read),
    Update(Update),
}

/// What a command returns.
pub enum ApiResponse {
    AddedItem(String),
    AddedListItem(String),
    AddedListRecipe(String),
    AddedRecipe(String),
    Checklist(Vec<String>),
    DeletedChecklistItem(String),
    DeletedRecipe(String),
    Items(Vec<String>),
    List(List),
    NothingReturned,
    RecipeIngredients(Vec<String>),
    Recipes(Vec<String>),
    RefreshList,
    Sections(Vec<String>),
}

/// A failure of the command layer.
#[derive(Debug)]
pub enum ApiError {
    /// The store reported a failure.
    Store(StoreError),
}

/// The command-layer capability: a handle on the selected store.
pub struct Api {
    /// The store every command runs against.
    pub store: Store,
}

impl Api {
    /// Wrap a store.
    pub fn new(store: Store) -> (a: Api)
        ensures
            a.store == store,
    {
        Api { store }
    }

    /// Run one command against the store and report what happened.
    pub fn execute(&mut self, command: ApiCommand) -> (r: Result<ApiResponse, ApiError>)
        requires
            old(self).store.wf(),
        ensures
            final(self).store.wf(),
            command matches ApiCommand::Add(Add::Item(n)) ==> {
                &&& r is Ok <==> old(self).store.can_upsert_item(n@)
                &&& r is Ok ==> final(self).store@ == spec_add_item(old(self).store@, n@) && (
                r matches Ok(resp) && resp matches ApiResponse::AddedItem(m) && m@ == n@)
                &&& r is Err ==> *final(self) == *old(self)
            },
            command matches ApiCommand::Add(Add::ChecklistItem(n)) ==> {
                &&& r is Ok <==> old(self).store.can_upsert_item(n@)
                &&& r is Ok ==> final(self).store@ == spec_add_checklist_item(
                    old(self).store@,
                    n@,
                ) && (r matches Ok(resp) && resp matches ApiResponse::AddedItem(m) && m@ == n@)
                &&& r is Err ==> *final(self) == *old(self)
            },
            command matches ApiCommand::Add(Add::ListItem(n)) ==> {
                &&& r is Ok <==> old(self).store.can_upsert_item(n@)
                &&& r is Ok ==> final(self).store@ == spec_add_list_item(old(self).store@, n@) && (
                r matches Ok(resp) && resp matches ApiResponse::AddedListItem(m) && m@ == n@)
                &&& r is Err ==> *final(self) == *old(self)
            },
            command matches ApiCommand::Add(Add::ListRecipe(n)) ==> {
                &&& r is Ok <==> old(self).store@.ingredients_of(n@) != Set::<Seq<char>>::empty()
                &&& r is Ok ==> final(self).store@ == spec_add_list_recipe(old(self).store@, n@)
                    && (r matches Ok(resp) && resp matches ApiResponse::AddedListRecipe(m) && m@
                    == n@)
                &&& r is Err ==> *final(self) == *old(self) && r == Err::<ApiResponse, ApiError>(
                    ApiError::Store(StoreError::RecipeIngredientsNotFound),
                )
            },
            command matches ApiCommand::Add(Add::Recipe(n, ings)) ==> {
                &&& r is Ok <==> old(self).store.can_add_recipe(ings@.len() as int)
                &&& r is Ok ==> final(self).store@ == spec_add_recipe(
                    old(self).store@,
                    n@,
                    name_set(ings@),
                ) && (r matches Ok(resp) && resp matches ApiResponse::AddedRecipe(m) && m@ == n@)
                &&& r is Err ==> *final(self) == *old(self)
            },
            command matches ApiCommand::Delete(Delete::ChecklistItem(n)) ==> final(self).store@
                == spec_delete_checklist_item(old(self).store@, n@) && (r matches Ok(resp) && resp
                matches ApiResponse::DeletedChecklistItem(m) && m@ == n@),
            command matches ApiCommand::Delete(Delete::Recipe(n)) ==> final(self).store@
                == spec_delete_recipe(old(self).store@, n@) && (r matches Ok(resp) && resp matches
            ApiResponse::DeletedRecipe(m) && m@ == n@),
            command matches ApiCommand::Update(Update::RefreshList) ==> final(self).store@
                == spec_refresh_list(old(self).store@) && r == Ok::<ApiResponse, ApiError>(
                ApiResponse::RefreshList,
            ),
            command matches ApiCommand::Read(q) ==> *final(self) == *old(self),
            command matches ApiCommand::Read(Read::All) ==> (r matches Ok(resp) && resp matches
            ApiResponse::Items(v) && name_set(v@) == old(self).store@.items && names_distinct(v@)),
            command matches ApiCommand::Read(Read::Checklist) ==> (r matches Ok(resp) && resp
            matches ApiResponse::Checklist(v) && name_set(v@) == old(self).store@.checklist
                && names_distinct(v@)),
            command matches ApiCommand::Read(Read::Recipes) ==> (r matches Ok(resp) && resp matches
            ApiResponse::Recipes(v) && name_set(v@) == old(self).store@.recipes && names_distinct(
                v@,
            )),
            command matches ApiCommand::Read(Read::Sections) ==> (r matches Ok(resp) && resp
            matches ApiResponse::Sections(v) && name_set(v@) == old(self).store@.sections
                && names_distinct(v@)),
            command matches ApiCommand::Read(Read::List) ==> (r matches Ok(resp) && resp matches
            ApiResponse::List(l) && name_set(l.items@) == old(self).store@.list_items && name_set(
                l.recipes@,
            ) == old(self).store@.list_recipes && name_set(l.checklist@)
                == old(self).store@.checklist),
            command matches ApiCommand::Read(Read::Recipe(n)) ==> {
                &&& old(self).store@.recipes.contains(n@) ==> (r matches Ok(resp) && resp matches
                ApiResponse::RecipeIngredients(v) && name_set(v@) == old(self).store@.ingredients_of(
                    n@,
                ) && names_distinct(v@))
                &&& !old(self).store@.recipes.contains(n@) ==> r == Ok::<ApiResponse, ApiError>(
                    ApiResponse::NothingReturned,
                )
            },
    {
        match command {
            ApiCommand::Add(cmd) => self.add(cmd),
            ApiCommand::Delete(cmd) => self.delete(cmd),
            ApiCommand::Read(cmd) => self.read(cmd),
            ApiCommand::Update(cmd) => self.update(cmd),
        }
    }

    /// Run an add command.
    fn add(&mut self, cmd: Add) -> (r: Result<ApiResponse, ApiError>)
        requires
            old(self).store.wf(),
        ensures
            final(self).store.wf(),
            cmd matches Add::Item(n) ==> {
                &&& r is Ok <==> old(self).store.can_upsert_item(n@)
                &&& r is Ok ==> final(self).store@ == spec_add_item(old(self).store@, n@) && (
                r matches Ok(resp) && resp matches ApiResponse::AddedItem(m) && m@ == n@)
                &&& r is Err ==> *final(self) == *old(self)
            },
            cmd matches Add::ChecklistItem(n) ==> {
                &&& r is Ok <==> old(self).store.can_upsert_item(n@)
                &&& r is Ok ==> final(self).store@ == spec_add_checklist_item(
                    old(self).store@,
                    n@,
                ) && (r matches Ok(resp) && resp matches ApiResponse::AddedItem(m) && m@ == n@)
                &&& r is Err ==> *final(self) == *old(self)
            },
            cmd matches Add::ListItem(n) ==> {
                &&& r is Ok <==> old(self).store.can_upsert_item(n@)
                &&& r is Ok ==> final(self).store@ == spec_add_list_item(old(self).store@, n@) && (
                r matches Ok(resp) && resp matches ApiResponse::AddedListItem(m) && m@ == n@)
                &&& r is Err ==> *final(self) == *old(self)
            },
            cmd matches Add::ListRecipe(n) ==> {
                &&& r is Ok <==> old(self).store@.ingredients_of(n@) != Set::<Seq<char>>::empty()
                &&& r is Ok ==> final(self).store@ == spec_add_list_recipe(old(self).store@, n@)
                    && (r matches Ok(resp) && resp matches ApiResponse::AddedListRecipe(m) && m@
                    == n@)
                &&& r is Err ==> *final(self) == *old(self) && r == Err::<ApiResponse, ApiError>(
                    ApiError::Store(StoreError::RecipeIngredientsNotFound),
                )
            },
            cmd matches Add::Recipe(n, ings) ==> {
                &&& r is Ok <==> old(self).store.can_add_recipe(ings@.len() as int)
                &&& r is Ok ==> final(self).store@ == spec_add_recipe(
                    old(self).store@,
                    n@,
                    name_set(ings@),
                ) && (r matches Ok(resp) && resp matches ApiResponse::AddedRecipe(m) && m@ == n@)
                &&& r is Err ==> *final(self) == *old(self)
            },
    {
        match cmd {
            Add::ChecklistItem(name) => {
                match self.store.add_checklist_item(name.as_str()) {
                    Ok(()) => Ok(ApiResponse::AddedItem(name)),
                    Err(e) => Err(ApiError::Store(e)),
                }
            },
            Add::Item(name) => {
                match self.store.add_item(name.as_str()) {
                    Ok(()) => Ok(ApiResponse::AddedItem(name)),
                    Err(e) => Err(ApiError::Store(e)),
                }
            },
            Add::ListItem(name) => {
                match self.store.add_list_item(name.as_str()) {
                    Ok(()) => Ok(ApiResponse::AddedListItem(name)),
                    Err(e) => Err(ApiError::Store(e)),
                }
            },
            Add::ListRecipe(name) => {
                match self.store.add_list_recipe(name.as_str()) {
                    Ok(()) => Ok(ApiResponse::AddedListRecipe(name)),
                    Err(e) => Err(ApiError::Store(e)),
                }
            },
            Add::Recipe(recipe, ingredients) => {
                match self.store.add_recipe(recipe.as_str(), &ingredients) {
                    Ok(()) => Ok(ApiResponse::AddedRecipe(recipe)),
                    Err(e) => Err(ApiError::Store(e)),
                }
            },
        }
    }

    /// Run a read command.
    fn read(&mut self, cmd: Read) -> (r: Result<ApiResponse, ApiError>)
        requires
            old(self).store.wf(),
        ensures
            *final(self) == *old(self),
            cmd matches Read::All ==> (r matches Ok(resp) && resp matches ApiResponse::Items(v)
                && name_set(v@) == old(self).store@.items && names_distinct(v@)),
            cmd matches Read::Checklist ==> (r matches Ok(resp) && resp matches
            ApiResponse::Checklist(v) && name_set(v@) == old(self).store@.checklist
                && names_distinct(v@)),
            cmd matches Read::Recipes ==> (r matches Ok(resp) && resp matches ApiResponse::Recipes(
                v,
            ) && name_set(v@) == old(self).store@.recipes && names_distinct(v@)),
            cmd matches Read::Sections ==> (r matches Ok(resp) && resp matches
            ApiResponse::Sections(v) && name_set(v@) == old(self).store@.sections
                && names_distinct(v@)),
            cmd matches Read::List ==> (r matches Ok(resp) && resp matches ApiResponse::List(l)
                && name_set(l.items@) == old(self).store@.list_items && name_set(l.recipes@)
                == old(self).store@.list_recipes && name_set(l.checklist@)
                == old(self).store@.checklist),
            cmd matches Read::Recipe(n) ==> {
                &&& old(self).store@.recipes.contains(n@) ==> (r matches Ok(resp) && resp matches
                ApiResponse::RecipeIngredients(v) && name_set(v@) == old(self).store@.ingredients_of(
                    n@,
                ) && names_distinct(v@))
                &&& !old(self).store@.recipes.contains(n@) ==> r == Ok::<ApiResponse, ApiError>(
                    ApiResponse::NothingReturned,
                )
            },
    {
        match cmd {
            Read::All => {
                match self.store.items() {
                    Ok(results) => Ok(ApiResponse::Items(results)),
                    Err(e) => Err(ApiError::Store(e)),
                }
            },
            Read::Checklist => {
                match self.store.checklist() {
                    Ok(items) => Ok(ApiResponse::Checklist(items)),
                    Err(e) => Err(ApiError::Store(e)),
                }
            },
            Read::List => {
                match self.store.list() {
                    Ok(list) => Ok(ApiResponse::List(list)),
                    Err(e) => Err(ApiError::Store(e)),
                }
            },
            Read::Recipe(recipe) => {
                match self.store.recipe_ingredients(recipe.as_str()) {
                    Ok(Some(ingredients)) => Ok(ApiResponse::RecipeIngredients(ingredients)),
                    Ok(None) => Ok(ApiResponse::NothingReturned),
                    Err(e) => Err(ApiError::Store(e)),
                }
            },
            Read::Recipes => {
                match self.store.recipes() {
                    Ok(recipes) => Ok(ApiResponse::Recipes(recipes)),
                    Err(e) => Err(ApiError::Store(e)),
                }
            },
            Read::Sections => {
                match self.store.sections() {
                    Ok(results) => Ok(ApiResponse::Sections(results)),
                    Err(e) => Err(ApiError::Store(e)),
                }
            },
        }
    }

    /// Run an update command.
    fn update(&mut self, cmd: Update) -> (r: Result<ApiResponse, ApiError>)
        requires
            old(self).store.wf(),
        ensures
            final(self).store.wf(),
            cmd matches Update::RefreshList ==> final(self).store@ == spec_refresh_list(
                old(self).store@,
            ) && r == Ok::<ApiResponse, ApiError>(ApiResponse::RefreshList),
    {
        match cmd {
            Update::RefreshList => {
                match self.store.refresh_list() {
                    Ok(()) => Ok(ApiResponse::RefreshList),
                    Err(e) => Err(ApiError::Store(e)),
                }
            },
        }
    }

    /// Run a delete command.
    fn delete(&mut self, cmd: Delete) -> (r: Result<ApiResponse, ApiError>)
        requires
            old(self).store.wf(),
        ensures
            final(self).store.wf(),
            cmd matches Delete::ChecklistItem(n) ==> final(self).store@
                == spec_delete_checklist_item(old(self).store@, n@) && (r matches Ok(resp) && resp
                matches ApiResponse::DeletedChecklistItem(m) && m@ == n@),
            cmd matches Delete::Recipe(n) ==> final(self).store@ == spec_delete_recipe(
                old(self).store@,
                n@,
            ) && (r matches Ok(resp) && resp matches ApiResponse::DeletedRecipe(m) && m@ == n@),
    {
        match cmd {
            Delete::ChecklistItem(name) => {
                match self.store.delete_checklist_item(name.as_str()) {
                    Ok(()) => Ok(ApiResponse::DeletedChecklistItem(name)),
                    Err(e) => Err(ApiError::Store(e)),
                }
            },
            Delete::Recipe(recipe) => {
                match self.store.delete_recipe(recipe.as_str()) {
                    Ok(()) => Ok(ApiResponse::DeletedRecipe(recipe)),
                    Err(e) => Err(ApiError::Store(e)),
                }
            },
        }
    }
}

} // verus!
