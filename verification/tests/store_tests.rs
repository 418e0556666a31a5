//! The storage-contract tests, run against a fresh in-memory relational
//! store.

use grusterylist::relational::RelationalStore;

fn inmem_store() -> RelationalStore {
    RelationalStore::new()
}

fn test_item() -> String {
    String::from("test item")
}

#[test]
fn test_add_checklist_item() {
    let mut store = inmem_store();

    let item_name = test_item();
    store.add_checklist_item(&item_name).unwrap();

    assert!(store
        .checklist()
        .unwrap()
        .iter()
        .any(|item| item == &item_name));
}

#[test]
fn test_add_item() {
    let mut store = inmem_store();

    let item_name = test_item();
    store.add_item(&item_name).unwrap();

    let items = store.items().unwrap();

    assert!(items.iter().any(|item| item == &item_name));
}

#[test]
fn test_add_list_item() {
    let mut store = inmem_store();

    let item_name = test_item();
    store.add_list_item(&item_name).unwrap();

    let list = store.list().unwrap();
    let item_in_list = list.items.iter().any(|item| item == &item_name);

    assert!(item_in_list);
}

#[test]
fn test_add_list_recipe() {
    let mut store = inmem_store();

    let ingredients = vec![
        String::from("ingredient 1"),
        String::from("ingredient 2"),
    ];

    let recipe = String::from("test recipe");
    store.add_recipe(&recipe, &ingredients).unwrap();

    store.add_list_recipe(&recipe).unwrap();

    let list = store.list().unwrap();
    assert_eq!(list.checklist.len(), 0);
    assert_eq!(list.recipes, vec![String::from("test recipe")]);
    assert_eq!(list.items.len(), 2);
    assert!(list.items.iter().any(|item| item == "ingredient 1"));
    assert!(list.items.iter().any(|item| item == "ingredient 2"));
}

#[test]
fn test_add_recipe() {
    let mut store = inmem_store();

    let ingredients = vec![
        String::from("ingredient 1"),
        String::from("ingredient 2"),
    ];

    let recipe = String::from("test recipe");
    store.add_recipe(&recipe, &ingredients).unwrap();

    let recipes = store.recipes().unwrap();
    assert_eq!(recipes.len(), 1);

    let added_recipe = &recipes[0];
    assert_eq!(added_recipe.as_str(), "test recipe");

    let mut recipe_ingredients = store.recipe_ingredients(&recipe).unwrap().unwrap();
    recipe_ingredients.sort();
    assert_eq!(recipe_ingredients, ingredients);
}

#[test]
fn test_delete_checklist_item() {
    let mut store = inmem_store();

    let item_name = test_item();
    store.add_checklist_item(&item_name).unwrap();

    assert!(store
        .checklist()
        .unwrap()
        .iter()
        .any(|item| item == &item_name));

    store.delete_checklist_item(&item_name).unwrap();

    assert!(store
        .checklist()
        .unwrap()
        .iter()
        .all(|item| item != &item_name));
}

#[test]
fn test_delete_recipe() {
    let mut store = inmem_store();

    let ingredients = vec![
        String::from("ingredient 1"),
        String::from("ingredient 2"),
    ];

    let recipe = String::from("test recipe");
    store.add_recipe(&recipe, &ingredients).unwrap();

    let recipes = store.recipes().unwrap();
    assert_eq!(recipes.len(), 1);

    let added_recipe = &recipes[0];
    assert_eq!(added_recipe.as_str(), "test recipe");

    let mut recipe_ingredients = store.recipe_ingredients(&recipe).unwrap().unwrap();
    recipe_ingredients.sort();
    assert_eq!(recipe_ingredients, ingredients);

    store.delete_recipe(&recipe).unwrap();

    let recipes = store.recipes().unwrap();
    assert_eq!(recipes.len(), 0);

    let recipe_ingredients = store.recipe_ingredients(&recipe).unwrap();
    assert_eq!(recipe_ingredients, None);
}

#[test]
fn test_refresh_list() {
    let mut store = inmem_store();

    store.refresh_list().unwrap();

    let list = store.list().unwrap();
    assert_eq!(list.items.len(), 0);

    let item1 = String::from("item 1");
    let item2 = String::from("item 2");
    store.add_list_item(&item1).unwrap();
    store.add_list_item(&item2).unwrap();

    let list = store.list().unwrap();
    assert_eq!(list.items.len(), 2);
    assert!(list.items.iter().any(|item| item == &item1));
    assert!(list.items.iter().any(|item| item == &item2));

    store.refresh_list().unwrap();

    let list = store.list().unwrap();
    assert_eq!(list.items.len(), 0);
}
