//! Scenario tests for the model's guarantees, on both backends, plus the
//! migration engine and the command layer.

use grusterylist::api::{Add, Api, ApiCommand, ApiError, ApiResponse, Delete, Read, Update};
use grusterylist::document::{DocItem, DocumentStore};
use grusterylist::migrate::migrate_groceries;
use grusterylist::relational::RelationalStore;
use grusterylist::store::{Store, StoreError, StoreType};

#[test]
fn idempotent_insert_leaves_one_item() {
    let mut store = RelationalStore::new();
    store.add_item("milk").unwrap();
    store.add_item("milk").unwrap();
    let items = store.items().unwrap();
    assert_eq!(items, vec![String::from("milk")]);
}

#[test]
fn idempotent_insert_document_backend() {
    let mut store = DocumentStore::new();
    store.add_item("milk").unwrap();
    store.add_item("milk").unwrap();
    let items = store.items().unwrap();
    assert_eq!(items, vec![String::from("milk")]);
}

#[test]
fn upsert_order_independent() {
    let mut store = RelationalStore::new();
    let ingredients = vec![String::from("carrot"), String::from("onion")];
    store.add_recipe("soup", &ingredients).unwrap();
    store.add_item("carrot").unwrap();

    let items = store.items().unwrap();
    assert_eq!(items.iter().filter(|i| i.as_str() == "carrot").count(), 1);

    let mut got = store.recipe_ingredients("soup").unwrap().unwrap();
    got.sort();
    assert_eq!(got, ingredients);
}

#[test]
fn list_recipe_needs_known_ingredients() {
    let mut store = RelationalStore::new();
    store.add_list_item("bread").unwrap();

    let r = store.add_list_recipe("unknown recipe");
    assert_eq!(r, Err(StoreError::RecipeIngredientsNotFound));

    let list = store.list().unwrap();
    assert_eq!(list.items, vec![String::from("bread")]);
    assert_eq!(list.recipes.len(), 0);
}

#[test]
fn list_recipe_rejects_recipe_without_ingredients() {
    let mut store = RelationalStore::new();
    store.add_recipe("air", &Vec::new()).unwrap();
    let r = store.add_list_recipe("air");
    assert_eq!(r, Err(StoreError::RecipeIngredientsNotFound));
}

#[test]
fn refresh_clears_list_only() {
    let mut store = RelationalStore::new();
    store.add_list_item("eggs").unwrap();
    store.add_checklist_item("eggs").unwrap();

    store.refresh_list().unwrap();

    let list = store.list().unwrap();
    assert!(list.items.is_empty());
    assert_eq!(store.checklist().unwrap(), vec![String::from("eggs")]);
    assert_eq!(store.items().unwrap(), vec![String::from("eggs")]);
}

#[test]
fn delete_recipe_cascades_junctions() {
    let mut store = RelationalStore::new();
    store
        .add_recipe("stew", &vec![String::from("beef")])
        .unwrap();

    store.delete_recipe("stew").unwrap();

    assert_eq!(store.recipe_ingredients("stew").unwrap(), None);
    assert!(store.items_recipes.is_empty());
    assert_eq!(store.items().unwrap(), vec![String::from("beef")]);
}

#[test]
fn delete_recipe_cascades_document_backend() {
    let mut store = DocumentStore::new();
    store
        .add_recipe("stew", &vec![String::from("beef")])
        .unwrap();

    store.delete_recipe("stew").unwrap();

    assert_eq!(store.recipe_ingredients("stew").unwrap(), None);
    assert_eq!(store.items().unwrap(), vec![String::from("beef")]);
}

fn sample_document() -> DocumentStore {
    DocumentStore {
        collection: vec![
            DocItem {
                name: String::from("carrot"),
                section: Some(String::from("fresh")),
                recipes: vec![String::from("soup")],
            },
            DocItem {
                name: String::from("beef"),
                section: Some(String::from("protein")),
                recipes: vec![String::from("stew"), String::from("soup")],
            },
            DocItem {
                name: String::from("salt"),
                section: None,
                recipes: Vec::new(),
            },
        ],
        recipes: vec![String::from("soup"), String::from("stew")],
        sections: vec![String::from("fresh"), String::from("protein")],
        list_items: Vec::new(),
        list_recipes: vec![String::from("pancakes")],
        checklist: Vec::new(),
    }
}

fn table_counts(rel: &RelationalStore) -> (usize, usize, usize, usize, usize, usize, usize, usize) {
    (
        rel.items.len(),
        rel.recipes.len(),
        rel.sections.len(),
        rel.list.len(),
        rel.list_recipes.len(),
        rel.checklist.len(),
        rel.items_recipes.len(),
        rel.items_sections.len(),
    )
}

#[test]
fn migration_carries_the_document_over() {
    let doc = sample_document();
    let mut rel = RelationalStore::new();
    migrate_groceries(&doc, &mut rel).unwrap();

    let mut items = rel.items().unwrap();
    items.sort();
    assert_eq!(
        items,
        vec![
            String::from("beef"),
            String::from("carrot"),
            String::from("salt")
        ]
    );

    let mut recipes = rel.recipes().unwrap();
    recipes.sort();
    // recipes referenced by items, plus the list's recipe history
    assert_eq!(
        recipes,
        vec![
            String::from("pancakes"),
            String::from("soup"),
            String::from("stew")
        ]
    );

    let mut sections = rel.sections().unwrap();
    sections.sort();
    assert_eq!(sections, vec![String::from("fresh"), String::from("protein")]);

    let mut soup = rel.recipe_ingredients("soup").unwrap().unwrap();
    soup.sort();
    assert_eq!(soup, vec![String::from("beef"), String::from("carrot")]);

    let stew = rel.recipe_ingredients("stew").unwrap().unwrap();
    assert_eq!(stew, vec![String::from("beef")]);

    // the migration never touches the target's working lists
    assert!(rel.list().unwrap().items.is_empty());
}

#[test]
fn migration_is_idempotent() {
    let doc = sample_document();
    let mut rel = RelationalStore::new();

    migrate_groceries(&doc, &mut rel).unwrap();
    let counts_once = table_counts(&rel);

    migrate_groceries(&doc, &mut rel).unwrap();
    let counts_twice = table_counts(&rel);

    assert_eq!(counts_once, counts_twice);
}

#[test]
fn migration_into_populated_target_ignores_duplicates() {
    let doc = sample_document();
    let mut rel = RelationalStore::new();
    rel.add_item("carrot").unwrap();
    rel.add_recipe("soup", &vec![String::from("leek")]).unwrap();

    migrate_groceries(&doc, &mut rel).unwrap();

    let items = rel.items().unwrap();
    assert_eq!(items.iter().filter(|i| i.as_str() == "carrot").count(), 1);
    let recipes = rel.recipes().unwrap();
    assert_eq!(recipes.iter().filter(|r| r.as_str() == "soup").count(), 1);

    let mut soup = rel.recipe_ingredients("soup").unwrap().unwrap();
    soup.sort();
    assert_eq!(
        soup,
        vec![
            String::from("beef"),
            String::from("carrot"),
            String::from("leek")
        ]
    );
}

#[test]
fn round_trip_read_back_is_order_independent() {
    let mut a = RelationalStore::new();
    a.add_item("milk").unwrap();
    a.add_item("bread").unwrap();

    let mut b = RelationalStore::new();
    b.add_item("bread").unwrap();
    b.add_item("milk").unwrap();

    let mut items_a = a.items().unwrap();
    items_a.sort();
    let mut items_b = b.items().unwrap();
    items_b.sort();
    assert_eq!(items_a, items_b);
    assert_eq!(items_a, vec![String::from("bread"), String::from("milk")]);
}

#[test]
fn both_backends_agree_on_a_session() {
    for store_type in [StoreType::Document, StoreType::Relational] {
        let mut store = Store::new(store_type);
        store
            .add_recipe("soup", &vec![String::from("carrot"), String::from("onion")])
            .unwrap();
        store.add_list_recipe("soup").unwrap();
        store.add_checklist_item("carrot").unwrap();
        store.delete_checklist_item("carrot").unwrap();

        let mut items = store.items().unwrap();
        items.sort();
        assert_eq!(items, vec![String::from("carrot"), String::from("onion")]);

        let list = store.list().unwrap();
        let mut on_list = list.items.clone();
        on_list.sort();
        assert_eq!(on_list, vec![String::from("carrot"), String::from("onion")]);
        assert_eq!(list.recipes, vec![String::from("soup")]);
        assert!(list.checklist.is_empty());

        store.delete_recipe("soup").unwrap();
        assert_eq!(store.recipe_ingredients("soup").unwrap(), None);
        assert!(store.recipes().unwrap().is_empty());
    }
}

#[test]
fn api_executes_commands() {
    let mut api = Api::new(Store::new(StoreType::Relational));

    let r = api
        .execute(ApiCommand::Add(Add::Recipe(
            String::from("soup"),
            vec![String::from("carrot")],
        )))
        .unwrap();
    assert!(matches!(r, ApiResponse::AddedRecipe(n) if n == "soup"));

    let r = api
        .execute(ApiCommand::Add(Add::ListRecipe(String::from("soup"))))
        .unwrap();
    assert!(matches!(r, ApiResponse::AddedListRecipe(n) if n == "soup"));

    let r = api
        .execute(ApiCommand::Read(Read::Recipe(String::from("soup"))))
        .unwrap();
    assert!(matches!(r, ApiResponse::RecipeIngredients(v) if v == vec![String::from("carrot")]));

    let r = api
        .execute(ApiCommand::Read(Read::Recipe(String::from("pie"))))
        .unwrap();
    assert!(matches!(r, ApiResponse::NothingReturned));

    let r = api.execute(ApiCommand::Update(Update::RefreshList)).unwrap();
    assert!(matches!(r, ApiResponse::RefreshList));
    let r = api.execute(ApiCommand::Read(Read::List)).unwrap();
    assert!(matches!(r, ApiResponse::List(l) if l.items.is_empty() && l.recipes.is_empty()));

    let r = api
        .execute(ApiCommand::Delete(Delete::Recipe(String::from("soup"))))
        .unwrap();
    assert!(matches!(r, ApiResponse::DeletedRecipe(n) if n == "soup"));

    let r = api.execute(ApiCommand::Add(Add::ListRecipe(String::from("soup"))));
    assert!(matches!(
        r,
        Err(ApiError::Store(StoreError::RecipeIngredientsNotFound))
    ));
}

#[test]
fn document_list_recipe_marks_ingredients() {
    let mut store = DocumentStore::new();
    store
        .add_recipe(
            "soup",
            &vec![String::from("carrot"), String::from("onion")],
        )
        .unwrap();
    store.add_list_recipe("soup").unwrap();

    let list = store.list().unwrap();
    let mut on_list = list.items.clone();
    on_list.sort();
    assert_eq!(on_list, vec![String::from("carrot"), String::from("onion")]);
    assert_eq!(list.recipes, vec![String::from("soup")]);
}

#[test]
fn load_item_resolves_ids() {
    let mut store = RelationalStore::new();
    store.add_item("milk").unwrap();
    let id = store.items[0].id;
    assert_eq!(store.load_item(id), Some(String::from("milk")));
    assert_eq!(store.load_item(id + 1), None);
}

#[test]
fn sections_read_back_after_migration() {
    let doc = sample_document();
    let mut rel = RelationalStore::new();
    migrate_groceries(&doc, &mut rel).unwrap();
    // "salt" has no section: only two junction rows exist
    assert_eq!(rel.items_sections.len(), 2);
}

#[test]
fn auto_select_picks_items_of_selected_recipes() {
    let catalog = sample_document().collection;
    let selected = vec![String::from("soup")];

    let picked = grusterylist::shopping::auto_select(&catalog, &selected, &Vec::new());
    let mut picked_sorted = picked.clone();
    picked_sorted.sort();
    assert_eq!(
        picked_sorted,
        vec![String::from("beef"), String::from("carrot")]
    );

    let current = vec![String::from("carrot")];
    let picked = grusterylist::shopping::auto_select(&catalog, &selected, &current);
    assert_eq!(picked, vec![String::from("beef")]);

    let picked = grusterylist::shopping::auto_select(&catalog, &Vec::new(), &Vec::new());
    assert!(picked.is_empty());
}

#[test]
fn section_round_walks_one_section() {
    let catalog = sample_document().collection;
    let fresh = grusterylist::shopping::section_round(&catalog, &String::from("fresh"));
    assert_eq!(fresh, vec![String::from("carrot")]);
    let freezer = grusterylist::shopping::section_round(&catalog, &String::from("freezer"));
    assert!(freezer.is_empty());
}
