use stocktrack::models::ItemKind;
use stocktrack::store::{ConflictError, Store};

#[test]
fn create_item_assigns_ids_and_kinds() {
    let mut store = Store::new();
    let bought = store.create_item(Some("4000417025005"), "Chocolate").unwrap();
    let custom = store.create_item(None, "Sourdough").unwrap();
    assert_eq!(bought.kind, ItemKind::Bought);
    assert_eq!(bought.ean.as_deref(), Some("4000417025005"));
    assert_eq!(custom.kind, ItemKind::Custom);
    assert_eq!(custom.ean, None);
    assert_ne!(bought.id, custom.id);
}

#[test]
fn create_item_refuses_taken_code() {
    let mut store = Store::new();
    store.create_item(Some("111"), "One").unwrap();
    assert_eq!(
        store.create_item(Some("111"), "Two"),
        Err(ConflictError::CodeExists)
    );
    assert_eq!(store.items.len(), 1);
}

#[test]
fn query_by_ean_finds_direct_code() {
    let mut store = Store::new();
    let item = store.create_item(Some("999"), "Oats").unwrap();
    let found = store.query_item_by_ean("999").unwrap();
    assert_eq!(found.id, item.id);
    assert!(store.query_item_by_ean("998").is_none());
}

#[test]
fn alias_resolves_one_level() {
    let mut store = Store::new();
    let x = store.create_item(Some("200"), "Butter").unwrap();
    store.create_alias("100", "200").unwrap();

    // the alias and the canonical code both resolve to the same item
    let via_alias = store.query_item_by_ean("100").unwrap();
    let direct = store.query_item_by_ean("200").unwrap();
    assert_eq!(via_alias.id, x.id);
    assert_eq!(direct.id, x.id);
    // the resolved item's own code is never the alias code
    assert_ne!(via_alias.ean.as_deref(), Some("100"));
}

#[test]
fn create_alias_refuses_taken_code_and_missing_target() {
    let mut store = Store::new();
    store.create_item(Some("200"), "Butter").unwrap();
    store.create_alias("100", "200").unwrap();

    // the alias code is taken now, as is the item code
    assert_eq!(
        store.create_alias("100", "200"),
        Err(ConflictError::CodeExists)
    );
    assert_eq!(
        store.create_alias("200", "200"),
        Err(ConflictError::CodeExists)
    );
    // an alias must point at an existing item's code
    assert_eq!(
        store.create_alias("300", "999"),
        Err(ConflictError::TargetMissing)
    );
    assert_eq!(store.aliases.len(), 1);
}

#[test]
fn query_by_name_is_case_insensitive() {
    let mut store = Store::new();
    let item = store.create_item(None, "Milk").unwrap();
    // a differently-cased query still finds the item: the comparison
    // really lowercases both sides
    let found = store.query_item_by_name("MILK").unwrap();
    assert_eq!(found.id, item.id);
    let found = store.query_item_by_name("milk").unwrap();
    assert_eq!(found.id, item.id);
    assert!(store.query_item_by_name("Milks").is_none());
}

#[test]
fn query_by_id_finds_items() {
    let mut store = Store::new();
    let a = store.create_item(None, "A").unwrap();
    let b = store.create_item(None, "B").unwrap();
    assert_eq!(store.query_item_by_id(a.id).unwrap().name, "A");
    assert_eq!(store.query_item_by_id(b.id).unwrap().name, "B");
    assert!(store.query_item_by_id(b.id + 1).is_none());
}

#[test]
fn search_custom_filters_and_sorts_case_insensitively() {
    let mut store = Store::new();
    store.create_item(None, "zucchini bread").unwrap();
    store.create_item(None, "Apple Bread").unwrap();
    store.create_item(None, "banana cake").unwrap();
    // a bought item never shows up, even with a matching name
    store.create_item(Some("1"), "bread flour").unwrap();

    let found = store.search_custom_items_by_name("bread");
    let names: Vec<&str> = found.iter().map(|it| it.name.as_str()).collect();
    assert_eq!(names, vec!["Apple Bread", "zucchini bread"]);

    // the match is a case-insensitive substring match
    let found = store.search_custom_items_by_name("BREAD");
    assert_eq!(found.len(), 2);
    let found = store.search_custom_items_by_name("");
    assert_eq!(found.len(), 3);
    let found = store.search_custom_items_by_name("quiche");
    assert!(found.is_empty());
}
