use stocktrack::models::ItemKind;
use stocktrack::stock::StockError;
use stocktrack::store::Store;

fn store_with_item(name: &str) -> (Store, i32) {
    let mut store = Store::new();
    let item = store.create_item(None, name).unwrap();
    (store, item.id)
}

#[test]
fn add_creates_unopened_available_unit() {
    let (mut store, id) = store_with_item("rice");
    let unit = store.add_to_stock(id);
    assert_eq!(unit.item_id, id);
    assert_eq!(unit.opened_dt, None);
    assert_eq!(unit.removed_dt, None);
    assert_eq!(store.stock.len(), 1);
    assert_eq!(store.stock[0], unit);
}

#[test]
fn empty_item_remove_fails_and_mutates_nothing() {
    let (mut store, id) = store_with_item("rice");
    let before = store.stock.clone();
    assert_eq!(store.remove_from_stock(id, None), Err(StockError::NotInStock));
    assert_eq!(store.stock, before);
}

#[test]
fn empty_item_open_fails_and_mutates_nothing() {
    let (mut store, id) = store_with_item("rice");
    let before = store.stock.clone();
    assert_eq!(store.open_from_stock(id), Err(StockError::NotInStock));
    assert_eq!(store.stock, before);
}

#[test]
fn empty_item_finish_fails_and_mutates_nothing() {
    let (mut store, id) = store_with_item("rice");
    let before = store.stock.clone();
    assert_eq!(store.finish_from_stock(id), Err(StockError::NotOpen));
    assert_eq!(store.stock, before);
}

#[test]
fn remove_takes_oldest_unopened_first() {
    let (mut store, id) = store_with_item("milk");
    let first = store.add_to_stock(id);
    let second = store.add_to_stock(id);
    assert!(first.added_dt < second.added_dt);

    assert_eq!(store.remove_from_stock(id, None), Ok(()));
    assert!(store.stock[0].removed_dt.is_some());
    assert!(store.stock[1].removed_dt.is_none());

    assert_eq!(store.remove_from_stock(id, None), Ok(()));
    assert!(store.stock[1].removed_dt.is_some());

    assert_eq!(store.remove_from_stock(id, None), Err(StockError::NotInStock));
}

#[test]
fn remove_by_id_takes_exactly_that_unit() {
    let (mut store, id) = store_with_item("milk");
    let first = store.add_to_stock(id);
    let second = store.add_to_stock(id);

    assert_eq!(store.remove_from_stock(id, Some(second.id)), Ok(()));
    assert!(store.stock[0].removed_dt.is_none());
    assert!(store.stock[1].removed_dt.is_some());

    // already removed: refused
    assert_eq!(
        store.remove_from_stock(id, Some(second.id)),
        Err(StockError::NotInStock)
    );
    // wrong item: refused
    let other = store.create_item(None, "tea").unwrap();
    assert_eq!(
        store.remove_from_stock(other.id, Some(first.id)),
        Err(StockError::NotInStock)
    );
}

#[test]
fn remove_by_id_takes_even_an_open_unit() {
    let (mut store, id) = store_with_item("jam");
    let unit = store.add_to_stock(id);
    assert_eq!(store.open_from_stock(id), Ok(()));
    assert_eq!(store.remove_from_stock(id, Some(unit.id)), Ok(()));
    assert!(store.stock[0].removed_dt.is_some());
}

#[test]
fn open_takes_oldest_and_at_most_one_is_open() {
    let (mut store, id) = store_with_item("juice");
    store.add_to_stock(id);
    store.add_to_stock(id);

    assert_eq!(store.open_from_stock(id), Ok(()));
    assert!(store.stock[0].opened_dt.is_some());
    assert!(store.stock[1].opened_dt.is_none());

    // a second open on the same item is refused while one is open
    let before = store.stock.clone();
    assert_eq!(store.open_from_stock(id), Err(StockError::AlreadyOpen));
    assert_eq!(store.stock, before);

    let open_count = store
        .stock
        .iter()
        .filter(|u| u.item_id == id && u.opened_dt.is_some() && u.removed_dt.is_none())
        .count();
    assert_eq!(open_count, 1);
}

#[test]
fn finish_removes_the_open_unit_then_refuses() {
    let (mut store, id) = store_with_item("soup");
    store.add_to_stock(id);
    assert_eq!(store.open_from_stock(id), Ok(()));
    assert_eq!(store.finish_from_stock(id), Ok(()));
    assert!(store.stock[0].removed_dt.is_some());
    assert_eq!(store.finish_from_stock(id), Err(StockError::NotOpen));
}

#[test]
fn open_after_finish_moves_to_next_unit() {
    let (mut store, id) = store_with_item("soap");
    store.add_to_stock(id);
    store.add_to_stock(id);
    assert_eq!(store.open_from_stock(id), Ok(()));
    assert_eq!(store.finish_from_stock(id), Ok(()));
    assert_eq!(store.open_from_stock(id), Ok(()));
    assert!(store.stock[1].opened_dt.is_some());
    assert!(store.stock[1].removed_dt.is_none());
}

#[test]
fn lifecycle_timestamps_are_ordered() {
    let (mut store, id) = store_with_item("beans");
    store.add_to_stock(id);
    assert_eq!(store.open_from_stock(id), Ok(()));
    assert_eq!(store.finish_from_stock(id), Ok(()));
    let unit = store.stock[0];
    assert!(unit.opened_dt.unwrap() >= unit.added_dt);
    assert!(unit.removed_dt.unwrap() >= unit.opened_dt.unwrap());
}

#[test]
fn operations_on_two_items_do_not_interfere() {
    let (mut store, rice) = store_with_item("rice");
    let tea = store.create_item(None, "tea").unwrap().id;
    store.add_to_stock(rice);
    store.add_to_stock(tea);
    assert_eq!(store.open_from_stock(rice), Ok(()));
    // tea may still be opened although rice is open
    assert_eq!(store.open_from_stock(tea), Ok(()));
    assert_eq!(store.finish_from_stock(rice), Ok(()));
    assert_eq!(store.remove_from_stock(tea, None), Err(StockError::NotInStock));
}

#[test]
fn item_kind_labels_round_trip() {
    assert_eq!(ItemKind::Bought.label(), "bought");
    assert_eq!(ItemKind::Custom.label(), "custom");
    assert_eq!(ItemKind::from_label("bought"), Some(ItemKind::Bought));
    assert_eq!(ItemKind::from_label("custom"), Some(ItemKind::Custom));
    assert_eq!(ItemKind::from_label("other"), None);
}
