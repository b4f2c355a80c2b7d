use stocktrack::labels::LabelContent;
use stocktrack::models::{Item, ItemKind, Stock};

#[test]
fn label_new_keeps_its_three_parts() {
    let label = LabelContent::new("Bread", "~3|7~", "10/26");
    assert_eq!(label.name, "Bread");
    assert_eq!(label.code, "~3|7~");
    assert_eq!(label.date, "10/26");
}

#[test]
fn label_from_item_stock_renders_the_reference_code() {
    let item = Item {
        id: 3,
        name: "Bread".to_string(),
        kind: ItemKind::Custom,
        ean: None,
    };
    let unit = Stock {
        id: 7,
        item_id: 3,
        added_dt: 0,
        opened_dt: None,
        removed_dt: None,
    };
    let label = LabelContent::from_item_stock(&item, &unit, "10/26");
    assert_eq!(label.name, "Bread");
    assert_eq!(label.code, "~3|7~");
    assert_eq!(label.date, "10/26");
}
