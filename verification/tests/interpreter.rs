use stocktrack::interp::{
    create_custom, extract_product_name, lookup_skipped, register, remove_custom, scanned,
    CustomChoice, CustomError, Interpreter, LookupError, OperatorInput, Outcome, RegisterError,
    RegisterOutcome, RemoveRefError, ScanError, ScanOutcome,
};
use stocktrack::models::ItemKind;
use stocktrack::scan::ScanOp;
use stocktrack::stock::StockError;
use stocktrack::store::Store;

fn no_input() -> OperatorInput {
    OperatorInput {
        provided_name: None,
        confirm_alias: false,
        custom_name: None,
        custom_choice: CustomChoice::CreateNew,
        confirm_create: false,
        custom_count: 1,
    }
}

fn named_input(name: &str) -> OperatorInput {
    OperatorInput {
        provided_name: Some(name.to_string()),
        ..no_input()
    }
}

#[test]
fn register_then_add_scenario() {
    // scan "+++" (mode Register), then an unregistered barcode whose
    // lookup returned "Milk", then ">>>" (mode Add), then the barcode
    let mut interp = Interpreter::new();
    let mut store = Store::new();
    let input = named_input("Milk");
    let date = "10/26";

    let r = interp.handle_scan(&mut store, "+++", &input, date);
    assert!(matches!(r, Outcome::ModeSet(ScanOp::Register)));
    assert_eq!(interp.mode, ScanOp::Register);

    let r = interp.handle_scan(&mut store, "111", &input, date);
    match r {
        Outcome::Scanned(Ok(ScanOutcome::Registered(RegisterOutcome::Created(item)))) => {
            assert_eq!(item.ean.as_deref(), Some("111"));
            assert_eq!(item.name, "Milk");
            assert_eq!(item.kind, ItemKind::Bought);
        }
        _ => panic!("expected a created item"),
    }

    let r = interp.handle_scan(&mut store, ">>>", &input, date);
    assert!(matches!(r, Outcome::ModeSet(ScanOp::Add)));

    let r = interp.handle_scan(&mut store, "111", &input, date);
    match r {
        Outcome::Scanned(Ok(ScanOutcome::Added(item, unit))) => {
            assert_eq!(item.name, "Milk");
            assert_eq!(unit.opened_dt, None);
            assert_eq!(unit.removed_dt, None);
        }
        _ => panic!("expected an added unit"),
    }
    assert_eq!(store.stock.len(), 1);
}

#[test]
fn open_scenario_second_open_fails_unchanged() {
    // with one unopened unit of X: "///" then X's barcode opens it;
    // the same two scans again fail with AlreadyOpen, changing nothing
    let mut interp = Interpreter::new();
    let mut store = Store::new();
    let input = no_input();
    let item = store.create_item(Some("222"), "Yoghurt").unwrap();
    store.add_to_stock(item.id);

    interp.handle_scan(&mut store, "///", &input, "");
    let r = interp.handle_scan(&mut store, "222", &input, "");
    assert!(matches!(r, Outcome::Scanned(Ok(ScanOutcome::Opened))));
    assert!(store.stock[0].opened_dt.is_some());

    let snapshot = store.stock.clone();
    interp.handle_scan(&mut store, "///", &input, "");
    let r = interp.handle_scan(&mut store, "222", &input, "");
    assert!(matches!(
        r,
        Outcome::Scanned(Err(ScanError::Stock(StockError::AlreadyOpen)))
    ));
    assert_eq!(store.stock, snapshot);
}

#[test]
fn finish_scenario_second_finish_fails() {
    // after opening: "</<" then the barcode removes the open unit;
    // a further "</<" + barcode fails with NotOpen
    let mut interp = Interpreter::new();
    let mut store = Store::new();
    let input = no_input();
    let item = store.create_item(Some("333"), "Hummus").unwrap();
    store.add_to_stock(item.id);
    store.open_from_stock(item.id).unwrap();

    interp.handle_scan(&mut store, "</<", &input, "");
    let r = interp.handle_scan(&mut store, "333", &input, "");
    assert!(matches!(r, Outcome::Scanned(Ok(ScanOutcome::Finished))));
    assert!(store.stock[0].removed_dt.is_some());

    let r = interp.handle_scan(&mut store, "333", &input, "");
    assert!(matches!(
        r,
        Outcome::Scanned(Err(ScanError::Stock(StockError::NotOpen)))
    ));
}

#[test]
fn timeout_reverts_mode_to_idle() {
    // no scan for the timeout window while a mode is set: the mode
    // reverts to idle by itself, nothing else happens
    let mut interp = Interpreter::new();
    let mut store = Store::new();
    interp.handle_scan(&mut store, ">>>", &no_input(), "");
    assert_eq!(interp.mode, ScanOp::Add);
    let items_before = store.items.len();
    let stock_before = store.stock.len();
    interp.on_timeout();
    assert_eq!(interp.mode, ScanOp::Idle);
    assert_eq!(store.items.len(), items_before);
    assert_eq!(store.stock.len(), stock_before);
}

#[test]
fn mode_tokens_are_idempotent() {
    // the same token twice in a row leaves the mode unchanged and
    // triggers no resolver or engine call either time
    let mut interp = Interpreter::new();
    let mut store = Store::new();
    store.create_item(Some("444"), "Cheese").unwrap();
    let before_items = store.items.clone();
    let before_stock = store.stock.clone();

    let r = interp.handle_scan(&mut store, "<<<", &no_input(), "");
    assert!(matches!(r, Outcome::ModeSet(ScanOp::Remove)));
    assert_eq!(interp.mode, ScanOp::Remove);
    let r = interp.handle_scan(&mut store, "<<<", &no_input(), "");
    assert!(matches!(r, Outcome::ModeSet(ScanOp::Remove)));
    assert_eq!(interp.mode, ScanOp::Remove);

    assert_eq!(store.items, before_items);
    assert_eq!(store.stock, before_stock);
}

#[test]
fn idle_mode_only_reports() {
    let mut store = Store::new();
    store.create_item(Some("555"), "Salt").unwrap();
    let r = scanned(&mut store, ScanOp::Idle, "555", &no_input());
    match r {
        Ok(ScanOutcome::Checked(Some(item))) => assert_eq!(item.name, "Salt"),
        _ => panic!("expected the item to be found"),
    }
    let r = scanned(&mut store, ScanOp::Idle, "556", &no_input());
    assert!(matches!(r, Ok(ScanOutcome::Checked(None))));
    assert_eq!(store.stock.len(), 0);
}

#[test]
fn register_already_registered_is_a_no_op() {
    let mut store = Store::new();
    store.create_item(Some("666"), "Pepper").unwrap();
    let items_before = store.items.len();
    let r = register(&mut store, "666", &named_input("Pepper II"));
    match r {
        Ok(RegisterOutcome::AlreadyRegistered(item)) => assert_eq!(item.name, "Pepper"),
        _ => panic!("expected already-registered"),
    }
    assert_eq!(store.items.len(), items_before);
}

#[test]
fn register_without_name_fails() {
    let mut store = Store::new();
    assert!(matches!(
        register(&mut store, "777", &no_input()),
        Err(RegisterError::NoName)
    ));
    let empty = named_input("");
    assert!(matches!(
        register(&mut store, "777", &empty),
        Err(RegisterError::NoName)
    ));
    assert!(store.items.is_empty());
}

#[test]
fn register_name_collision_creates_alias_on_confirmation() {
    let mut store = Store::new();
    let existing = store.create_item(Some("200"), "Butter").unwrap();

    // declined: unresolved conflict, nothing changes
    let mut input = named_input("butter");
    assert!(matches!(
        register(&mut store, "100", &input),
        Err(RegisterError::UnresolvedConflict)
    ));
    assert!(store.aliases.is_empty());

    // confirmed: the new code becomes an alias for the existing item
    input.confirm_alias = true;
    match register(&mut store, "100", &input) {
        Ok(RegisterOutcome::AliasCreated(item)) => assert_eq!(item.id, existing.id),
        _ => panic!("expected an alias"),
    }
    assert_eq!(store.aliases.len(), 1);
    assert_eq!(store.query_item_by_ean("100").unwrap().id, existing.id);
}

#[test]
fn register_collision_with_custom_item_is_refused() {
    let mut store = Store::new();
    store.create_item(None, "Granola").unwrap();
    let mut input = named_input("granola");
    input.confirm_alias = true;
    assert!(matches!(
        register(&mut store, "888", &input),
        Err(RegisterError::CustomNameCollision)
    ));
    assert_eq!(store.items.len(), 1);
    assert!(store.aliases.is_empty());
}

#[test]
fn add_mode_registers_unknown_barcode_first() {
    let mut store = Store::new();
    let r = scanned(&mut store, ScanOp::Add, "999", &named_input("Honey"));
    match r {
        Ok(ScanOutcome::Added(item, unit)) => {
            assert_eq!(item.name, "Honey");
            assert_eq!(unit.item_id, item.id);
        }
        _ => panic!("expected register-then-add"),
    }
    assert_eq!(store.items.len(), 1);
    assert_eq!(store.stock.len(), 1);

    // without a name the fallback registration fails and no unit is added
    let r = scanned(&mut store, ScanOp::Add, "1000", &no_input());
    assert!(matches!(r, Err(ScanError::Register(RegisterError::NoName))));
    assert_eq!(store.stock.len(), 1);
}

#[test]
fn remove_mode_unknown_barcode_reports_not_found() {
    let mut store = Store::new();
    let r = scanned(&mut store, ScanOp::Remove, "31337", &no_input());
    assert!(matches!(r, Err(ScanError::NotFound)));
}

#[test]
fn custom_flow_creates_item_and_labels() {
    let mut store = Store::new();
    let input = OperatorInput {
        custom_name: Some("Lasagna".to_string()),
        confirm_create: true,
        custom_count: 3,
        ..no_input()
    };
    let out = create_custom(&mut store, &input, "10/26").unwrap();
    assert_eq!(out.item.name, "Lasagna");
    assert_eq!(out.item.kind, ItemKind::Custom);
    assert_eq!(out.labels.len(), 3);
    assert_eq!(store.stock.len(), 3);
    for (label, unit) in out.labels.iter().zip(store.stock.iter()) {
        assert_eq!(label.name, "Lasagna");
        assert_eq!(label.date, "10/26");
        assert_eq!(label.code, format!("~{}|{}~", out.item.id, unit.id));
    }
}

#[test]
fn custom_flow_reuses_single_exact_match() {
    let mut store = Store::new();
    let existing = store.create_item(None, "Lasagna").unwrap();
    let input = OperatorInput {
        custom_name: Some("lasagna".to_string()),
        custom_count: 1,
        ..no_input()
    };
    let out = create_custom(&mut store, &input, "").unwrap();
    assert_eq!(out.item.id, existing.id);
    assert_eq!(store.items.len(), 1);
    assert_eq!(store.stock.len(), 1);
}

#[test]
fn custom_flow_pick_and_cancel_and_bad_choice() {
    let mut store = Store::new();
    store.create_item(None, "apple cake").unwrap();
    let banana = store.create_item(None, "banana cake").unwrap();

    let mut input = OperatorInput {
        custom_name: Some("cake".to_string()),
        custom_choice: CustomChoice::Pick(1),
        custom_count: 1,
        ..no_input()
    };
    // candidates are sorted by name: position 1 holds "banana cake"
    let out = create_custom(&mut store, &input, "").unwrap();
    assert_eq!(out.item.id, banana.id);

    input.custom_choice = CustomChoice::Pick(2);
    assert!(matches!(
        create_custom(&mut store, &input, ""),
        Err(CustomError::InvalidChoice)
    ));

    input.custom_choice = CustomChoice::Cancel;
    assert!(matches!(
        create_custom(&mut store, &input, ""),
        Err(CustomError::Aborted)
    ));
}

#[test]
fn custom_flow_refusals() {
    let mut store = Store::new();
    // no name
    assert!(matches!(
        create_custom(&mut store, &no_input(), ""),
        Err(CustomError::NoName)
    ));
    // no candidates and creation declined
    let input = OperatorInput {
        custom_name: Some("Pesto".to_string()),
        confirm_create: false,
        ..no_input()
    };
    assert!(matches!(
        create_custom(&mut store, &input, ""),
        Err(CustomError::Aborted)
    ));
    // zero count: the item is created, but no unit is added
    let input = OperatorInput {
        custom_name: Some("Pesto".to_string()),
        confirm_create: true,
        custom_count: 0,
        ..no_input()
    };
    assert!(matches!(
        create_custom(&mut store, &input, ""),
        Err(CustomError::NothingToAdd)
    ));
    assert_eq!(store.items.len(), 1);
    assert_eq!(store.stock.len(), 0);
}

#[test]
fn removal_reference_removes_the_exact_unit() {
    let mut interp = Interpreter::new();
    let mut store = Store::new();
    let input = OperatorInput {
        custom_name: Some("Quiche".to_string()),
        confirm_create: true,
        custom_count: 2,
        ..no_input()
    };
    let out = create_custom(&mut store, &input, "10/26").unwrap();
    // scanning the second label's code removes the second unit,
    // regardless of the current mode
    interp.handle_scan(&mut store, "///", &no_input(), "");
    assert_eq!(interp.mode, ScanOp::Open);
    let code = out.labels[1].code.clone();
    let second_unit = store.stock[1];
    let r = interp.handle_scan(&mut store, &code, &no_input(), "");
    assert_eq!(interp.mode, ScanOp::Open);
    assert!(matches!(r, Outcome::RemovedRef(Ok(()))));
    assert!(store.stock[1].removed_dt.is_some());
    assert!(store.stock[0].removed_dt.is_none());
    assert_eq!(store.stock[1].id, second_unit.id);

    // scanning it again is refused
    let r = interp.handle_scan(&mut store, &code, &no_input(), "");
    assert!(matches!(
        r,
        Outcome::RemovedRef(Err(RemoveRefError::NotInStock))
    ));
}

#[test]
fn removal_reference_with_unknown_item_is_refused() {
    let mut store = Store::new();
    assert!(matches!(
        remove_custom(&mut store, 12, 1),
        Err(RemoveRefError::ItemNotFound)
    ));
}

#[test]
fn lookup_decisions() {
    assert!(lookup_skipped("4061463732958"));
    assert!(!lookup_skipped("4061463732959"));

    assert_eq!(extract_product_name(0, None, None), Ok(None));
    assert_eq!(
        extract_product_name(1, Some("Vollmilch".to_string()), Some("Milk".to_string())),
        Ok(Some("Vollmilch".to_string()))
    );
    assert_eq!(
        extract_product_name(1, None, Some("Milk".to_string())),
        Ok(Some("Milk".to_string()))
    );
    assert_eq!(
        extract_product_name(1, None, None),
        Err(LookupError::NoProductName)
    );
}
