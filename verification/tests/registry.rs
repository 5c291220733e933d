use std::sync::Arc;
use trade_lang_core::symbols::{SymbolCategory, SymbolMetadata, SymbolRegistry, TypeSpec};
use trade_lang_core::validate::RegistryWalk;
use trade_lang_core::{DataItemHandler, ExecutorHandler, RuntimeRegistry};

struct Reads(&'static str);

impl DataItemHandler for Reads {
    fn declared_return_type(&self) -> TypeSpec {
        TypeSpec::new(self.0)
    }
}

struct Runs(Option<&'static str>);

impl ExecutorHandler for Runs {
    fn declared_return_type(&self) -> Option<TypeSpec> {
        self.0.map(TypeSpec::new)
    }
}

type Registry = RuntimeRegistry<Arc<dyn DataItemHandler>, Arc<dyn ExecutorHandler>, u8, u8>;

fn symbol(name: &str, category: SymbolCategory, returns: Option<&str>) -> SymbolMetadata {
    SymbolMetadata { name: name.to_string(), category, returns: returns.map(TypeSpec::new) }
}

fn table(symbols: Vec<SymbolMetadata>) -> SymbolRegistry {
    SymbolRegistry { symbols }
}

fn full_table() -> SymbolRegistry {
    table(vec![
        symbol("Price", SymbolCategory::DataItem, Some("Number")),
        symbol("Buy", SymbolCategory::Executor, None),
        symbol("Quote", SymbolCategory::Executor, Some("Number")),
        symbol("Timeout", SymbolCategory::Condition, None),
        symbol("NewToken", SymbolCategory::Monitor, None),
    ])
}

fn full_registry() -> Registry {
    let mut registry = Registry::new();
    registry.register_data_item("Price", Arc::new(Reads("Number")));
    registry.register_executor("Buy", Arc::new(Runs(None)));
    registry.register_executor("Quote", Arc::new(Runs(Some("Number"))));
    registry.register_condition("Timeout", 1);
    registry.register_monitor("NewToken", 2);
    registry
}

#[test]
fn registry_that_matches_is_accepted() {
    assert_eq!(full_registry().validate_against(&full_table()), Ok(()));
}

#[test]
fn empty_registry_and_empty_table_agree() {
    assert_eq!(Registry::new().validate_against(&table(vec![])), Ok(()));
    assert_eq!(Registry::default().validate_against(&table(vec![])), Ok(()));
}

#[test]
fn every_missing_handler_is_reported_by_category() {
    let outcome = Registry::new().validate_against(&full_table());
    assert_eq!(
        outcome,
        Err(vec![
            "DataItem 'Price' defined in symbol table but not implemented".to_string(),
            "Executor 'Buy' defined in symbol table but not implemented".to_string(),
            "Executor 'Quote' defined in symbol table but not implemented".to_string(),
            "Condition 'Timeout' defined in symbol table but not implemented".to_string(),
            "Monitor 'NewToken' defined in symbol table but not implemented".to_string(),
        ])
    );
}

#[test]
fn every_undefined_handler_is_reported() {
    let mut errors = full_registry().validate_against(&table(vec![])).unwrap_err();
    errors.sort();
    assert_eq!(
        errors,
        vec![
            "Condition 'Timeout' implemented but not defined in symbol table",
            "DataItem 'Price' implemented but not defined in symbol table",
            "Executor 'Buy' implemented but not defined in symbol table",
            "Executor 'Quote' implemented but not defined in symbol table",
            "Monitor 'NewToken' implemented but not defined in symbol table",
        ]
    );
}

#[test]
fn data_item_type_mismatch_is_reported() {
    let mut registry = Registry::new();
    registry.register_data_item("Price", Arc::new(Reads("Text")));
    let defined = table(vec![symbol("Price", SymbolCategory::DataItem, Some("Number"))]);
    assert_eq!(
        registry.validate_against(&defined),
        Err(vec![
            "DataItem 'Price': return type mismatch — impl declares Text, symbol table says Some(Number)"
                .to_string()
        ])
    );
    let untyped = table(vec![symbol("Price", SymbolCategory::DataItem, None)]);
    assert_eq!(
        registry.validate_against(&untyped),
        Err(vec![
            "DataItem 'Price': return type mismatch — impl declares Text, symbol table says None".to_string()
        ])
    );
}

#[test]
fn executor_type_mismatch_is_reported() {
    let mut registry = Registry::new();
    registry.register_executor("Buy", Arc::new(Runs(Some("Number"))));
    assert_eq!(
        registry.validate_against(&table(vec![symbol("Buy", SymbolCategory::Executor, None)])),
        Err(vec![
            "Executor 'Buy': return type mismatch — impl declares Some(Number), symbol table says None"
                .to_string()
        ])
    );
    registry.register_executor("Buy", Arc::new(Runs(None)));
    assert_eq!(
        registry.validate_against(&table(vec![symbol("Buy", SymbolCategory::Executor, Some("Text"))])),
        Err(vec![
            "Executor 'Buy': return type mismatch — impl declares None, symbol table says Some(Text)"
                .to_string()
        ])
    );
}

#[test]
fn a_name_in_another_category_does_not_count() {
    let mut registry = Registry::new();
    registry.register_condition("Price", 1);
    let defined = table(vec![symbol("Price", SymbolCategory::Monitor, None)]);
    assert_eq!(
        registry.validate_against(&defined),
        Err(vec![
            "Condition 'Price' implemented but not defined in symbol table".to_string(),
            "Monitor 'Price' defined in symbol table but not implemented".to_string(),
        ])
    );
}

#[test]
fn the_last_registration_of_a_name_counts() {
    let mut registry = full_registry();
    registry.register_data_item("Price", Arc::new(Reads("Text")));
    assert!(registry.validate_against(&full_table()).is_err());
    registry.register_data_item("Price", Arc::new(Reads("Number")));
    assert_eq!(registry.validate_against(&full_table()), Ok(()));
    registry.register_monitor("NewToken", 9);
    assert_eq!(registry.monitors.get("NewToken"), Some(&9));
    assert_eq!(registry.monitors.get("Timeout"), None);
    assert!(registry.conditions.contains_key("Timeout"));
    assert!(!registry.conditions.contains_key("NewToken"));
}

#[test]
fn the_order_of_the_walk_is_the_order_of_the_messages() {
    let registry = full_registry();
    let mut walk = RegistryWalk {
        data_items: vec!["Price".to_string()],
        executors: vec!["Quote".to_string(), "Buy".to_string()],
        conditions: vec!["Timeout".to_string()],
        monitors: vec!["NewToken".to_string()],
    };
    let first = registry.validate_in_order(&table(vec![]), &walk).unwrap_err();
    assert_eq!(
        first,
        vec![
            "DataItem 'Price' implemented but not defined in symbol table",
            "Executor 'Quote' implemented but not defined in symbol table",
            "Executor 'Buy' implemented but not defined in symbol table",
            "Condition 'Timeout' implemented but not defined in symbol table",
            "Monitor 'NewToken' implemented but not defined in symbol table",
        ]
    );
    walk.executors = vec!["Buy".to_string(), "Quote".to_string()];
    let mut second = registry.validate_in_order(&table(vec![]), &walk).unwrap_err();
    assert_eq!(second[1], first[2]);
    assert_eq!(second[2], first[1]);
    let mut sorted = first.clone();
    sorted.sort();
    second.sort();
    assert_eq!(second, sorted);
}

#[test]
fn a_walk_has_every_name_once() {
    let mut registry = full_registry();
    registry.register_executor("Buy", Arc::new(Runs(None)));
    let mut executors = registry.walk().executors;
    executors.sort();
    assert_eq!(executors, vec!["Buy", "Quote"]);
    assert_eq!(registry.walk().monitors, vec!["NewToken"]);
}

#[test]
fn symbols_are_found_by_name_and_category() {
    let defined = table(vec![
        symbol("A", SymbolCategory::DataItem, Some("Number")),
        symbol("B", SymbolCategory::Executor, None),
        symbol("A", SymbolCategory::DataItem, Some("Text")),
    ]);
    let found = defined.lookup("A", SymbolCategory::DataItem).unwrap();
    assert!(found.returns.as_ref().unwrap().same(&TypeSpec::new("Number")));
    assert!(defined.lookup("A", SymbolCategory::Executor).is_none());
    assert_eq!(defined.all_symbols(SymbolCategory::DataItem).len(), 2);
    assert_eq!(defined.all_symbols(SymbolCategory::Executor)[0].name, "B");
    assert!(defined.all_symbols(SymbolCategory::Monitor).is_empty());
}

#[test]
fn only_handlers_with_a_defined_symbol_are_asked() {
    struct Unasked;
    impl DataItemHandler for Unasked {
        fn declared_return_type(&self) -> TypeSpec {
            panic!("asked")
        }
    }
    let mut registry = Registry::new();
    registry.register_data_item("Price", Arc::new(Unasked));
    assert_eq!(
        registry.validate_against(&table(vec![])),
        Err(vec!["DataItem 'Price' implemented but not defined in symbol table".to_string()])
    );
}

#[test]
fn registering_a_missing_handler_takes_out_its_message() {
    let symbols = full_table();
    let mut registry = Registry::new();
    registry.register_monitor("Unknown", 1);
    let mut before = registry.validate_against(&symbols).unwrap_err();
    registry.register_data_item("Price", Arc::new(Reads("Number")));
    let mut after = registry.validate_against(&symbols).unwrap_err();
    assert_eq!(after.len() + 1, before.len());
    after.push("DataItem 'Price' defined in symbol table but not implemented".to_string());
    before.sort();
    after.sort();
    assert_eq!(before, after);
}

#[test]
fn registering_a_handler_of_another_type_trades_one_message_for_another() {
    let symbols = table(vec![symbol("Price", SymbolCategory::DataItem, Some("Number"))]);
    let mut registry = Registry::new();
    assert_eq!(registry.validate_against(&symbols).unwrap_err().len(), 1);
    registry.register_data_item("Price", Arc::new(Reads("Text")));
    let errors = registry.validate_against(&symbols).unwrap_err();
    assert_eq!(errors.len(), 1);
    assert!(errors[0] != "DataItem 'Price' defined in symbol table but not implemented");
}

#[test]
fn the_last_missing_handler_makes_the_registry_agree() {
    let symbols = full_table();
    let mut registry = Registry::new();
    registry.register_data_item("Price", Arc::new(Reads("Number")));
    registry.register_executor("Buy", Arc::new(Runs(None)));
    registry.register_executor("Quote", Arc::new(Runs(Some("Number"))));
    registry.register_condition("Timeout", 1);
    assert_eq!(
        registry.validate_against(&symbols),
        Err(vec!["Monitor 'NewToken' defined in symbol table but not implemented".to_string()])
    );
    registry.register_monitor("NewToken", 2);
    assert_eq!(registry.validate_against(&symbols), Ok(()));
}

#[test]
fn return_types_of_conditions_and_monitors_do_not_count() {
    let mut symbols = full_table();
    symbols.symbols[3].returns = Some(TypeSpec::new("Text"));
    symbols.symbols[4].returns = Some(TypeSpec::new("Number"));
    assert_eq!(full_registry().validate_against(&symbols), Ok(()));
    assert_eq!(
        Registry::new().validate_against(&symbols),
        Registry::new().validate_against(&full_table())
    );
}
