use symexrs::error::SymExError;
use symexrs::expressions::{BinOp, ConstValue, SymExpr, UnOp};
use symexrs::manager::{is_valid_variable_name, SymExManager, TypeInfo};
use symexrs::name_map::NameMap;
use symexrs::solver::{Model, SatResult};
use symexrs::trace_text::format_variables;

fn u64_info() -> TypeInfo {
    TypeInfo { type_label: "u64".to_string(), bit_width: Some(64), is_signed: false, creation_site: None }
}

#[test]
fn registers_and_rejects_duplicates() {
    let mut m = SymExManager::new();
    m.register_variable("x".to_string(), u64_info()).unwrap();
    let err = m.register_variable("x".to_string(), u64_info()).unwrap_err();
    assert!(matches!(err, SymExError::DuplicateVariable(_)));
}

#[test]
fn rejects_unbound_variables_in_constraints() {
    let mut m = SymExManager::new();
    let c = SymExpr::binary_op(BinOp::Eq, SymExpr::Variable("x".to_string()), SymExpr::Constant(ConstValue::U64(0)));
    let err = m.add_constraint(c).unwrap_err();
    assert!(matches!(err, SymExError::UnboundVariable(_)));
}

#[test]
fn variable_names_and_fresh_names() {
    assert!(is_valid_variable_name("_a9"));
    assert!(!is_valid_variable_name("9a"));
    assert!(!is_valid_variable_name(""));
    assert!(!is_valid_variable_name("a-b"));
    let mut m = SymExManager::new();
    assert_eq!(m.fresh_variable("u64"), "u64_0");
    assert_eq!(m.fresh_variable("bool"), "bool_1");
    match m.register_variable("a b".to_string(), u64_info()) {
        Err(SymExError::InvalidOperation(msg)) => assert_eq!(msg, "Invalid variable name: a b"),
        other => panic!("unexpected {:?}", other),
    }
    m.register_string_variable("s".to_string()).unwrap();
    assert_eq!(m.get_variable_info("s").unwrap().type_label, "string");
    m.register_variable("b".to_string(), u64_info()).unwrap();
    assert_eq!(m.get_registered_variables(), vec!["b".to_string(), "s".to_string()]);
}

#[test]
fn unbound_variable_reported_is_the_least_name() {
    let mut m = SymExManager::new();
    m.register_variable("b".to_string(), u64_info()).unwrap();
    let c = SymExpr::binary_op(
        BinOp::Eq,
        SymExpr::binary_op(BinOp::Add, SymExpr::variable("z".to_string()), SymExpr::variable("b".to_string())),
        SymExpr::variable("c".to_string()),
    );
    match m.add_constraint(c) {
        Err(SymExError::UnboundVariable(v)) => assert_eq!(v, "c"),
        other => panic!("unexpected {:?}", other),
    }
    assert!(m.get_constraints().is_empty());
}

#[test]
fn caches_answer_repeated_queries() {
    let mut m = SymExManager::new();
    m.register_variable("x".to_string(), u64_info()).unwrap();
    let c = SymExpr::binary_op(BinOp::Gt, SymExpr::variable("x".to_string()), SymExpr::constant(ConstValue::U64(3)));
    m.add_constraint(c.clone()).unwrap();
    let cs = vec![c];
    assert_eq!(m.lookup_sat(&cs), None);
    m.store_sat(&cs, SatResult::Sat);
    assert_eq!(m.lookup_sat(&cs), Some(true));
    m.store_sat(&cs, SatResult::Unsat);
    assert_eq!(m.lookup_sat(&cs), Some(false));
    let stats = m.get_cache_stats();
    assert_eq!((stats.sat_cache_size, stats.cache_hits, stats.cache_misses), (1, 2, 1));

    let mut model = Model::new();
    model.assignments.insert("x".to_string(), ConstValue::U64(4));
    assert!(m.lookup_model(&cs).is_none());
    m.store_model(&cs, Some(model));
    let found = m.lookup_model(&cs).unwrap().unwrap();
    assert_eq!(found.get_u64("x"), Some(4));

    m.clear_constraints();
    assert!(m.get_constraints().is_empty());
    assert_eq!(m.get_cache_stats().sat_cache_size, 0);
}

#[test]
fn nan_constraints_never_hit_the_cache() {
    let mut m = SymExManager::new();
    let nan = SymExpr::constant(ConstValue::F64(f64::NAN.to_bits()));
    let cs = vec![SymExpr::binary_op(BinOp::Eq, nan.clone(), nan)];
    m.store_sat(&cs, SatResult::Sat);
    assert_eq!(m.lookup_sat(&cs), None);
    m.store_sat(&cs, SatResult::Sat);
    assert_eq!(m.get_cache_stats().sat_cache_size, 1);
}

#[test]
fn fast_concrete_check() {
    let mut m = SymExManager::new();
    m.register_variable("x".to_string(), u64_info()).unwrap();
    m.register_variable("y".to_string(), u64_info()).unwrap();
    let x = SymExpr::variable("x".to_string());
    let y = SymExpr::variable("y".to_string());
    m.add_constraint(SymExpr::binary_op(BinOp::Lt, SymExpr::binary_op(BinOp::Add, x.clone(), y.clone()), SymExpr::constant(ConstValue::U64(10)))).unwrap();
    m.add_constraint(SymExpr::unary_op(UnOp::Not, SymExpr::binary_op(BinOp::Eq, x.clone(), y.clone()))).unwrap();
    let mut vals = NameMap::new();
    vals.insert("x".to_string(), 3u64);
    vals.insert("y".to_string(), 4u64);
    assert_eq!(m.fast_check_satisfiable_with_concrete(&vals), Some(true));
    vals.insert("y".to_string(), 3u64);
    assert_eq!(m.fast_check_satisfiable_with_concrete(&vals), Some(false));
    let partial: NameMap<u64> = NameMap::new();
    assert_eq!(m.fast_check_satisfiable_with_concrete(&partial), None);
}

#[test]
fn reset_forgets_everything() {
    let mut m = SymExManager::new();
    m.register_variable("x".to_string(), u64_info()).unwrap();
    let _ = m.fresh_variable("u64");
    m.reset();
    assert!(m.get_registered_variables().is_empty());
    assert_eq!(m.fresh_variable("u64"), "u64_0");
}

#[test]
fn variables_text_lists_names_in_order() {
    let mut m = SymExManager::new();
    assert_eq!(format_variables(&m), "Symbolic Variables:\n-------------------\n  (no variables registered)\n");
    m.register_variable("y".to_string(), u64_info()).unwrap();
    m.register_variable(
        "a".to_string(),
        TypeInfo {
            type_label: "i32".to_string(),
            bit_width: Some(32),
            is_signed: true,
            creation_site: Some("main.rs:3".to_string()),
        },
    )
    .unwrap();
    m.register_variable("s".to_string(), TypeInfo::string(None)).unwrap();
    assert_eq!(
        format_variables(&m),
        "Symbolic Variables:\n-------------------\n  a: i32 (32 bits, signed) [created at: main.rs:3]\n  s: string\n  y: u64 (64 bits, unsigned)\n"
    );
}
