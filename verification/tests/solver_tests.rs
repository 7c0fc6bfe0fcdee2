use symexrs::error::SymExError;
use symexrs::expressions::{BinOp, ConstValue, SymExpr, UnOp};
use symexrs::lower::LowerError;
use symexrs::solver::{
    assemble_model, get_constraint_variables, infer_variable_types, model_query,
    validate_solver_constraint, CheckFailure, CheckQuery, ExtractedValue, Model, SolverState,
    SortMap, VarSort,
};

fn x_gt_0() -> SymExpr {
    SymExpr::binary_op(BinOp::Gt, SymExpr::variable("x".to_string()), SymExpr::constant(ConstValue::I64(0)))
}

#[test]
fn test_model_utility_methods() {
    let mut model = Model::new();
    assert!(model.is_empty());
    assert_eq!(model.size(), 0);

    model.assignments.insert("x".to_string(), ConstValue::I64(42));
    model.assignments.insert("y".to_string(), ConstValue::Bool(true));
    model.assignments.insert("z".to_string(), ConstValue::U64(100));

    assert!(!model.is_empty());
    assert_eq!(model.size(), 3);

    assert!(model.contains_variable("x"));
    assert!(model.contains_variable("y"));
    assert!(model.contains_variable("z"));
    assert!(!model.contains_variable("w"));

    assert_eq!(model.get_int_value("x"), Some(42));
    assert_eq!(model.get_bool_value("y"), Some(true));
    assert_eq!(model.get_int_value("z"), Some(100));

    let variables = model.get_variables();
    assert_eq!(variables, vec!["x".to_string(), "y".to_string(), "z".to_string()]);
}

#[test]
fn test_model_type_conversions() {
    let mut model = Model::new();
    model.assignments.insert("i32_var".to_string(), ConstValue::I32(-10));
    model.assignments.insert("u8_var".to_string(), ConstValue::U8(255));
    model.assignments.insert("i64_var".to_string(), ConstValue::I64(-1000));

    assert_eq!(model.get_int_value("i32_var"), Some(-10));
    assert_eq!(model.get_int_value("u8_var"), Some(255));
    assert_eq!(model.get_int_value("i64_var"), Some(-1000));

    model.assignments.insert("bool_var".to_string(), ConstValue::Bool(true));
    assert_eq!(model.get_int_value("bool_var"), None);
    assert_eq!(model.get_bool_value("bool_var"), Some(true));
}

#[test]
fn model_casts_like_as() {
    let mut model = Model::new();
    model.assignments.insert("a".to_string(), ConstValue::I64(-1));
    model.assignments.insert("s".to_string(), ConstValue::String("hi".to_string()));
    assert_eq!(model.get_u64("a"), Some(u64::MAX));
    assert_eq!(model.get_u8("a"), Some(255));
    assert_eq!(model.get_u32("a"), Some(u32::MAX));
    assert_eq!(model.get_i32("a"), Some(-1));
    assert_eq!(model.get_string("s"), Some("hi".to_string()));
    assert_eq!(model.get_string_value("a"), None);
    assert_eq!(model.get_value("s"), Some(&ConstValue::String("hi".to_string())));
}

#[test]
fn test_solver_state_management() {
    let mut solver = SolverState::new(None);
    assert_eq!(solver.get_assertion_level(), 0);
    assert_eq!(solver.get_constraint_count(), 0);

    solver.push();
    assert_eq!(solver.get_assertion_level(), 1);
    solver.push();
    solver.push();
    assert_eq!(solver.get_assertion_level(), 3);

    assert!(solver.pop().is_ok());
    assert_eq!(solver.get_assertion_level(), 2);
    solver.pop().unwrap();
    solver.pop().unwrap();
    assert_eq!(solver.get_assertion_level(), 0);

    let underflow_result = solver.pop();
    assert!(matches!(underflow_result.unwrap_err(), SymExError::StackUnderflow));
}

#[test]
fn test_constraint_assertion_and_state() {
    let mut solver = SolverState::new(None);
    let x = SymExpr::variable("x".to_string());
    let constraint1 = x_gt_0();
    let constraint2 = SymExpr::binary_op(BinOp::Lt, x, SymExpr::constant(ConstValue::I64(10)));

    assert!(solver.assert_constraint(constraint1.clone()).is_ok());
    assert_eq!(solver.get_constraint_count(), 1);
    assert!(solver.assert_constraint(constraint2.clone()).is_ok());
    assert_eq!(solver.get_constraint_count(), 2);

    let stored_constraints = solver.get_asserted_constraints();
    assert_eq!(stored_constraints.len(), 2);
    assert_eq!(stored_constraints[0], constraint1);
    assert_eq!(stored_constraints[1], constraint2);

    match solver.prepare_check(&[]) {
        Ok(CheckQuery::Query(terms)) => assert_eq!(terms.len(), 2),
        other => panic!("unexpected {:?}", other),
    }
}

#[test]
fn test_solver_state_reset() {
    let mut solver = SolverState::new(None);
    solver.push();
    solver.push();
    solver.assert_constraint(x_gt_0()).unwrap();
    assert_eq!(solver.get_assertion_level(), 2);
    assert_eq!(solver.get_constraint_count(), 1);

    solver.reset();
    assert_eq!(solver.get_assertion_level(), 0);
    assert_eq!(solver.get_constraint_count(), 0);
    assert!(solver.get_asserted_constraints().is_empty());
}

#[test]
fn test_empty_constraint_satisfiability() {
    let mut solver = SolverState::new(None);
    assert!(matches!(solver.prepare_check(&[]), Ok(CheckQuery::Trivial)));
    solver.push();
    solver.pop().unwrap();
    assert!(matches!(solver.prepare_check(&[]), Ok(CheckQuery::Trivial)));
}

#[test]
fn test_error_handling_invalid_variable_names() {
    let mut solver = SolverState::new(None);
    let constraint = SymExpr::binary_op(BinOp::Gt, SymExpr::variable("".to_string()), SymExpr::constant(ConstValue::I64(0)));
    let result = solver.assert_constraint(constraint);
    assert!(matches!(result.unwrap_err(), LowerError::Error(SymExError::MalformedExpression(_))));

    let constraint2 = SymExpr::binary_op(BinOp::Gt, SymExpr::variable("x@#$".to_string()), SymExpr::constant(ConstValue::I64(0)));
    let result2 = solver.assert_constraint(constraint2);
    assert!(matches!(result2.unwrap_err(), LowerError::Error(SymExError::MalformedExpression(_))));
}

#[test]
fn test_error_handling_type_mismatches() {
    let mut solver = SolverState::new(None);
    let float_const = SymExpr::constant(ConstValue::F64(3.14f64.to_bits()));
    let constraint = SymExpr::binary_op(BinOp::Add, SymExpr::variable("x".to_string()), float_const);
    let result = solver.assert_constraint(constraint);
    assert!(matches!(result.unwrap_err(), LowerError::Error(SymExError::SolverError(_))));
}

#[test]
fn test_error_handling_nan_and_infinity() {
    let mut solver = SolverState::new(None);
    let var = SymExpr::variable("x".to_string());
    let constraint = SymExpr::binary_op(BinOp::Add, var.clone(), SymExpr::constant(ConstValue::F64(f64::NAN.to_bits())));
    assert!(matches!(solver.assert_constraint(constraint).unwrap_err(), LowerError::Error(SymExError::SolverError(_))));
    let constraint2 = SymExpr::binary_op(BinOp::Add, var, SymExpr::constant(ConstValue::F64(f64::INFINITY.to_bits())));
    assert!(matches!(solver.assert_constraint(constraint2).unwrap_err(), LowerError::Error(SymExError::SolverError(_))));
}

#[test]
fn test_error_handling_stack_underflow() {
    let mut solver = SolverState::new(None);
    assert!(matches!(solver.pop().unwrap_err(), SymExError::StackUnderflow));
    solver.push();
    assert!(solver.pop().is_ok());
    assert!(matches!(solver.pop().unwrap_err(), SymExError::StackUnderflow));
}

#[test]
fn test_error_handling_resource_limits() {
    let mut deep_expr = SymExpr::variable("x".to_string());
    for _i in 0..150 {
        deep_expr = SymExpr::unary_op(UnOp::Neg, deep_expr);
    }
    let result = validate_solver_constraint(&deep_expr);
    assert!(matches!(result.unwrap_err(), SymExError::ResourceExhaustion(_)));
}

#[test]
fn test_error_recovery_mechanisms() {
    let mut solver = SolverState::new(None);
    assert!(solver.attempt_error_recovery(&SymExError::SolverTimeout).is_ok());
    let corruption_error = SymExError::StateCorruption("test corruption".to_string());
    assert!(solver.attempt_error_recovery(&corruption_error).is_ok());
    assert_eq!(solver.get_assertion_level(), 0);
    assert_eq!(solver.get_constraint_count(), 0);
}

#[test]
fn test_constraint_validation() {
    assert!(validate_solver_constraint(&x_gt_0()).is_ok());
    let mut complex_expr = SymExpr::variable("x".to_string());
    for _ in 0..50 {
        complex_expr = SymExpr::binary_op(BinOp::Add, complex_expr, SymExpr::variable("y".to_string()));
    }
    assert!(validate_solver_constraint(&complex_expr).is_ok());
}

#[test]
fn test_constraint_variables_extraction() {
    let x = SymExpr::variable("x".to_string());
    let y = SymExpr::variable("y".to_string());
    let z = SymExpr::variable("z".to_string());
    let zero = SymExpr::constant(ConstValue::I64(0));
    let constraint1 = SymExpr::binary_op(BinOp::Gt, x.clone(), zero);
    let constraint2 = SymExpr::binary_op(BinOp::Add, y, z);
    let constraint3 = SymExpr::binary_op(BinOp::Eq, x, constraint2);
    let variables = get_constraint_variables(&[constraint1, constraint3]);
    assert_eq!(variables, vec!["x".to_string(), "y".to_string(), "z".to_string()]);
}

#[test]
fn test_timeout_configuration() {
    let solver = SolverState::new(None);
    assert_eq!(solver.get_timeout(), None);
    let solver_with_timeout = SolverState::new(Some(5000));
    assert_eq!(solver_with_timeout.get_timeout(), Some(5000));
}

#[test]
fn test_set_timeout() {
    let mut solver = SolverState::new(None);
    assert_eq!(solver.get_timeout(), None);
    solver.set_timeout(Some(3000));
    assert_eq!(solver.get_timeout(), Some(3000));
    solver.set_timeout(None);
    assert_eq!(solver.get_timeout(), None);
}

#[test]
fn test_timeout_preserved_after_reset() {
    let mut solver = SolverState::new(Some(2000));
    assert_eq!(solver.get_timeout(), Some(2000));
    solver.reset();
    assert_eq!(solver.get_timeout(), Some(2000));
}

#[test]
fn pop_restores_the_constraints_saved_by_push() {
    let mut solver = SolverState::new(None);
    solver.assert_constraint(x_gt_0()).unwrap();
    solver.push();
    solver.assert_constraint(SymExpr::binary_op(BinOp::Lt, SymExpr::variable("x".to_string()), SymExpr::constant(ConstValue::I64(9)))).unwrap();
    assert_eq!(solver.get_constraint_count(), 2);
    solver.pop().unwrap();
    assert_eq!(solver.get_asserted_constraints(), vec![x_gt_0()]);
}

#[test]
fn prepare_check_reports_invalid_and_unlowerable_constraints() {
    let mut solver = SolverState::new(None);
    let mut deep = SymExpr::variable("x".to_string());
    for _ in 0..120 {
        deep = SymExpr::unary_op(UnOp::Not, deep);
    }
    match solver.prepare_check(&[x_gt_0(), deep]) {
        Err(CheckFailure::Invalid { index, error: SymExError::ResourceExhaustion(_) }) => assert_eq!(index, 1),
        other => panic!("unexpected {:?}", other),
    }
    let add = SymExpr::binary_op(BinOp::Add, SymExpr::variable("x".to_string()), SymExpr::constant(ConstValue::I64(1)));
    match solver.prepare_check(&[x_gt_0(), add]) {
        Err(CheckFailure::Unlowerable { index, .. }) => assert_eq!(index, 1),
        other => panic!("unexpected {:?}", other),
    }
}

#[test]
fn sorts_are_inferred_from_uses() {
    let mut types = SortMap::new();
    let e = SymExpr::binary_op(
        BinOp::BitAnd,
        SymExpr::variable("p".to_string()),
        SymExpr::str_contains(SymExpr::variable("s".to_string()), SymExpr::constant(ConstValue::String("x".to_string()))),
    );
    infer_variable_types(&e, &mut types);
    assert_eq!(types.get("p"), Some(&VarSort::Bool));
    assert_eq!(types.get("s"), Some(&VarSort::String));
    assert_eq!(types.get("q"), None);
}

#[test]
fn models_keep_the_value_of_the_inferred_sort() {
    let cs = vec![
        SymExpr::binary_op(BinOp::Eq, SymExpr::variable("s".to_string()), SymExpr::constant(ConstValue::String("a".to_string()))),
        x_gt_0(),
    ];
    let q = model_query(&cs).unwrap();
    assert_eq!(q.variables, vec!["s".to_string(), "x".to_string()]);
    assert_eq!(q.terms.len(), 2);
    let values = vec![
        ExtractedValue { as_int: Some(0), as_bool: Some(false), as_string: Some("a".to_string()) },
        ExtractedValue { as_int: None, as_bool: Some(true), as_string: None },
    ];
    let m = assemble_model(&q.variables, &q.sorts, &values);
    assert_eq!(m.get_value("s"), Some(&ConstValue::String("a".to_string())));
    assert_eq!(m.get_value("x"), Some(&ConstValue::Bool(true)));
}
