use symexrs::error::SymExError;
use symexrs::expressions::{BinOp, ConstValue, SymExpr, UnOp};
use symexrs::lower::{lower_bool_term, lower_int_term, lower_str_term, BoolTerm, IntTerm, LowerError, StrTerm};

fn v(n: &str) -> SymExpr {
    SymExpr::variable(n.to_string())
}

fn c(x: ConstValue) -> SymExpr {
    SymExpr::constant(x)
}

fn solver_message(r: Result<BoolTerm, LowerError>) -> String {
    match r {
        Err(LowerError::Error(SymExError::SolverError(m))) => m,
        other => panic!("unexpected {:?}", other),
    }
}

#[test]
fn equality_prefers_integers_then_booleans_then_strings() {
    let e = SymExpr::binary_op(BinOp::Eq, v("x"), c(ConstValue::I64(3)));
    assert!(matches!(lower_bool_term(&e), Ok(BoolTerm::IntEq(_, _))));
    let e = SymExpr::binary_op(BinOp::Eq, v("p"), c(ConstValue::Bool(true)));
    assert!(matches!(lower_bool_term(&e), Ok(BoolTerm::BoolEq(_, _))));
    let e = SymExpr::binary_op(BinOp::Ne, v("s"), c(ConstValue::String("a".to_string())));
    match lower_bool_term(&e) {
        Ok(BoolTerm::Not(inner)) => assert!(matches!(*inner, BoolTerm::StrEq(_, _))),
        other => panic!("unexpected {:?}", other),
    }
    let e = SymExpr::binary_op(BinOp::Eq, c(ConstValue::F64(1.5f64.to_bits())), c(ConstValue::I64(1)));
    assert_eq!(solver_message(lower_bool_term(&e)), "Type mismatch in equality comparison");
}

#[test]
fn orderings_lower_on_integers_only() {
    let e = SymExpr::binary_op(BinOp::Lt, v("x"), c(ConstValue::U64(10)));
    assert!(matches!(lower_bool_term(&e), Ok(BoolTerm::Lt(_, _))));
    let e = SymExpr::binary_op(BinOp::Ge, c(ConstValue::String("a".to_string())), c(ConstValue::String("b".to_string())));
    assert_eq!(
        solver_message(lower_bool_term(&e)),
        "String lexicographic comparison not yet fully implemented in Z3 Rust bindings"
    );
    let e = SymExpr::binary_op(BinOp::Le, c(ConstValue::Bool(true)), v("x"));
    assert_eq!(solver_message(lower_bool_term(&e)), "Type mismatch in less-than-or-equal comparison");
    let e = SymExpr::binary_op(BinOp::Gt, v("bad name"), v("x"));
    match lower_bool_term(&e) {
        Err(LowerError::Error(SymExError::MalformedExpression(m))) => assert_eq!(
            m,
            "Invalid variable name 'bad name': must contain only alphanumeric characters and underscores"
        ),
        other => panic!("unexpected {:?}", other),
    }
}

#[test]
fn integer_lowering_checks_constants() {
    assert!(matches!(lower_int_term(&c(ConstValue::U64(5))), Ok(IntTerm::Num(5))));
    match lower_int_term(&c(ConstValue::U64(u64::MAX))) {
        Err(LowerError::Error(SymExError::OverflowError(m))) => {
            assert_eq!(m, "U64 value 18446744073709551615 exceeds maximum i64 value")
        }
        other => panic!("unexpected {:?}", other),
    }
    match lower_int_term(&c(ConstValue::F64(f64::NAN.to_bits()))) {
        Err(LowerError::Error(SymExError::InvalidOperation(m))) => assert_eq!(m, "Cannot convert NaN to integer"),
        other => panic!("unexpected {:?}", other),
    }
    match lower_int_term(&SymExpr::binary_op(BinOp::Shl, v("x"), v("y"))) {
        Err(LowerError::Error(SymExError::SolverError(m))) => {
            assert_eq!(m, "Shift operations on integers not yet supported")
        }
        other => panic!("unexpected {:?}", other),
    }
    match lower_int_term(&SymExpr::binary_op(BinOp::Lt, v("x"), v("y"))) {
        Err(LowerError::Error(SymExError::SolverError(m))) => assert_eq!(m, "Unsupported integer operation: Lt"),
        other => panic!("unexpected {:?}", other),
    }
    assert!(matches!(lower_int_term(&SymExpr::unary_op(UnOp::Neg, v("x"))), Ok(IntTerm::Neg(_))));
}

#[test]
fn string_lowering() {
    let e = SymExpr::str_concat(v("a"), c(ConstValue::String("b".to_string())));
    assert!(matches!(lower_str_term(&e), Ok(StrTerm::Concat(_, _))));
    match lower_str_term(&c(ConstValue::String("a\0b".to_string()))) {
        Err(LowerError::Error(SymExError::SolverError(m))) => {
            assert_eq!(m, "Failed to create Z3 string literal from 'a\0b'")
        }
        other => panic!("unexpected {:?}", other),
    }
    assert!(matches!(lower_str_term(&c(ConstValue::I64(1))), Err(LowerError::NotAString(_))));
    let e = SymExpr::str_contains(v("h"), c(ConstValue::String("x".to_string())));
    assert!(matches!(lower_bool_term(&e), Ok(BoolTerm::Contains(_, _))));
    let e = SymExpr::unary_op(UnOp::Neg, v("x"));
    assert_eq!(solver_message(lower_bool_term(&e)), "Unsupported expression type for boolean conversion");
    let e = SymExpr::binary_op(BinOp::Add, v("x"), v("y"));
    assert_eq!(solver_message(lower_bool_term(&e)), "Unsupported boolean operation: Add");
}
