use symexrs::error::SymExError;
use symexrs::expressions::{BinOp, ConstValue, ExpressionTable, SymExpr, UnOp};

fn f64c(x: f64) -> ConstValue {
    ConstValue::F64(x.to_bits())
}

#[test]
fn test_basic_expression_construction() {
    let var = SymExpr::variable("x".to_string());
    assert!(var.is_variable());
    assert_eq!(var.as_variable(), Some(&"x".to_string()));

    let const_expr = SymExpr::constant(ConstValue::U64(42));
    assert!(const_expr.is_constant());
    assert_eq!(const_expr.as_constant(), Some(&ConstValue::U64(42)));

    let add_expr = SymExpr::binary_op(BinOp::Add, var.clone(), const_expr.clone());
    assert!(!add_expr.is_constant());
    assert!(!add_expr.is_variable());
}

#[test]
fn test_const_value_type_queries() {
    assert!(ConstValue::U64(42).is_numeric());
    assert!(ConstValue::U64(42).is_integer());
    assert!(!ConstValue::U64(42).is_float());

    assert!(f64c(3.14).is_numeric());
    assert!(!f64c(3.14).is_integer());
    assert!(f64c(3.14).is_float());

    assert!(!ConstValue::Bool(true).is_numeric());
    assert!(!ConstValue::Bool(true).is_integer());
    assert!(!ConstValue::Bool(true).is_float());
}

#[test]
fn test_smt_lib_serialization() {
    let var = SymExpr::variable("x".to_string());
    assert_eq!(var.to_smt_lib(), "x");

    let const_expr = SymExpr::constant(ConstValue::I64(42));
    assert_eq!(const_expr.to_smt_lib(), "42");

    let add_expr = SymExpr::binary_op(BinOp::Add, var.clone(), const_expr.clone());
    assert_eq!(add_expr.to_smt_lib(), "(+ x 42)");

    let neg_expr = SymExpr::unary_op(UnOp::Neg, var.clone());
    assert_eq!(neg_expr.to_smt_lib(), "(- x)");

    let cond = SymExpr::constant(ConstValue::Bool(true));
    let conditional = SymExpr::conditional(cond, var.clone(), const_expr.clone());
    assert_eq!(conditional.to_smt_lib(), "(ite true x 42)");
}

#[test]
fn test_smt_declarations() {
    let var1 = SymExpr::variable("x".to_string());
    let var2 = SymExpr::variable("y".to_string());
    let expr = SymExpr::binary_op(BinOp::Add, var1, var2);

    let declarations = expr.get_smt_declarations();
    assert_eq!(declarations.len(), 2);
    assert!(declarations.contains(&"(declare-fun x () Int)".to_string()));
    assert!(declarations.contains(&"(declare-fun y () Int)".to_string()));
}

#[test]
fn test_smt_script_generation() {
    let var = SymExpr::variable("x".to_string());
    let const_expr = SymExpr::constant(ConstValue::I64(0));
    let expr = SymExpr::binary_op(BinOp::Gt, var, const_expr);

    let script = expr.to_smt_script();
    assert!(script.contains("(set-logic QF_LIA)"));
    assert!(script.contains("(declare-fun x () Int)"));
    assert!(script.contains("(assert (> x 0))"));
    assert!(script.contains("(check-sat)"));
    assert!(script.contains("(get-model)"));
}

#[test]
fn test_const_value_smt_lib() {
    assert_eq!(ConstValue::I64(42).to_smt_lib(), "42");
    assert_eq!(ConstValue::Bool(true).to_smt_lib(), "true");
    assert_eq!(ConstValue::Bool(false).to_smt_lib(), "false");
    assert_eq!(ConstValue::U64(100).to_smt_lib(), "100");
}

#[test]
fn test_constant_folding() {
    let expr = SymExpr::binary_op(
        BinOp::Add,
        SymExpr::constant(ConstValue::I64(2)),
        SymExpr::constant(ConstValue::I64(3)),
    );
    let simplified = expr.simplify();
    assert_eq!(simplified, SymExpr::constant(ConstValue::I64(5)));

    let expr = SymExpr::binary_op(
        BinOp::Mul,
        SymExpr::variable("x".to_string()),
        SymExpr::constant(ConstValue::I64(0)),
    );
    let simplified = expr.simplify();
    assert_eq!(simplified, SymExpr::constant(ConstValue::I64(0)));

    let var = SymExpr::variable("x".to_string());
    let expr = SymExpr::binary_op(BinOp::Add, var.clone(), SymExpr::constant(ConstValue::I64(0)));
    let simplified = expr.simplify();
    assert_eq!(simplified, var);
}

#[test]
fn test_algebraic_simplification() {
    let var = SymExpr::variable("x".to_string());

    let expr = SymExpr::binary_op(BinOp::Sub, var.clone(), var.clone());
    assert_eq!(expr.simplify(), SymExpr::constant(ConstValue::I64(0)));

    let expr = SymExpr::binary_op(BinOp::BitXor, var.clone(), var.clone());
    assert_eq!(expr.simplify(), SymExpr::constant(ConstValue::U64(0)));

    let expr = SymExpr::binary_op(BinOp::BitAnd, var.clone(), var.clone());
    assert_eq!(expr.simplify(), var);
}

#[test]
fn test_double_negation_elimination() {
    let var = SymExpr::variable("x".to_string());
    let neg_var = SymExpr::unary_op(UnOp::Neg, var.clone());
    let double_neg = SymExpr::unary_op(UnOp::Neg, neg_var);
    assert_eq!(double_neg.simplify(), var);
}

#[test]
fn test_conditional_simplification() {
    let var = SymExpr::variable("x".to_string());
    let const_42 = SymExpr::constant(ConstValue::I64(42));

    let expr = SymExpr::conditional(SymExpr::constant(ConstValue::Bool(true)), var.clone(), const_42.clone());
    assert_eq!(expr.simplify(), var);

    let expr = SymExpr::conditional(SymExpr::constant(ConstValue::Bool(false)), var.clone(), const_42.clone());
    assert_eq!(expr.simplify(), const_42);

    let cond = SymExpr::variable("cond".to_string());
    let expr = SymExpr::conditional(cond, var.clone(), var.clone());
    assert_eq!(expr.simplify(), var);
}

#[test]
fn test_is_simplified() {
    let var = SymExpr::variable("x".to_string());
    assert!(var.is_simplified());

    let expr = SymExpr::binary_op(BinOp::Add, var.clone(), SymExpr::constant(ConstValue::I64(0)));
    assert!(!expr.is_simplified());

    let simplified = expr.simplify();
    assert!(simplified.is_simplified());
}

#[test]
fn test_precedence_specific_cases() {
    let expr = SymExpr::binary_op(
        BinOp::Add,
        SymExpr::constant(ConstValue::I64(2)),
        SymExpr::binary_op(
            BinOp::Mul,
            SymExpr::constant(ConstValue::I64(3)),
            SymExpr::constant(ConstValue::I64(4)),
        ),
    );
    assert_eq!(expr.simplify(), SymExpr::constant(ConstValue::I64(14)));
    assert!(BinOp::Mul.precedence() > BinOp::Add.precedence());
    assert!(BinOp::Shl.precedence() < BinOp::Mul.precedence());
    assert!(BinOp::Lt.precedence() < BinOp::Add.precedence());
}

#[test]
fn test_const_value_conversions() {
    let val = ConstValue::U64(42);
    assert_eq!(val.as_u64(), Some(42));
    assert_eq!(val.as_i64(), Some(42));
    assert_eq!(val.as_u32(), Some(42));
    assert_eq!(val.as_i32(), Some(42));
    assert_eq!(val.as_u8(), Some(42));
    assert_eq!(val.as_bool(), None);

    let val = ConstValue::I64(-10);
    assert_eq!(val.as_i64(), Some(-10));
    assert_eq!(val.as_u64(), Some(-10i64 as u64));
    assert_eq!(val.as_i32(), Some(-10));

    let val = ConstValue::U32(100);
    assert_eq!(val.as_u32(), Some(100));
    assert_eq!(val.as_u64(), Some(100));
    assert_eq!(val.as_i64(), Some(100));

    let val = ConstValue::I32(-5);
    assert_eq!(val.as_i32(), Some(-5));
    assert_eq!(val.as_i64(), Some(-5));

    let val = ConstValue::U8(255);
    assert_eq!(val.as_u8(), Some(255));
    assert_eq!(val.as_u32(), Some(255));
    assert_eq!(val.as_u64(), Some(255));

    let val = f64c(3.14);
    assert_eq!(val.as_u64(), Some(3));
    assert_eq!(val.as_i64(), Some(3));

    let val = ConstValue::F32(2.5f32.to_bits());
    assert_eq!(val.as_u32(), Some(2));

    let val = ConstValue::Bool(true);
    assert_eq!(val.as_bool(), Some(true));
    assert_eq!(val.as_u64(), None);
    assert_eq!(val.as_i64(), None);

    let val = ConstValue::U64(300);
    assert_eq!(val.as_u8(), Some(44));

    let val = ConstValue::U32(u32::MAX);
    assert_eq!(val.as_u32(), Some(u32::MAX));
    assert_eq!(val.as_u64(), Some(u32::MAX as u64));
    assert_eq!(val.as_u8(), Some(255));
}

#[test]
fn test_string_validation_negative_index() {
    let string = SymExpr::Constant(ConstValue::String("hello".to_string()));
    let expr = SymExpr::str_substring(string, SymExpr::Constant(ConstValue::I64(-1)), SymExpr::Constant(ConstValue::I64(2)));
    let result = expr.validate_string_operations();
    assert!(matches!(result.unwrap_err(), SymExError::InvalidStringOperation(_)));
}

#[test]
fn test_string_validation_negative_length() {
    let string = SymExpr::Constant(ConstValue::String("hello".to_string()));
    let expr = SymExpr::str_substring(string, SymExpr::Constant(ConstValue::I64(0)), SymExpr::Constant(ConstValue::I64(-5)));
    let result = expr.validate_string_operations();
    assert!(matches!(result.unwrap_err(), SymExError::InvalidStringOperation(_)));
}

#[test]
fn test_string_validation_empty_pattern() {
    let string = SymExpr::Constant(ConstValue::String("hello".to_string()));
    let empty_pattern = SymExpr::Constant(ConstValue::String("".to_string()));
    let replacement = SymExpr::Constant(ConstValue::String("x".to_string()));

    let expr = SymExpr::str_replace(string.clone(), empty_pattern.clone(), replacement.clone());
    assert!(matches!(expr.validate_string_operations().unwrap_err(), SymExError::EmptyPatternError));

    let expr2 = SymExpr::str_replace_all(string, empty_pattern, replacement);
    assert!(matches!(expr2.validate_string_operations().unwrap_err(), SymExError::EmptyPatternError));
}

#[test]
fn test_string_validation_char_at_negative_index() {
    let string = SymExpr::Constant(ConstValue::String("hello".to_string()));
    let expr = SymExpr::str_at(string, SymExpr::Constant(ConstValue::I32(-1)));
    assert!(matches!(expr.validate_string_operations().unwrap_err(), SymExError::InvalidStringOperation(_)));
}

#[test]
fn test_string_validation_index_of_negative_offset() {
    let haystack = SymExpr::Constant(ConstValue::String("hello world".to_string()));
    let needle = SymExpr::Constant(ConstValue::String("world".to_string()));
    let expr = SymExpr::str_index_of(haystack, needle, SymExpr::Constant(ConstValue::I64(-1)));
    assert!(matches!(expr.validate_string_operations().unwrap_err(), SymExError::InvalidStringOperation(_)));
}

#[test]
fn test_string_validation_valid_operations() {
    let string = SymExpr::Constant(ConstValue::String("hello".to_string()));
    let expr = SymExpr::str_substring(string, SymExpr::Constant(ConstValue::I64(0)), SymExpr::Constant(ConstValue::I64(3)));
    assert!(expr.validate_string_operations().is_ok());
}

#[test]
fn test_ascii_validation_valid() {
    let expr = SymExpr::Constant(ConstValue::String("Hello, World!".to_string()));
    assert!(expr.validate_ascii().is_ok());
}

#[test]
fn test_ascii_validation_non_ascii() {
    let expr = SymExpr::Constant(ConstValue::String("Hello, 世界!".to_string()));
    match expr.validate_ascii().unwrap_err() {
        SymExError::NonAsciiCharacter { character, position } => {
            assert_eq!(character, '世');
            assert_eq!(position, 7);
        }
        _ => panic!("Expected NonAsciiCharacter error"),
    }
}

#[test]
fn test_expression_depth_limit() {
    let mut expr = SymExpr::Constant(ConstValue::String("x".to_string()));
    for _ in 0..101 {
        expr = SymExpr::str_concat(expr.clone(), SymExpr::Constant(ConstValue::String("y".to_string())));
    }
    assert!(matches!(expr.validate_string_operations().unwrap_err(), SymExError::ResourceExhaustion(_)));
}

#[test]
fn test_expression_complexity_limit() {
    let mut expr = SymExpr::Constant(ConstValue::String("x".to_string()));
    for _ in 0..100 {
        let mut temp = SymExpr::Constant(ConstValue::String("a".to_string()));
        for _ in 0..100 {
            temp = SymExpr::str_concat(temp, SymExpr::Constant(ConstValue::String("b".to_string())));
        }
        expr = SymExpr::str_concat(expr, temp);
    }
    assert!(matches!(expr.validate_string_operations().unwrap_err(), SymExError::ResourceExhaustion(_)));
}

#[test]
fn simplify_folds_string_operations_on_constants() {
    let s = |t: &str| SymExpr::constant(ConstValue::String(t.to_string()));
    let e = SymExpr::str_substring(s("hello"), SymExpr::constant(ConstValue::I64(1)), SymExpr::constant(ConstValue::I64(3)));
    assert_eq!(e.simplify(), s("ell"));
    let e = SymExpr::str_at(s("héllo"), SymExpr::constant(ConstValue::U64(1)));
    assert_eq!(e.simplify(), s("é"));
    let e = SymExpr::str_index_of(s("hello world"), s("o"), SymExpr::constant(ConstValue::U64(5)));
    assert_eq!(e.simplify(), SymExpr::constant(ConstValue::I32(7)));
    let e = SymExpr::str_index_of(s("hello"), s("z"), SymExpr::constant(ConstValue::U64(0)));
    assert_eq!(e.simplify(), SymExpr::constant(ConstValue::I32(-1)));
    let e = SymExpr::str_replace(s("aXbXc"), s("X"), s("--"));
    assert_eq!(e.simplify(), s("a--bXc"));
    let e = SymExpr::str_replace_all(s("aXbXc"), s("X"), s("--"));
    assert_eq!(e.simplify(), s("a--b--c"));
    let e = SymExpr::str_replace_all(s("ab"), s(""), s("-"));
    assert_eq!(e.simplify(), s("-a-b-"));
    let e = SymExpr::str_contains(s("hello"), s("ell"));
    assert_eq!(e.simplify(), SymExpr::constant(ConstValue::Bool(true)));
    let e = SymExpr::str_prefix_of(s("he"), s("hello"));
    assert_eq!(e.simplify(), SymExpr::constant(ConstValue::Bool(true)));
    let e = SymExpr::str_suffix_of(s("he"), s("hello"));
    assert_eq!(e.simplify(), SymExpr::constant(ConstValue::Bool(false)));
    let e = SymExpr::str_concat(s("ab"), s("cd"));
    assert_eq!(e.simplify(), s("abcd"));
    let e = SymExpr::str_lex_lt(s("abc"), s("abd"));
    assert_eq!(e.simplify(), SymExpr::constant(ConstValue::Bool(true)));
    let e = SymExpr::str_lex_le(s("b"), s("a"));
    assert_eq!(e.simplify(), SymExpr::constant(ConstValue::Bool(false)));
}

#[test]
fn simplify_folds_arithmetic_and_keeps_what_it_cannot_fold() {
    let x = SymExpr::variable("x".to_string());
    let e = SymExpr::binary_op(BinOp::Div, SymExpr::constant(ConstValue::I64(-7)), SymExpr::constant(ConstValue::I64(2)));
    assert_eq!(e.simplify(), SymExpr::constant(ConstValue::I64(-3)));
    let e = SymExpr::binary_op(BinOp::Div, SymExpr::constant(ConstValue::I64(7)), SymExpr::constant(ConstValue::I64(0)));
    assert_eq!(e.simplify(), e);
    let e = SymExpr::binary_op(BinOp::Lt, SymExpr::constant(ConstValue::I64(1)), SymExpr::constant(ConstValue::I64(2)));
    assert_eq!(e.simplify(), SymExpr::constant(ConstValue::Bool(true)));
    let e = SymExpr::binary_op(BinOp::BitOr, SymExpr::constant(ConstValue::U64(12)), SymExpr::constant(ConstValue::U64(3)));
    assert_eq!(e.simplify(), SymExpr::constant(ConstValue::U64(15)));
    let nan = f64c(f64::NAN);
    let e = SymExpr::binary_op(BinOp::Eq, SymExpr::constant(nan.clone()), SymExpr::constant(nan));
    assert_eq!(e.simplify(), SymExpr::constant(ConstValue::Bool(true)));
    let e = SymExpr::unary_op(UnOp::Not, SymExpr::constant(ConstValue::Bool(true)));
    assert_eq!(e.simplify(), SymExpr::constant(ConstValue::Bool(false)));
    let e = SymExpr::unary_op(UnOp::Neg, SymExpr::constant(f64c(1.5)));
    assert_eq!(e.simplify(), SymExpr::constant(f64c(-1.5)));
    let e = SymExpr::binary_op(BinOp::Mul, SymExpr::constant(ConstValue::I64(1)), x.clone());
    assert_eq!(e.simplify(), x);
}

#[test]
fn string_operations_reject_non_string_constants() {
    let five = SymExpr::Constant(ConstValue::U64(5));
    let err = SymExpr::str_len(five.clone()).validate_string_operations().unwrap_err();
    assert!(matches!(err, SymExError::TypeMismatch { ref expected, ref found } if expected == "string" && found == "u64"));
    let hello = SymExpr::Constant(ConstValue::String("hello".to_string()));
    let err = SymExpr::str_contains(hello.clone(), SymExpr::Constant(ConstValue::Bool(true)))
        .validate_string_operations()
        .unwrap_err();
    assert!(matches!(err, SymExError::TypeMismatch { ref found, .. } if found == "bool"));
    let err = SymExpr::str_concat(hello.clone(), five).validate_string_operations().unwrap_err();
    assert!(matches!(err, SymExError::TypeMismatch { .. }));
    // Variables and string constants pass.
    let x = SymExpr::variable("x".to_string());
    assert!(SymExpr::str_len(x.clone()).validate_string_operations().is_ok());
    assert!(SymExpr::str_contains(hello, x).validate_string_operations().is_ok());
}

#[test]
fn test_hash_consing() {
    let mut table = ExpressionTable::new();

    let expr1 = SymExpr::variable("x".to_string());
    let expr2 = SymExpr::variable("x".to_string());

    let interned1 = table.intern(expr1);
    let interned2 = table.intern(expr2);

    assert_eq!(interned1, interned2);
    assert_eq!(table.size(), 1);
}

#[test]
fn test_canonical_hash() {
    let expr1 = SymExpr::variable("x".to_string());
    let expr2 = SymExpr::variable("x".to_string());
    let expr3 = SymExpr::variable("y".to_string());

    assert_eq!(expr1.canonical_hash(), expr2.canonical_hash());
    assert_ne!(expr1.canonical_hash(), expr3.canonical_hash());
}

#[test]
fn expression_table_keeps_distinct_expressions_and_clears() {
    let mut table = ExpressionTable::default();
    let x = table.intern(SymExpr::variable("x".to_string()));
    let y = table.intern(SymExpr::variable("y".to_string()));
    assert_eq!(x, SymExpr::variable("x".to_string()));
    assert_eq!(y, SymExpr::variable("y".to_string()));
    assert_eq!(table.size(), 2);
    table.clear();
    assert_eq!(table.size(), 0);
}

#[test]
fn try_simplify_refuses_overflowing_folds() {
    let max = SymExpr::Constant(ConstValue::I64(i64::MAX));
    let one = SymExpr::Constant(ConstValue::I64(1));
    assert!(SymExpr::binary_op(BinOp::Add, max.clone(), one.clone()).try_simplify().is_none());
    assert!(SymExpr::unary_op(UnOp::Neg, SymExpr::Constant(ConstValue::I64(i64::MIN))).try_simplify().is_none());
    let folded = SymExpr::binary_op(BinOp::Sub, max.clone(), one).try_simplify();
    assert_eq!(folded, Some(SymExpr::Constant(ConstValue::I64(i64::MAX - 1))));
    let x = SymExpr::variable("x".to_string());
    assert_eq!(SymExpr::binary_op(BinOp::Add, x.clone(), SymExpr::Constant(ConstValue::I64(0))).try_simplify(), Some(x));
}
