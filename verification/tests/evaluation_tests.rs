use symexrs::eval::Evaluation;
use symexrs::expressions::{BinOp, ConstValue, SymExpr, UnOp};
use symexrs::value_map::ValueMap;

fn c(v: ConstValue) -> SymExpr {
    SymExpr::constant(v)
}

fn s(t: &str) -> SymExpr {
    c(ConstValue::String(t.to_string()))
}

fn value_of(e: &SymExpr, b: &ValueMap) -> Option<ConstValue> {
    e.get_concrete_value(b)
}

#[test]
fn evaluates_variables_and_wrapping_arithmetic() {
    let mut b = ValueMap::new();
    b.insert("x".to_string(), ConstValue::U64(u64::MAX));
    b.insert("y".to_string(), ConstValue::I32(-7));
    let x = SymExpr::variable("x".to_string());
    let e = SymExpr::binary_op(BinOp::Add, x.clone(), c(ConstValue::U64(2)));
    assert_eq!(value_of(&e, &b), Some(ConstValue::U64(1)));
    let e = SymExpr::binary_op(BinOp::Div, SymExpr::variable("y".to_string()), c(ConstValue::I32(2)));
    assert_eq!(value_of(&e, &b), Some(ConstValue::I32(-3)));
    let e = SymExpr::binary_op(BinOp::Mod, SymExpr::variable("y".to_string()), c(ConstValue::I32(2)));
    assert_eq!(value_of(&e, &b), Some(ConstValue::I32(-1)));
    let e = SymExpr::binary_op(BinOp::Add, SymExpr::variable("z".to_string()), c(ConstValue::U64(1)));
    assert_eq!(value_of(&e, &b), None);
}

#[test]
fn evaluation_has_no_value_on_mismatch_zero_divisor_and_wide_shift() {
    let b = ValueMap::new();
    let e = SymExpr::binary_op(BinOp::Add, c(ConstValue::U64(1)), c(ConstValue::I64(1)));
    assert_eq!(value_of(&e, &b), None);
    let e = SymExpr::binary_op(BinOp::Div, c(ConstValue::U64(1)), c(ConstValue::U64(0)));
    assert_eq!(value_of(&e, &b), None);
    let e = SymExpr::binary_op(BinOp::Shl, c(ConstValue::U32(1)), c(ConstValue::U64(32)));
    assert_eq!(value_of(&e, &b), None);
    let e = SymExpr::binary_op(BinOp::Shl, c(ConstValue::U32(1)), c(ConstValue::U64(31)));
    assert_eq!(value_of(&e, &b), Some(ConstValue::U32(1 << 31)));
    let e = SymExpr::binary_op(BinOp::Shr, c(ConstValue::I64(-8)), c(ConstValue::I32(1)));
    assert_eq!(value_of(&e, &b), Some(ConstValue::I64(-4)));
}

#[test]
fn evaluates_comparisons_including_floats() {
    let b = ValueMap::new();
    let f = |x: f64| c(ConstValue::F64(x.to_bits()));
    let e = SymExpr::binary_op(BinOp::Lt, f(-1.5), f(0.25));
    assert_eq!(value_of(&e, &b), Some(ConstValue::Bool(true)));
    let e = SymExpr::binary_op(BinOp::Le, f(0.0), f(-0.0));
    assert_eq!(value_of(&e, &b), Some(ConstValue::Bool(true)));
    let e = SymExpr::binary_op(BinOp::Gt, f(f64::NAN), f(1.0));
    assert_eq!(value_of(&e, &b), Some(ConstValue::Bool(false)));
    let e = SymExpr::binary_op(BinOp::Eq, f(f64::NAN), f(f64::NAN));
    assert_eq!(value_of(&e, &b), Some(ConstValue::Bool(true)));
    let e = SymExpr::binary_op(BinOp::Ge, c(ConstValue::I64(-3)), c(ConstValue::I64(-3)));
    assert_eq!(value_of(&e, &b), Some(ConstValue::Bool(true)));
}

#[test]
fn float_arithmetic_and_traps_are_reported() {
    let b = ValueMap::new();
    let e = SymExpr::binary_op(BinOp::Add, c(ConstValue::F64(1.0f64.to_bits())), c(ConstValue::F64(2.0f64.to_bits())));
    assert!(matches!(e.evaluate(&b), Evaluation::FloatArithmetic));
    let e = SymExpr::unary_op(UnOp::Neg, c(ConstValue::I64(i64::MIN)));
    assert!(matches!(e.evaluate(&b), Evaluation::Trap));
    let e = SymExpr::binary_op(BinOp::Div, c(ConstValue::I32(i32::MIN)), c(ConstValue::I32(-1)));
    assert!(matches!(e.evaluate(&b), Evaluation::Trap));
    let e = SymExpr::str_substring(s("héllo"), c(ConstValue::U64(2)), c(ConstValue::U64(1)));
    assert!(matches!(e.evaluate(&b), Evaluation::Trap));
}

#[test]
fn evaluates_string_operations() {
    let b = ValueMap::new();
    assert_eq!(value_of(&SymExpr::str_len(s("héllo")), &b), Some(ConstValue::U64(6)));
    let e = SymExpr::str_concat(s("ab"), s("cd"));
    assert_eq!(value_of(&e, &b), Some(ConstValue::String("abcd".to_string())));
    let e = SymExpr::str_substring(s("hello"), c(ConstValue::I64(1)), c(ConstValue::I64(3)));
    assert_eq!(value_of(&e, &b), Some(ConstValue::String("ell".to_string())));
    let e = SymExpr::str_substring(s("hello"), c(ConstValue::I64(4)), c(ConstValue::I64(3)));
    assert_eq!(value_of(&e, &b), None);
    let e = SymExpr::str_at(s("hello"), c(ConstValue::U64(4)));
    assert_eq!(value_of(&e, &b), Some(ConstValue::String("o".to_string())));
    let e = SymExpr::str_index_of(s("hello"), s("l"), c(ConstValue::U64(3)));
    assert_eq!(value_of(&e, &b), Some(ConstValue::I32(3)));
    let e = SymExpr::str_index_of(s("hello"), s("l"), c(ConstValue::U64(9)));
    assert_eq!(value_of(&e, &b), Some(ConstValue::I32(-1)));
    let e = SymExpr::str_replace(s("a.b.c"), s("."), s("::"));
    assert_eq!(value_of(&e, &b), Some(ConstValue::String("a::b.c".to_string())));
    let e = SymExpr::str_replace_all(s("a.b.c"), s("."), s("::"));
    assert_eq!(value_of(&e, &b), Some(ConstValue::String("a::b::c".to_string())));
    let e = SymExpr::str_lex_le(s("abc"), s("abc"));
    assert_eq!(value_of(&e, &b), Some(ConstValue::Bool(true)));
    let e = SymExpr::str_contains(s("abc"), s("bd"));
    assert_eq!(value_of(&e, &b), Some(ConstValue::Bool(false)));
}

#[test]
fn conditional_evaluates_only_the_chosen_branch() {
    let b = ValueMap::new();
    let e = SymExpr::conditional(c(ConstValue::Bool(false)), SymExpr::unary_op(UnOp::Neg, c(ConstValue::I64(i64::MIN))), c(ConstValue::I64(5)));
    assert_eq!(value_of(&e, &b), Some(ConstValue::I64(5)));
    let e = SymExpr::conditional(c(ConstValue::U64(1)), c(ConstValue::I64(1)), c(ConstValue::I64(5)));
    assert_eq!(value_of(&e, &b), None);
}

#[test]
fn an_unbound_variable_anywhere_gives_none() {
    let b = ValueMap::new();
    let u = |n: u64| c(ConstValue::U64(n));
    assert_eq!(value_of(&SymExpr::variable("x".to_string()), &b), None);
    assert_eq!(value_of(&SymExpr::binary_op(BinOp::Div, u(7), u(0)), &b), None);
    assert_eq!(value_of(&SymExpr::binary_op(BinOp::Add, u(2), u(3)), &b), Some(ConstValue::U64(5)));
    let untaken = SymExpr::conditional(c(ConstValue::Bool(true)), u(1), SymExpr::variable("y".to_string()));
    assert_eq!(value_of(&untaken, &b), None);
    let mut bound = ValueMap::new();
    bound.insert("y".to_string(), ConstValue::U64(9));
    assert_eq!(value_of(&untaken, &bound), Some(ConstValue::U64(1)));
}
