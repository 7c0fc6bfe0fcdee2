use symexrs::expressions::{BinOp, UnOp};

#[test]
fn test_binop_properties() {
    assert!(BinOp::Add.is_arithmetic());
    assert!(!BinOp::Add.is_bitwise());
    assert!(!BinOp::Add.is_comparison());
    assert!(BinOp::Add.is_commutative());

    assert!(!BinOp::BitAnd.is_arithmetic());
    assert!(BinOp::BitAnd.is_bitwise());
    assert!(!BinOp::BitAnd.is_comparison());
    assert!(BinOp::BitAnd.is_commutative());

    assert!(!BinOp::Lt.is_arithmetic());
    assert!(!BinOp::Lt.is_bitwise());
    assert!(BinOp::Lt.is_comparison());
    assert!(!BinOp::Lt.is_commutative());
}

#[test]
fn test_precedence_ordering() {
    assert!(BinOp::Mul.precedence() > BinOp::Add.precedence());
    assert!(BinOp::Add.precedence() > BinOp::Shl.precedence());
    assert!(BinOp::Shl.precedence() > BinOp::BitAnd.precedence());
}

#[test]
fn test_binop_smt_lib() {
    assert_eq!(BinOp::Add.to_smt_lib(), "+");
    assert_eq!(BinOp::Sub.to_smt_lib(), "-");
    assert_eq!(BinOp::Mul.to_smt_lib(), "*");
    assert_eq!(BinOp::Eq.to_smt_lib(), "=");
    assert_eq!(BinOp::Lt.to_smt_lib(), "<");
    assert_eq!(BinOp::Ne.to_smt_lib(), "distinct");
}

#[test]
fn test_unop_smt_lib() {
    assert_eq!(UnOp::Neg.to_smt_lib(), "-");
    assert_eq!(UnOp::Not.to_smt_lib(), "not");
}
