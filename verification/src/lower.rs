//! Lowering of expressions to typed solver terms.
//!
//! An expression is lowered as an integer, a string or a boolean term. The
//! integer sort takes integer constants (an unsigned constant only up to
//! `i64::MAX`), arithmetic, negation and conditionals; the string sort takes
//! string constants without NUL characters and concatenation; the boolean
//! sort takes comparisons, logical connectives (`&`, `|`, `^` read as `and`,
//! `or`, `xor`) and the string predicates. Equality is read on integers if
//! both sides lower as integers, else on booleans, else on strings. Every
//! other construct is refused with an error.
use vstd::prelude::*;
use crate::error::{ErrorV, SymExError};
use crate::expressions::{BinOp, CVal, ConstValue, Expr, SymExpr, UnOp};
use crate::floatbits::{f32_class, f32_is_inf, f32_is_nan, f64_class, f64_is_inf, f64_is_nan};
use crate::fmt::{decimal_nat, push_decimal};
use crate::profile_format::{all_crate_name_chars, crate_name_chars};
use crate::text::{chars_of, push_text, seq_contains_sub, seq_ends_with, seq_starts_with, string_from_chars};

verus! {

// ---------------------------------------------------------------------------
// Terms
// ---------------------------------------------------------------------------

/// Integer term.
#[derive(Debug)]
pub enum IntTerm {
    Var(String),
    Num(i64),
    Add(Box<IntTerm>, Box<IntTerm>),
    Sub(Box<IntTerm>, Box<IntTerm>),
    Mul(Box<IntTerm>, Box<IntTerm>),
    Div(Box<IntTerm>, Box<IntTerm>),
    Mod(Box<IntTerm>, Box<IntTerm>),
    Neg(Box<IntTerm>),
    Ite(Box<BoolTerm>, Box<IntTerm>, Box<IntTerm>),
}

/// String term.
#[derive(Debug)]
pub enum StrTerm {
    Var(String),
    Lit(String),
    Concat(Box<StrTerm>, Box<StrTerm>),
}

/// Boolean term.
#[derive(Debug)]
pub enum BoolTerm {
    Var(String),
    Lit(bool),
    IntEq(Box<IntTerm>, Box<IntTerm>),
    BoolEq(Box<BoolTerm>, Box<BoolTerm>),
    StrEq(Box<StrTerm>, Box<StrTerm>),
    Not(Box<BoolTerm>),
    Lt(Box<IntTerm>, Box<IntTerm>),
    Le(Box<IntTerm>, Box<IntTerm>),
    Gt(Box<IntTerm>, Box<IntTerm>),
    Ge(Box<IntTerm>, Box<IntTerm>),
    And(Box<BoolTerm>, Box<BoolTerm>),
    Or(Box<BoolTerm>, Box<BoolTerm>),
    Xor(Box<BoolTerm>, Box<BoolTerm>),
    Ite(Box<BoolTerm>, Box<BoolTerm>, Box<BoolTerm>),
    Contains(Box<StrTerm>, Box<StrTerm>),
    Prefix(Box<StrTerm>, Box<StrTerm>),
    Suffix(Box<StrTerm>, Box<StrTerm>),
}

/// Model of an integer term.
pub enum IntT {
    Var(Seq<char>),
    Num(i64),
    Add(Box<IntT>, Box<IntT>),
    Sub(Box<IntT>, Box<IntT>),
    Mul(Box<IntT>, Box<IntT>),
    Div(Box<IntT>, Box<IntT>),
    Mod(Box<IntT>, Box<IntT>),
    Neg(Box<IntT>),
    Ite(Box<BoolT>, Box<IntT>, Box<IntT>),
}

/// Model of a string term.
pub enum StrT {
    Var(Seq<char>),
    Lit(Seq<char>),
    Concat(Box<StrT>, Box<StrT>),
}

/// Model of a boolean term.
pub enum BoolT {
    Var(Seq<char>),
    Lit(bool),
    IntEq(Box<IntT>, Box<IntT>),
    BoolEq(Box<BoolT>, Box<BoolT>),
    StrEq(Box<StrT>, Box<StrT>),
    Not(Box<BoolT>),
    Lt(Box<IntT>, Box<IntT>),
    Le(Box<IntT>, Box<IntT>),
    Gt(Box<IntT>, Box<IntT>),
    Ge(Box<IntT>, Box<IntT>),
    And(Box<BoolT>, Box<BoolT>),
    Or(Box<BoolT>, Box<BoolT>),
    Xor(Box<BoolT>, Box<BoolT>),
    Ite(Box<BoolT>, Box<BoolT>, Box<BoolT>),
    Contains(Box<StrT>, Box<StrT>),
    Prefix(Box<StrT>, Box<StrT>),
    Suffix(Box<StrT>, Box<StrT>),
}

pub open spec fn int_view(t: &IntTerm) -> IntT
    decreases t,
{
    match t {
        IntTerm::Var(n) => IntT::Var(n@),
        IntTerm::Num(v) => IntT::Num(*v),
        IntTerm::Add(a, b) => IntT::Add(Box::new(int_view(a)), Box::new(int_view(b))),
        IntTerm::Sub(a, b) => IntT::Sub(Box::new(int_view(a)), Box::new(int_view(b))),
        IntTerm::Mul(a, b) => IntT::Mul(Box::new(int_view(a)), Box::new(int_view(b))),
        IntTerm::Div(a, b) => IntT::Div(Box::new(int_view(a)), Box::new(int_view(b))),
        IntTerm::Mod(a, b) => IntT::Mod(Box::new(int_view(a)), Box::new(int_view(b))),
        IntTerm::Neg(a) => IntT::Neg(Box::new(int_view(a))),
        IntTerm::Ite(c, a, b) => IntT::Ite(
            Box::new(bool_view(c)),
            Box::new(int_view(a)),
            Box::new(int_view(b)),
        ),
    }
}

pub open spec fn str_view(t: &StrTerm) -> StrT
    decreases t,
{
    match t {
        StrTerm::Var(n) => StrT::Var(n@),
        StrTerm::Lit(s) => StrT::Lit(s@),
        StrTerm::Concat(a, b) => StrT::Concat(Box::new(str_view(a)), Box::new(str_view(b))),
    }
}

pub open spec fn bool_view(t: &BoolTerm) -> BoolT
    decreases t,
{
    match t {
        BoolTerm::Var(n) => BoolT::Var(n@),
        BoolTerm::Lit(b) => BoolT::Lit(*b),
        BoolTerm::IntEq(a, b) => BoolT::IntEq(Box::new(int_view(a)), Box::new(int_view(b))),
        BoolTerm::BoolEq(a, b) => BoolT::BoolEq(Box::new(bool_view(a)), Box::new(bool_view(b))),
        BoolTerm::StrEq(a, b) => BoolT::StrEq(Box::new(str_view(a)), Box::new(str_view(b))),
        BoolTerm::Not(a) => BoolT::Not(Box::new(bool_view(a))),
        BoolTerm::Lt(a, b) => BoolT::Lt(Box::new(int_view(a)), Box::new(int_view(b))),
        BoolTerm::Le(a, b) => BoolT::Le(Box::new(int_view(a)), Box::new(int_view(b))),
        BoolTerm::Gt(a, b) => BoolT::Gt(Box::new(int_view(a)), Box::new(int_view(b))),
        BoolTerm::Ge(a, b) => BoolT::Ge(Box::new(int_view(a)), Box::new(int_view(b))),
        BoolTerm::And(a, b) => BoolT::And(Box::new(bool_view(a)), Box::new(bool_view(b))),
        BoolTerm::Or(a, b) => BoolT::Or(Box::new(bool_view(a)), Box::new(bool_view(b))),
        BoolTerm::Xor(a, b) => BoolT::Xor(Box::new(bool_view(a)), Box::new(bool_view(b))),
        BoolTerm::Ite(c, a, b) => BoolT::Ite(
            Box::new(bool_view(c)),
            Box::new(bool_view(a)),
            Box::new(bool_view(b)),
        ),
        BoolTerm::Contains(a, b) => BoolT::Contains(Box::new(str_view(a)), Box::new(str_view(b))),
        BoolTerm::Prefix(a, b) => BoolT::Prefix(Box::new(str_view(a)), Box::new(str_view(b))),
        BoolTerm::Suffix(a, b) => BoolT::Suffix(Box::new(str_view(a)), Box::new(str_view(b))),
    }
}

impl View for IntTerm {
    type V = IntT;

    open spec fn view(&self) -> IntT {
        int_view(self)
    }
}

impl View for StrTerm {
    type V = StrT;

    open spec fn view(&self) -> StrT {
        str_view(self)
    }
}

impl View for BoolTerm {
    type V = BoolT;

    open spec fn view(&self) -> BoolT {
        bool_view(self)
    }
}

/// Why an expression does not lower.
#[derive(Debug)]
pub enum LowerError {
    /// An error of the system.
    Error(SymExError),
    /// The expression is not of the string sort; the error reports it as a
    /// type mismatch that names the expression as written by `Debug`.
    NotAString(SymExpr),
}

/// Model of a lowering error.
pub enum LowerErr {
    Error(ErrorV),
    NotAString(Expr),
}

impl View for LowerError {
    type V = LowerErr;

    open spec fn view(&self) -> LowerErr {
        match self {
            LowerError::Error(e) => LowerErr::Error(e@),
            LowerError::NotAString(x) => LowerErr::NotAString(x@),
        }
    }
}

// ---------------------------------------------------------------------------
// Specification
// ---------------------------------------------------------------------------

pub open spec fn fail<T>(e: ErrorV) -> Result<T, LowerErr> {
    Err(LowerErr::Error(e))
}

pub open spec fn solver_error<T>(m: Seq<char>) -> Result<T, LowerErr> {
    fail(ErrorV::SolverError(m))
}

/// The name of a binary operation as `Debug` writes it.
pub open spec fn binop_name(op: BinOp) -> Seq<char> {
    match op {
        BinOp::Add => "Add"@,
        BinOp::Sub => "Sub"@,
        BinOp::Mul => "Mul"@,
        BinOp::Div => "Div"@,
        BinOp::Mod => "Mod"@,
        BinOp::BitAnd => "BitAnd"@,
        BinOp::BitOr => "BitOr"@,
        BinOp::BitXor => "BitXor"@,
        BinOp::Shl => "Shl"@,
        BinOp::Shr => "Shr"@,
        BinOp::Eq => "Eq"@,
        BinOp::Ne => "Ne"@,
        BinOp::Lt => "Lt"@,
        BinOp::Le => "Le"@,
        BinOp::Gt => "Gt"@,
        BinOp::Ge => "Ge"@,
        BinOp::StrConcat => "StrConcat"@,
        BinOp::StrLexLt => "StrLexLt"@,
        BinOp::StrLexLe => "StrLexLe"@,
    }
}

/// A variable name the integer and string sorts accept: non-empty, of
/// alphanumerics and `_`.
pub open spec fn check_name(n: Seq<char>) -> Option<ErrorV> {
    if n.len() == 0 {
        Some(ErrorV::MalformedExpression("Variable name cannot be empty"@))
    } else if !crate_name_chars(n) {
        Some(ErrorV::MalformedExpression(
            "Invalid variable name '"@ + n
                + "': must contain only alphanumeric characters and underscores"@,
        ))
    } else {
        None
    }
}

/// An integer constant as a term.
pub open spec fn int_const(c: CVal) -> Result<IntT, LowerErr> {
    match c {
        CVal::I64(n) => Ok(IntT::Num(n)),
        CVal::I32(n) => Ok(IntT::Num(n as i64)),
        CVal::U64(n) => if n > i64::MAX {
            fail(ErrorV::OverflowError(
                "U64 value "@ + decimal_nat(n as nat) + " exceeds maximum i64 value"@,
            ))
        } else {
            Ok(IntT::Num(n as i64))
        },
        CVal::U32(n) => Ok(IntT::Num(n as i64)),
        CVal::U8(n) => Ok(IntT::Num(n as i64)),
        CVal::F64(b) => if f64_is_nan(b) {
            fail(ErrorV::InvalidOperation("Cannot convert NaN to integer"@))
        } else if f64_is_inf(b) {
            fail(ErrorV::InvalidOperation("Cannot convert infinity to integer"@))
        } else {
            fail(ErrorV::TypeMismatch { expected: "integer"@, found: "float"@ })
        },
        CVal::F32(b) => if f32_is_nan(b) {
            fail(ErrorV::InvalidOperation("Cannot convert NaN to integer"@))
        } else if f32_is_inf(b) {
            fail(ErrorV::InvalidOperation("Cannot convert infinity to integer"@))
        } else {
            fail(ErrorV::TypeMismatch { expected: "integer"@, found: "float"@ })
        },
        CVal::Bool(_) => fail(ErrorV::TypeMismatch { expected: "integer"@, found: "boolean"@ }),
        CVal::Str(_) => fail(ErrorV::TypeMismatch { expected: "integer"@, found: "string"@ }),
    }
}

/// An arithmetic operation on two integer terms.
pub open spec fn int_bin(op: BinOp, a: IntT, b: IntT) -> Result<IntT, LowerErr> {
    let (x, y) = (Box::new(a), Box::new(b));
    match op {
        BinOp::Add => Ok(IntT::Add(x, y)),
        BinOp::Sub => Ok(IntT::Sub(x, y)),
        BinOp::Mul => Ok(IntT::Mul(x, y)),
        BinOp::Div => Ok(IntT::Div(x, y)),
        BinOp::Mod => Ok(IntT::Mod(x, y)),
        BinOp::BitAnd | BinOp::BitOr | BinOp::BitXor => solver_error(
            "Bitwise operations on integers not yet supported"@,
        ),
        BinOp::Shl | BinOp::Shr => solver_error("Shift operations on integers not yet supported"@),
        _ => solver_error("Unsupported integer operation: "@ + binop_name(op)),
    }
}

/// Lowering in the integer sort.
pub open spec fn lower_int(e: Expr) -> Result<IntT, LowerErr>
    decreases e,
{
    match e {
        Expr::Var(n) => match check_name(n) {
            Some(err) => fail(err),
            None => Ok(IntT::Var(n)),
        },
        Expr::Const(c) => int_const(c),
        Expr::Bin(op, l, r) => match lower_int(*l) {
            Err(err) => Err(err),
            Ok(a) => match lower_int(*r) {
                Err(err) => Err(err),
                Ok(b) => int_bin(op, a, b),
            },
        },
        Expr::Un(op, x) => if op == UnOp::Neg {
            match lower_int(*x) {
                Err(err) => Err(err),
                Ok(a) => Ok(IntT::Neg(Box::new(a))),
            }
        } else if op == UnOp::StrLen {
            match lower_str(*x) {
                Err(err) => Err(err),
                Ok(_) => solver_error(
                    "String length operation not yet fully implemented in Z3 Rust bindings"@,
                ),
            }
        } else {
            solver_error("Unsupported unary integer operation: Not"@)
        },
        Expr::Cond(c, t, f) => match lower_bool(*c) {
            Err(err) => Err(err),
            Ok(cc) => match lower_int(*t) {
                Err(err) => Err(err),
                Ok(tt) => match lower_int(*f) {
                    Err(err) => Err(err),
                    Ok(ff) => Ok(IntT::Ite(Box::new(cc), Box::new(tt), Box::new(ff))),
                },
            },
        },
        Expr::IndexOf(h, n, o) => match lower_str(*h) {
            Err(err) => Err(err),
            Ok(_) => match lower_str(*n) {
                Err(err) => Err(err),
                Ok(_) => match lower_int(*o) {
                    Err(err) => Err(err),
                    Ok(_) => solver_error(
                        "String index_of operation not yet fully implemented in Z3 Rust bindings"@,
                    ),
                },
            },
        },
        _ => fail(ErrorV::TypeMismatch { expected: "integer"@, found: "string"@ }),
    }
}

/// Lowering in the string sort.
pub open spec fn lower_str(e: Expr) -> Result<StrT, LowerErr>
    decreases e,
{
    match e {
        Expr::Var(n) => match check_name(n) {
            Some(err) => fail(err),
            None => Ok(StrT::Var(n)),
        },
        Expr::Const(CVal::Str(s)) => if s.contains('\0') {
            solver_error("Failed to create Z3 string literal from '"@ + s + "'"@)
        } else {
            Ok(StrT::Lit(s))
        },
        Expr::Bin(BinOp::StrConcat, l, r) => match lower_str(*l) {
            Err(err) => Err(err),
            Ok(a) => match lower_str(*r) {
                Err(err) => Err(err),
                Ok(b) => Ok(StrT::Concat(Box::new(a), Box::new(b))),
            },
        },
        Expr::Substr(s, a, b) => match lower_str(*s) {
            Err(err) => Err(err),
            Ok(_) => match lower_int(*a) {
                Err(err) => Err(err),
                Ok(_) => match lower_int(*b) {
                    Err(err) => Err(err),
                    Ok(_) => solver_error(
                        "String substring operation not yet fully implemented in Z3 Rust bindings"@,
                    ),
                },
            },
        },
        Expr::Replace(s, p, r) => match lower_str(*s) {
            Err(err) => Err(err),
            Ok(_) => match lower_str(*p) {
                Err(err) => Err(err),
                Ok(_) => match lower_str(*r) {
                    Err(err) => Err(err),
                    Ok(_) => solver_error(
                        "String replace operation not yet fully implemented in Z3 Rust bindings"@,
                    ),
                },
            },
        },
        Expr::ReplaceAll(s, p, r) => match lower_str(*s) {
            Err(err) => Err(err),
            Ok(_) => match lower_str(*p) {
                Err(err) => Err(err),
                Ok(_) => match lower_str(*r) {
                    Err(err) => Err(err),
                    Ok(_) => solver_error(
                        "String replace_all operation not yet fully implemented in Z3 Rust bindings"@,
                    ),
                },
            },
        },
        Expr::At(s, i) => match lower_str(*s) {
            Err(err) => Err(err),
            Ok(_) => match lower_int(*i) {
                Err(err) => Err(err),
                Ok(_) => solver_error(
                    "String char_at operation not yet fully implemented in Z3 Rust bindings"@,
                ),
            },
        },
        _ => Err(LowerErr::NotAString(e)),
    }
}

/// The message of an ordering comparison whose sides are neither integers
/// nor strings.
pub open spec fn order_mismatch(op: BinOp) -> Seq<char> {
    if op == BinOp::Lt {
        "Type mismatch in less-than comparison"@
    } else if op == BinOp::Le {
        "Type mismatch in less-than-or-equal comparison"@
    } else if op == BinOp::Gt {
        "Type mismatch in greater-than comparison"@
    } else {
        "Type mismatch in greater-than-or-equal comparison"@
    }
}

pub open spec fn is_malformed(r: LowerErr) -> bool {
    r matches LowerErr::Error(ErrorV::MalformedExpression(_))
}

/// An ordering comparison given the integer and string lowerings of its sides.
pub open spec fn lower_order(
    op: BinOp,
    li: Result<IntT, LowerErr>,
    ri: Result<IntT, LowerErr>,
    ls: Result<StrT, LowerErr>,
    rs: Result<StrT, LowerErr>,
) -> Result<BoolT, LowerErr> {
    match (li, ri) {
        (Ok(a), Ok(b)) => {
            let (x, y) = (Box::new(a), Box::new(b));
            Ok(
                if op == BinOp::Lt {
                    BoolT::Lt(x, y)
                } else if op == BinOp::Le {
                    BoolT::Le(x, y)
                } else if op == BinOp::Gt {
                    BoolT::Gt(x, y)
                } else {
                    BoolT::Ge(x, y)
                },
            )
        },
        _ => {
            let first = if li is Err { li->Err_0 } else { ri->Err_0 };
            if is_malformed(first) {
                Err(first)
            } else if ls is Ok && rs is Ok {
                solver_error(
                    "String lexicographic comparison not yet fully implemented in Z3 Rust bindings"@,
                )
            } else {
                solver_error(order_mismatch(op))
            }
        },
    }
}

/// An equality (`negate` false) or disequality given the lowerings of its
/// sides in the three sorts, tried in the order integer, boolean, string.
pub open spec fn lower_equality(
    negate: bool,
    li: Result<IntT, LowerErr>,
    ri: Result<IntT, LowerErr>,
    lb: Result<BoolT, LowerErr>,
    rb: Result<BoolT, LowerErr>,
    ls: Result<StrT, LowerErr>,
    rs: Result<StrT, LowerErr>,
) -> Result<BoolT, LowerErr> {
    let eq = if li is Ok && ri is Ok {
        Some(BoolT::IntEq(Box::new(li->Ok_0), Box::new(ri->Ok_0)))
    } else if lb is Ok && rb is Ok {
        Some(BoolT::BoolEq(Box::new(lb->Ok_0), Box::new(rb->Ok_0)))
    } else if ls is Ok && rs is Ok {
        Some(BoolT::StrEq(Box::new(ls->Ok_0), Box::new(rs->Ok_0)))
    } else {
        None
    };
    match eq {
        Some(t) => Ok(if negate { BoolT::Not(Box::new(t)) } else { t }),
        None => solver_error(
            if negate {
                "Type mismatch in inequality comparison"@
            } else {
                "Type mismatch in equality comparison"@
            },
        ),
    }
}

/// Lowering in the boolean sort.
pub open spec fn lower_bool(e: Expr) -> Result<BoolT, LowerErr>
    decreases e,
{
    match e {
        Expr::Var(n) => Ok(BoolT::Var(n)),
        Expr::Const(CVal::Bool(b)) => Ok(BoolT::Lit(b)),
        Expr::Bin(op, l, r) => if op == BinOp::Eq || op == BinOp::Ne {
            lower_equality(
                op == BinOp::Ne,
                lower_int(*l),
                lower_int(*r),
                lower_bool(*l),
                lower_bool(*r),
                lower_str(*l),
                lower_str(*r),
            )
        } else if op == BinOp::Lt || op == BinOp::Le || op == BinOp::Gt || op == BinOp::Ge {
            lower_order(op, lower_int(*l), lower_int(*r), lower_str(*l), lower_str(*r))
        } else if op == BinOp::BitAnd || op == BinOp::BitOr || op == BinOp::BitXor {
            match lower_bool(*l) {
                Err(err) => Err(err),
                Ok(a) => match lower_bool(*r) {
                    Err(err) => Err(err),
                    Ok(b) => {
                        let (x, y) = (Box::new(a), Box::new(b));
                        Ok(
                            if op == BinOp::BitAnd {
                                BoolT::And(x, y)
                            } else if op == BinOp::BitOr {
                                BoolT::Or(x, y)
                            } else {
                                BoolT::Xor(x, y)
                            },
                        )
                    },
                },
            }
        } else {
            solver_error("Unsupported boolean operation: "@ + binop_name(op))
        },
        Expr::Un(UnOp::Not, x) => match lower_bool(*x) {
            Err(err) => Err(err),
            Ok(a) => Ok(BoolT::Not(Box::new(a))),
        },
        Expr::Cond(c, t, f) => match lower_bool(*c) {
            Err(err) => Err(err),
            Ok(cc) => match lower_bool(*t) {
                Err(err) => Err(err),
                Ok(tt) => match lower_bool(*f) {
                    Err(err) => Err(err),
                    Ok(ff) => Ok(BoolT::Ite(Box::new(cc), Box::new(tt), Box::new(ff))),
                },
            },
        },
        Expr::Contains(a, b) | Expr::PrefixOf(a, b) | Expr::SuffixOf(a, b) => match lower_str(*a) {
            Err(err) => Err(err),
            Ok(x) => match lower_str(*b) {
                Err(err) => Err(err),
                Ok(y) => Ok(
                    match e {
                        Expr::Contains(_, _) => BoolT::Contains(Box::new(x), Box::new(y)),
                        Expr::PrefixOf(_, _) => BoolT::Prefix(Box::new(x), Box::new(y)),
                        _ => BoolT::Suffix(Box::new(x), Box::new(y)),
                    },
                ),
            },
        },
        _ => solver_error("Unsupported expression type for boolean conversion"@),
    }
}

// ---------------------------------------------------------------------------
// Meaning of terms
// ---------------------------------------------------------------------------

/// The value of an integer term, as the solver reads it (mathematical
/// integers), under assignments of integers, booleans and strings to names.
pub open spec fn int_value(
    t: IntT,
    iv: Map<Seq<char>, int>,
    bv: Map<Seq<char>, bool>,
    sv: Map<Seq<char>, Seq<char>>,
) -> int
    decreases t,
{
    match t {
        IntT::Var(n) => iv[n],
        IntT::Num(k) => k as int,
        IntT::Add(a, b) => int_value(*a, iv, bv, sv) + int_value(*b, iv, bv, sv),
        IntT::Sub(a, b) => int_value(*a, iv, bv, sv) - int_value(*b, iv, bv, sv),
        IntT::Mul(a, b) => int_value(*a, iv, bv, sv) * int_value(*b, iv, bv, sv),
        IntT::Div(a, b) => int_value(*a, iv, bv, sv) / int_value(*b, iv, bv, sv),
        IntT::Mod(a, b) => int_value(*a, iv, bv, sv) % int_value(*b, iv, bv, sv),
        IntT::Neg(a) => -int_value(*a, iv, bv, sv),
        IntT::Ite(c, a, b) => if holds(*c, iv, bv, sv) {
            int_value(*a, iv, bv, sv)
        } else {
            int_value(*b, iv, bv, sv)
        },
    }
}

/// The value of a string term.
pub open spec fn str_value(t: StrT, sv: Map<Seq<char>, Seq<char>>) -> Seq<char>
    decreases t,
{
    match t {
        StrT::Var(n) => sv[n],
        StrT::Lit(s) => s,
        StrT::Concat(a, b) => str_value(*a, sv) + str_value(*b, sv),
    }
}

/// Whether a boolean term holds, as the solver reads it.
pub open spec fn holds(
    t: BoolT,
    iv: Map<Seq<char>, int>,
    bv: Map<Seq<char>, bool>,
    sv: Map<Seq<char>, Seq<char>>,
) -> bool
    decreases t,
{
    match t {
        BoolT::Var(n) => bv[n],
        BoolT::Lit(b) => b,
        BoolT::IntEq(a, b) => int_value(*a, iv, bv, sv) == int_value(*b, iv, bv, sv),
        BoolT::BoolEq(a, b) => holds(*a, iv, bv, sv) == holds(*b, iv, bv, sv),
        BoolT::StrEq(a, b) => str_value(*a, sv) == str_value(*b, sv),
        BoolT::Not(a) => !holds(*a, iv, bv, sv),
        BoolT::Lt(a, b) => int_value(*a, iv, bv, sv) < int_value(*b, iv, bv, sv),
        BoolT::Le(a, b) => int_value(*a, iv, bv, sv) <= int_value(*b, iv, bv, sv),
        BoolT::Gt(a, b) => int_value(*a, iv, bv, sv) > int_value(*b, iv, bv, sv),
        BoolT::Ge(a, b) => int_value(*a, iv, bv, sv) >= int_value(*b, iv, bv, sv),
        BoolT::And(a, b) => holds(*a, iv, bv, sv) && holds(*b, iv, bv, sv),
        BoolT::Or(a, b) => holds(*a, iv, bv, sv) || holds(*b, iv, bv, sv),
        BoolT::Xor(a, b) => holds(*a, iv, bv, sv) != holds(*b, iv, bv, sv),
        BoolT::Ite(c, a, b) => if holds(*c, iv, bv, sv) {
            holds(*a, iv, bv, sv)
        } else {
            holds(*b, iv, bv, sv)
        },
        BoolT::Contains(a, b) => seq_contains_sub(str_value(*a, sv), str_value(*b, sv)),
        BoolT::Prefix(a, b) => seq_starts_with(str_value(*b, sv), str_value(*a, sv)),
        BoolT::Suffix(a, b) => seq_ends_with(str_value(*b, sv), str_value(*a, sv)),
    }
}

/// Integer constants lower to their own values (an unsigned 64-bit one
/// when it is at most `i64::MAX`), and a variable to the value assigned to
/// its name.
pub proof fn lemma_lowered_atom_meaning(
    c: CVal,
    n: Seq<char>,
    iv: Map<Seq<char>, int>,
    bv: Map<Seq<char>, bool>,
    sv: Map<Seq<char>, Seq<char>>,
)
    ensures
        c is I64 ==> lower_int(Expr::Const(c)) is Ok && int_value(lower_int(Expr::Const(c))->Ok_0, iv, bv, sv)
            == c->I64_0,
        c is I32 ==> lower_int(Expr::Const(c)) is Ok && int_value(lower_int(Expr::Const(c))->Ok_0, iv, bv, sv)
            == c->I32_0,
        c is U32 ==> lower_int(Expr::Const(c)) is Ok && int_value(lower_int(Expr::Const(c))->Ok_0, iv, bv, sv)
            == c->U32_0,
        c is U8 ==> lower_int(Expr::Const(c)) is Ok && int_value(lower_int(Expr::Const(c))->Ok_0, iv, bv, sv)
            == c->U8_0,
        c is U64 ==> (lower_int(Expr::Const(c)) is Ok <==> c->U64_0 <= i64::MAX),
        c is U64 && c->U64_0 <= i64::MAX ==> int_value(lower_int(Expr::Const(c))->Ok_0, iv, bv, sv)
            == c->U64_0,
        lower_int(Expr::Var(n)) is Ok ==> int_value(lower_int(Expr::Var(n))->Ok_0, iv, bv, sv) == iv[n],
{
}

/// A comparison of two expressions that lower as integers lowers to a
/// term that holds exactly when the comparison holds between the values of
/// the two sides: `<`, `<=`, `>`, `>=`, `==` and `!=` keep their meaning.
pub proof fn lemma_lowered_comparison_meaning(
    op: BinOp,
    l: Expr,
    r: Expr,
    iv: Map<Seq<char>, int>,
    bv: Map<Seq<char>, bool>,
    sv: Map<Seq<char>, Seq<char>>,
)
    requires
        op == BinOp::Lt || op == BinOp::Le || op == BinOp::Gt || op == BinOp::Ge || op == BinOp::Eq || op
            == BinOp::Ne,
        lower_int(l) is Ok,
        lower_int(r) is Ok,
    ensures
        lower_bool(Expr::Bin(op, Box::new(l), Box::new(r))) is Ok,
        ({
            let t = lower_bool(Expr::Bin(op, Box::new(l), Box::new(r)))->Ok_0;
            let a = int_value(lower_int(l)->Ok_0, iv, bv, sv);
            let b = int_value(lower_int(r)->Ok_0, iv, bv, sv);
            &&& op == BinOp::Lt ==> (holds(t, iv, bv, sv) <==> a < b)
            &&& op == BinOp::Le ==> (holds(t, iv, bv, sv) <==> a <= b)
            &&& op == BinOp::Gt ==> (holds(t, iv, bv, sv) <==> a > b)
            &&& op == BinOp::Ge ==> (holds(t, iv, bv, sv) <==> a >= b)
            &&& op == BinOp::Eq ==> (holds(t, iv, bv, sv) <==> a == b)
            &&& op == BinOp::Ne ==> (holds(t, iv, bv, sv) <==> a != b)
        }),
{
    reveal_with_fuel(holds, 2);
}

/// Arithmetic on two expressions that lower as integers lowers to a term
/// whose value is the sum, difference or product of the values of the two
/// sides; negation lowers to the opposite.
pub proof fn lemma_lowered_arithmetic_meaning(
    op: BinOp,
    l: Expr,
    r: Expr,
    iv: Map<Seq<char>, int>,
    bv: Map<Seq<char>, bool>,
    sv: Map<Seq<char>, Seq<char>>,
)
    requires
        op == BinOp::Add || op == BinOp::Sub || op == BinOp::Mul,
        lower_int(l) is Ok,
        lower_int(r) is Ok,
    ensures
        lower_int(Expr::Bin(op, Box::new(l), Box::new(r))) is Ok,
        lower_int(Expr::Un(UnOp::Neg, Box::new(l))) is Ok,
        ({
            let v = int_value(lower_int(Expr::Bin(op, Box::new(l), Box::new(r)))->Ok_0, iv, bv, sv);
            let a = int_value(lower_int(l)->Ok_0, iv, bv, sv);
            let b = int_value(lower_int(r)->Ok_0, iv, bv, sv);
            &&& op == BinOp::Add ==> v == a + b
            &&& op == BinOp::Sub ==> v == a - b
            &&& op == BinOp::Mul ==> v == a * b
            &&& int_value(lower_int(Expr::Un(UnOp::Neg, Box::new(l)))->Ok_0, iv, bv, sv) == -a
        }),
{
}

/// The connectives on two expressions that lower as booleans lower to
/// terms that hold as `and`, `or`, `xor` and `not` of the two sides.
pub proof fn lemma_lowered_connective_meaning(
    op: BinOp,
    l: Expr,
    r: Expr,
    iv: Map<Seq<char>, int>,
    bv: Map<Seq<char>, bool>,
    sv: Map<Seq<char>, Seq<char>>,
)
    requires
        op == BinOp::BitAnd || op == BinOp::BitOr || op == BinOp::BitXor,
        lower_bool(l) is Ok,
        lower_bool(r) is Ok,
    ensures
        lower_bool(Expr::Bin(op, Box::new(l), Box::new(r))) is Ok,
        lower_bool(Expr::Un(UnOp::Not, Box::new(l))) is Ok,
        ({
            let t = lower_bool(Expr::Bin(op, Box::new(l), Box::new(r)))->Ok_0;
            let a = holds(lower_bool(l)->Ok_0, iv, bv, sv);
            let b = holds(lower_bool(r)->Ok_0, iv, bv, sv);
            &&& op == BinOp::BitAnd ==> (holds(t, iv, bv, sv) <==> a && b)
            &&& op == BinOp::BitOr ==> (holds(t, iv, bv, sv) <==> a || b)
            &&& op == BinOp::BitXor ==> (holds(t, iv, bv, sv) <==> a != b)
            &&& holds(lower_bool(Expr::Un(UnOp::Not, Box::new(l)))->Ok_0, iv, bv, sv) == !a
        }),
{
}

// ---------------------------------------------------------------------------
// Implementation
// ---------------------------------------------------------------------------

pub open spec fn int_result(r: Result<IntTerm, LowerError>) -> Result<IntT, LowerErr> {
    match r {
        Ok(t) => Ok(t@),
        Err(e) => Err(e@),
    }
}

pub open spec fn str_result(r: Result<StrTerm, LowerError>) -> Result<StrT, LowerErr> {
    match r {
        Ok(t) => Ok(t@),
        Err(e) => Err(e@),
    }
}

pub open spec fn bool_result(r: Result<BoolTerm, LowerError>) -> Result<BoolT, LowerErr> {
    match r {
        Ok(t) => Ok(t@),
        Err(e) => Err(e@),
    }
}

fn text(s: &str) -> (r: String)
    ensures
        r@ == s@,
{
    String::from_str(s)
}

fn solver_failure(m: &str) -> (r: LowerError)
    ensures
        r@ == LowerErr::Error(ErrorV::SolverError(m@)),
{
    LowerError::Error(SymExError::SolverError(text(m)))
}

fn binop_debug_name(op: BinOp) -> (r: &'static str)
    ensures
        r@ == binop_name(op),
{
    match op {
        BinOp::Add => "Add",
        BinOp::Sub => "Sub",
        BinOp::Mul => "Mul",
        BinOp::Div => "Div",
        BinOp::Mod => "Mod",
        BinOp::BitAnd => "BitAnd",
        BinOp::BitOr => "BitOr",
        BinOp::BitXor => "BitXor",
        BinOp::Shl => "Shl",
        BinOp::Shr => "Shr",
        BinOp::Eq => "Eq",
        BinOp::Ne => "Ne",
        BinOp::Lt => "Lt",
        BinOp::Le => "Le",
        BinOp::Gt => "Gt",
        BinOp::Ge => "Ge",
        BinOp::StrConcat => "StrConcat",
        BinOp::StrLexLt => "StrLexLt",
        BinOp::StrLexLe => "StrLexLe",
    }
}

fn name_error(n: &String) -> (r: Option<SymExError>)
    ensures
        match check_name(n@) {
            Some(e) => r matches Some(x) && x@ == e,
            None => r is None,
        },
{
    let cs = chars_of(n.as_str());
    if cs.len() == 0 {
        Some(SymExError::MalformedExpression(text("Variable name cannot be empty")))
    } else if !all_crate_name_chars(&cs) {
        let mut m: Vec<char> = Vec::new();
        push_text(&mut m, "Invalid variable name '");
        push_text(&mut m, n.as_str());
        push_text(&mut m, "': must contain only alphanumeric characters and underscores");
        Some(SymExError::MalformedExpression(string_from_chars(&m)))
    } else {
        None
    }
}

fn int_constant(c: &ConstValue) -> (r: Result<IntTerm, LowerError>)
    ensures
        int_result(r) == int_const(c@),
{
    let mismatch = |found: &str| -> (x: LowerError)
        ensures
            x@ == LowerErr::Error(ErrorV::TypeMismatch { expected: "integer"@, found: found@ }),
        {
            LowerError::Error(SymExError::TypeMismatch { expected: text("integer"), found: text(found) })
        };
    match c {
        ConstValue::I64(n) => Ok(IntTerm::Num(*n)),
        ConstValue::I32(n) => Ok(IntTerm::Num(*n as i64)),
        ConstValue::U64(n) => if *n > 0x7fff_ffff_ffff_ffffu64 {
            let mut m: Vec<char> = Vec::new();
            push_text(&mut m, "U64 value ");
            push_decimal(&mut m, *n);
            push_text(&mut m, " exceeds maximum i64 value");
            Err(LowerError::Error(SymExError::OverflowError(string_from_chars(&m))))
        } else {
            Ok(IntTerm::Num(*n as i64))
        },
        ConstValue::U32(n) => Ok(IntTerm::Num(*n as i64)),
        ConstValue::U8(n) => Ok(IntTerm::Num(*n as i64)),
        ConstValue::F64(b) => {
            let (nan, inf, _, _) = f64_class(*b);
            if nan {
                Err(LowerError::Error(SymExError::InvalidOperation(text("Cannot convert NaN to integer"))))
            } else if inf {
                Err(LowerError::Error(SymExError::InvalidOperation(text("Cannot convert infinity to integer"))))
            } else {
                Err(mismatch("float"))
            }
        },
        ConstValue::F32(b) => {
            let (nan, inf, _, _) = f32_class(*b);
            if nan {
                Err(LowerError::Error(SymExError::InvalidOperation(text("Cannot convert NaN to integer"))))
            } else if inf {
                Err(LowerError::Error(SymExError::InvalidOperation(text("Cannot convert infinity to integer"))))
            } else {
                Err(mismatch("float"))
            }
        },
        ConstValue::Bool(_) => Err(mismatch("boolean")),
        ConstValue::String(_) => Err(mismatch("string")),
    }
}

fn int_binary(op: BinOp, a: IntTerm, b: IntTerm) -> (r: Result<IntTerm, LowerError>)
    ensures
        int_result(r) == int_bin(op, a@, b@),
{
    let (x, y) = (Box::new(a), Box::new(b));
    match op {
        BinOp::Add => Ok(IntTerm::Add(x, y)),
        BinOp::Sub => Ok(IntTerm::Sub(x, y)),
        BinOp::Mul => Ok(IntTerm::Mul(x, y)),
        BinOp::Div => Ok(IntTerm::Div(x, y)),
        BinOp::Mod => Ok(IntTerm::Mod(x, y)),
        BinOp::BitAnd | BinOp::BitOr | BinOp::BitXor => Err(
            solver_failure("Bitwise operations on integers not yet supported"),
        ),
        BinOp::Shl | BinOp::Shr => Err(solver_failure("Shift operations on integers not yet supported")),
        _ => {
            let mut m: Vec<char> = Vec::new();
            push_text(&mut m, "Unsupported integer operation: ");
            push_text(&mut m, binop_debug_name(op));
            Err(LowerError::Error(SymExError::SolverError(string_from_chars(&m))))
        },
    }
}

/// Lowers an expression in the integer sort.
pub fn lower_int_term(e: &SymExpr) -> (r: Result<IntTerm, LowerError>)
    ensures
        int_result(r) == lower_int(e@),
    decreases e, 1nat,
{
    match e {
        SymExpr::Variable(n) => match name_error(n) {
            Some(err) => Err(LowerError::Error(err)),
            None => Ok(IntTerm::Var(n.clone())),
        },
        SymExpr::Constant(c) => int_constant(c),
        SymExpr::BinaryOp(op, l, r) => {
            let a = match lower_int_term(l) {
                Ok(t) => t,
                Err(err) => {
                    return Err(err);
                },
            };
            let b = match lower_int_term(r) {
                Ok(t) => t,
                Err(err) => {
                    return Err(err);
                },
            };
            int_binary(*op, a, b)
        },
        SymExpr::UnaryOp(op, x) => match op {
            UnOp::Neg => match lower_int_term(x) {
                Ok(a) => Ok(IntTerm::Neg(Box::new(a))),
                Err(err) => Err(err),
            },
            UnOp::StrLen => match lower_str_term(x) {
                Ok(_) => Err(
                    solver_failure("String length operation not yet fully implemented in Z3 Rust bindings"),
                ),
                Err(err) => Err(err),
            },
            UnOp::Not => Err(solver_failure("Unsupported unary integer operation: Not")),
        },
        SymExpr::Conditional(c, t, f) => {
            let cc = match lower_bool_term(c) {
                Ok(x) => x,
                Err(err) => {
                    return Err(err);
                },
            };
            let tt = match lower_int_term(t) {
                Ok(x) => x,
                Err(err) => {
                    return Err(err);
                },
            };
            let ff = match lower_int_term(f) {
                Ok(x) => x,
                Err(err) => {
                    return Err(err);
                },
            };
            Ok(IntTerm::Ite(Box::new(cc), Box::new(tt), Box::new(ff)))
        },
        SymExpr::StrIndexOf(h, n, o) => {
            match lower_str_term(h) {
                Ok(_) => {},
                Err(err) => {
                    return Err(err);
                },
            }
            match lower_str_term(n) {
                Ok(_) => {},
                Err(err) => {
                    return Err(err);
                },
            }
            match lower_int_term(o) {
                Ok(_) => {},
                Err(err) => {
                    return Err(err);
                },
            }
            Err(solver_failure("String index_of operation not yet fully implemented in Z3 Rust bindings"))
        },
        _ => Err(
            LowerError::Error(SymExError::TypeMismatch { expected: text("integer"), found: text("string") }),
        ),
    }
}

/// Lowers an expression in the string sort.
pub fn lower_str_term(e: &SymExpr) -> (r: Result<StrTerm, LowerError>)
    ensures
        str_result(r) == lower_str(e@),
    decreases e, 1nat,
{
    match e {
        SymExpr::Variable(n) => match name_error(n) {
            Some(err) => Err(LowerError::Error(err)),
            None => Ok(StrTerm::Var(n.clone())),
        },
        SymExpr::Constant(ConstValue::String(s)) => {
            let cs = chars_of(s.as_str());
            let mut i: usize = 0;
            let mut nul = false;
            while i < cs.len()
                invariant
                    i <= cs@.len(),
                    cs@ == s@,
                    nul == (exists|k: int| 0 <= k < i && cs@[k] == '\0'),
                decreases cs@.len() - i,
            {
                if cs[i] == '\0' {
                    nul = true;
                }
                i = i + 1;
            }
            proof {
                if nul {
                    let k = choose|k: int| 0 <= k < i && cs@[k] == '\0';
                    assert(s@[k] == '\0');
                }
                if s@.contains('\0') {
                    let k = choose|k: int| 0 <= k < s@.len() && s@[k] == '\0';
                    assert(cs@[k] == '\0');
                }
            }
            if nul {
                let mut m: Vec<char> = Vec::new();
                push_text(&mut m, "Failed to create Z3 string literal from '");
                push_text(&mut m, s.as_str());
                push_text(&mut m, "'");
                Err(LowerError::Error(SymExError::SolverError(string_from_chars(&m))))
            } else {
                Ok(StrTerm::Lit(s.clone()))
            }
        },
        SymExpr::BinaryOp(BinOp::StrConcat, l, r) => {
            let a = match lower_str_term(l) {
                Ok(t) => t,
                Err(err) => {
                    return Err(err);
                },
            };
            let b = match lower_str_term(r) {
                Ok(t) => t,
                Err(err) => {
                    return Err(err);
                },
            };
            Ok(StrTerm::Concat(Box::new(a), Box::new(b)))
        },
        SymExpr::StrSubstring(s, a, b) => {
            match lower_str_term(s) {
                Ok(_) => {},
                Err(err) => {
                    return Err(err);
                },
            }
            match lower_int_term(a) {
                Ok(_) => {},
                Err(err) => {
                    return Err(err);
                },
            }
            match lower_int_term(b) {
                Ok(_) => {},
                Err(err) => {
                    return Err(err);
                },
            }
            Err(solver_failure("String substring operation not yet fully implemented in Z3 Rust bindings"))
        },
        SymExpr::StrReplace(s, p, r) | SymExpr::StrReplaceAll(s, p, r) => {
            match lower_str_term(s) {
                Ok(_) => {},
                Err(err) => {
                    return Err(err);
                },
            }
            match lower_str_term(p) {
                Ok(_) => {},
                Err(err) => {
                    return Err(err);
                },
            }
            match lower_str_term(r) {
                Ok(_) => {},
                Err(err) => {
                    return Err(err);
                },
            }
            match e {
                SymExpr::StrReplace(_, _, _) => Err(
                    solver_failure("String replace operation not yet fully implemented in Z3 Rust bindings"),
                ),
                _ => Err(
                    solver_failure("String replace_all operation not yet fully implemented in Z3 Rust bindings"),
                ),
            }
        },
        SymExpr::StrAt(s, i) => {
            match lower_str_term(s) {
                Ok(_) => {},
                Err(err) => {
                    return Err(err);
                },
            }
            match lower_int_term(i) {
                Ok(_) => {},
                Err(err) => {
                    return Err(err);
                },
            }
            Err(solver_failure("String char_at operation not yet fully implemented in Z3 Rust bindings"))
        },
        _ => Err(LowerError::NotAString(e.clone())),
    }
}

fn lower_ordering(e: &SymExpr) -> (res: Result<BoolTerm, LowerError>)
    requires
        e matches SymExpr::BinaryOp(op, _, _) && (op == BinOp::Lt || op == BinOp::Le || op
            == BinOp::Gt || op == BinOp::Ge),
    ensures
        e matches SymExpr::BinaryOp(op, l, r) && bool_result(res) == lower_order(
            *op,
            lower_int(l@),
            lower_int(r@),
            lower_str(l@),
            lower_str(r@),
        ),
    decreases e, 0nat,
{
    let (op, l, r) = match e {
        SymExpr::BinaryOp(op, l, r) => (*op, l, r),
        _ => {
            proof {
                assert(false);
            }
            return Err(solver_failure(""));
        },
    };
    let li = lower_int_term(l);
    let ri = lower_int_term(r);
    match (li, ri) {
        (Ok(a), Ok(b)) => {
            let (x, y) = (Box::new(a), Box::new(b));
            Ok(
                match op {
                    BinOp::Lt => BoolTerm::Lt(x, y),
                    BinOp::Le => BoolTerm::Le(x, y),
                    BinOp::Gt => BoolTerm::Gt(x, y),
                    _ => BoolTerm::Ge(x, y),
                },
            )
        },
        (Err(first), _) | (_, Err(first)) => {
            let malformed = match &first {
                LowerError::Error(SymExError::MalformedExpression(_)) => true,
                _ => false,
            };
            if malformed {
                return Err(first);
            }
            let ls = lower_str_term(l);
            let rs = lower_str_term(r);
            if ls.is_ok() && rs.is_ok() {
                Err(
                    solver_failure(
                        "String lexicographic comparison not yet fully implemented in Z3 Rust bindings",
                    ),
                )
            } else {
                Err(
                    solver_failure(
                        match op {
                            BinOp::Lt => "Type mismatch in less-than comparison",
                            BinOp::Le => "Type mismatch in less-than-or-equal comparison",
                            BinOp::Gt => "Type mismatch in greater-than comparison",
                            _ => "Type mismatch in greater-than-or-equal comparison",
                        },
                    ),
                )
            }
        },
    }
}

fn lower_eq(negate: bool, e: &SymExpr) -> (res: Result<BoolTerm, LowerError>)
    requires
        e is BinaryOp,
    ensures
        e matches SymExpr::BinaryOp(_, l, r) && bool_result(res) == lower_equality(
            negate,
            lower_int(l@),
            lower_int(r@),
            lower_bool(l@),
            lower_bool(r@),
            lower_str(l@),
            lower_str(r@),
        ),
    decreases e, 0nat,
{
    let (l, r) = match e {
        SymExpr::BinaryOp(_, l, r) => (l, r),
        _ => {
            proof {
                assert(false);
            }
            return Err(solver_failure(""));
        },
    };
    let li = lower_int_term(l);
    let ri = lower_int_term(r);
    let eq: Option<BoolTerm> = if li.is_ok() && ri.is_ok() {
        Some(BoolTerm::IntEq(Box::new(li.unwrap()), Box::new(ri.unwrap())))
    } else {
        let lb = lower_bool_term(l);
        let rb = lower_bool_term(r);
        if lb.is_ok() && rb.is_ok() {
            Some(BoolTerm::BoolEq(Box::new(lb.unwrap()), Box::new(rb.unwrap())))
        } else {
            let ls = lower_str_term(l);
            let rs = lower_str_term(r);
            if ls.is_ok() && rs.is_ok() {
                Some(BoolTerm::StrEq(Box::new(ls.unwrap()), Box::new(rs.unwrap())))
            } else {
                None
            }
        }
    };
    match eq {
        Some(t) => {
            if negate {
                let n = BoolTerm::Not(Box::new(t));
                assert(n@ == BoolT::Not(Box::new(t@)));
                Ok(n)
            } else {
                Ok(t)
            }
        },
        None => Err(
            solver_failure(
                if negate {
                    "Type mismatch in inequality comparison"
                } else {
                    "Type mismatch in equality comparison"
                },
            ),
        ),
    }
}

/// Lowers an expression in the boolean sort.
pub fn lower_bool_term(e: &SymExpr) -> (r: Result<BoolTerm, LowerError>)
    ensures
        bool_result(r) == lower_bool(e@),
    decreases e, 1nat,
{
    match e {
        SymExpr::Variable(n) => Ok(BoolTerm::Var(n.clone())),
        SymExpr::Constant(ConstValue::Bool(b)) => Ok(BoolTerm::Lit(*b)),
        SymExpr::BinaryOp(op, l, r) => match op {
            BinOp::Eq => lower_eq(false, e),
            BinOp::Ne => lower_eq(true, e),
            BinOp::Lt | BinOp::Le | BinOp::Gt | BinOp::Ge => lower_ordering(e),
            BinOp::BitAnd | BinOp::BitOr | BinOp::BitXor => {
                let a = match lower_bool_term(l) {
                    Ok(t) => t,
                    Err(err) => {
                        return Err(err);
                    },
                };
                let b = match lower_bool_term(r) {
                    Ok(t) => t,
                    Err(err) => {
                        return Err(err);
                    },
                };
                let (x, y) = (Box::new(a), Box::new(b));
                Ok(
                    match op {
                        BinOp::BitAnd => BoolTerm::And(x, y),
                        BinOp::BitOr => BoolTerm::Or(x, y),
                        _ => BoolTerm::Xor(x, y),
                    },
                )
            },
            _ => {
                let mut m: Vec<char> = Vec::new();
                push_text(&mut m, "Unsupported boolean operation: ");
                push_text(&mut m, binop_debug_name(*op));
                Err(LowerError::Error(SymExError::SolverError(string_from_chars(&m))))
            },
        },
        SymExpr::UnaryOp(UnOp::Not, x) => match lower_bool_term(x) {
            Ok(a) => Ok(BoolTerm::Not(Box::new(a))),
            Err(err) => Err(err),
        },
        SymExpr::Conditional(c, t, f) => {
            let cc = match lower_bool_term(c) {
                Ok(x) => x,
                Err(err) => {
                    return Err(err);
                },
            };
            let tt = match lower_bool_term(t) {
                Ok(x) => x,
                Err(err) => {
                    return Err(err);
                },
            };
            let ff = match lower_bool_term(f) {
                Ok(x) => x,
                Err(err) => {
                    return Err(err);
                },
            };
            Ok(BoolTerm::Ite(Box::new(cc), Box::new(tt), Box::new(ff)))
        },
        SymExpr::StrContains(a, b) | SymExpr::StrPrefixOf(a, b) | SymExpr::StrSuffixOf(a, b) => {
            let x = match lower_str_term(a) {
                Ok(t) => t,
                Err(err) => {
                    return Err(err);
                },
            };
            let y = match lower_str_term(b) {
                Ok(t) => t,
                Err(err) => {
                    return Err(err);
                },
            };
            Ok(
                match e {
                    SymExpr::StrContains(_, _) => BoolTerm::Contains(Box::new(x), Box::new(y)),
                    SymExpr::StrPrefixOf(_, _) => BoolTerm::Prefix(Box::new(x), Box::new(y)),
                    _ => BoolTerm::Suffix(Box::new(x), Box::new(y)),
                },
            )
        },
        _ => Err(solver_failure("Unsupported expression type for boolean conversion")),
    }
}

} // verus!
