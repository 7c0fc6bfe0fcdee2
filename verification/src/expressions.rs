//! Symbolic expression trees: construction, queries, structural measures and
//! structural equality.
//!
//! An expression is modelled by [`Expr`], the same tree with strings taken as
//! character sequences. Floating-point constants are carried as their IEEE-754
//! bit patterns.
use vstd::prelude::*;
use crate::floatbits::{
    f64_ieee_eq, f32_ieee_eq, f64_equal, f32_equal,
    clamp, f32_exp, f32_frac, f32_is_inf, f32_is_nan, f32_to_int, f32_truncate, f64_exp, f64_frac,
    f64_is_inf, f64_is_nan, f64_to_int, f64_truncate, float_to_int, saturate, trunc_magnitude, Truncated,
};
use std::collections::HashMap;
use std::hash::{Hash, Hasher};

verus! {

/// Binary operations of symbolic expressions.
#[derive(Debug, Clone, Copy, PartialEq, Eq, Structural, Hash)]
pub enum BinOp {
    Add,
    Sub,
    Mul,
    Div,
    Mod,
    BitAnd,
    BitOr,
    BitXor,
    Shl,
    Shr,
    Eq,
    Ne,
    Lt,
    Le,
    Gt,
    Ge,
    /// String concatenation (`str.++`).
    StrConcat,
    /// Lexicographic less-than on strings (`str.<`).
    StrLexLt,
    /// Lexicographic less-or-equal on strings (`str.<=`).
    StrLexLe,
}

/// Unary operations of symbolic expressions.
#[derive(Debug, Clone, Copy, PartialEq, Eq, Structural, Hash)]
pub enum UnOp {
    /// Arithmetic negation.
    Neg,
    /// Logical or bitwise not.
    Not,
    /// String length (`str.len`).
    StrLen,
}

/// Constant values. `F64` and `F32` hold the IEEE-754 bit pattern of the float.
#[derive(Debug, Hash)]
pub enum ConstValue {
    U64(u64),
    I64(i64),
    F64(u64),
    Bool(bool),
    U8(u8),
    U32(u32),
    I32(i32),
    F32(u32),
    String(String),
}

/// Symbolic expression tree.
#[derive(Debug, Hash)]
pub enum SymExpr {
    /// Symbolic variable with a unique name.
    Variable(String),
    /// Concrete constant.
    Constant(ConstValue),
    /// Binary operation.
    BinaryOp(BinOp, Box<SymExpr>, Box<SymExpr>),
    /// Unary operation.
    UnaryOp(UnOp, Box<SymExpr>),
    /// If-then-else.
    Conditional(Box<SymExpr>, Box<SymExpr>, Box<SymExpr>),
    /// `str.substr(string, start, length)`.
    StrSubstring(Box<SymExpr>, Box<SymExpr>, Box<SymExpr>),
    /// `str.contains(haystack, needle)`.
    StrContains(Box<SymExpr>, Box<SymExpr>),
    /// `str.prefixof(prefix, string)`.
    StrPrefixOf(Box<SymExpr>, Box<SymExpr>),
    /// `str.suffixof(suffix, string)`.
    StrSuffixOf(Box<SymExpr>, Box<SymExpr>),
    /// `str.replace(string, pattern, replacement)`.
    StrReplace(Box<SymExpr>, Box<SymExpr>, Box<SymExpr>),
    /// `str.replace_all(string, pattern, replacement)`.
    StrReplaceAll(Box<SymExpr>, Box<SymExpr>, Box<SymExpr>),
    /// `str.at(string, index)`.
    StrAt(Box<SymExpr>, Box<SymExpr>),
    /// `str.indexof(haystack, needle, offset)`.
    StrIndexOf(Box<SymExpr>, Box<SymExpr>, Box<SymExpr>),
}

/// Model of a constant.
pub enum CVal {
    U64(u64),
    I64(i64),
    F64(u64),
    Bool(bool),
    U8(u8),
    U32(u32),
    I32(i32),
    F32(u32),
    Str(Seq<char>),
}

/// Model of an expression.
pub enum Expr {
    Var(Seq<char>),
    Const(CVal),
    Bin(BinOp, Box<Expr>, Box<Expr>),
    Un(UnOp, Box<Expr>),
    Cond(Box<Expr>, Box<Expr>, Box<Expr>),
    Substr(Box<Expr>, Box<Expr>, Box<Expr>),
    Contains(Box<Expr>, Box<Expr>),
    PrefixOf(Box<Expr>, Box<Expr>),
    SuffixOf(Box<Expr>, Box<Expr>),
    Replace(Box<Expr>, Box<Expr>, Box<Expr>),
    ReplaceAll(Box<Expr>, Box<Expr>, Box<Expr>),
    At(Box<Expr>, Box<Expr>),
    IndexOf(Box<Expr>, Box<Expr>, Box<Expr>),
}

impl View for ConstValue {
    type V = CVal;

    open spec fn view(&self) -> CVal {
        match self {
            ConstValue::U64(v) => CVal::U64(*v),
            ConstValue::I64(v) => CVal::I64(*v),
            ConstValue::F64(v) => CVal::F64(*v),
            ConstValue::Bool(v) => CVal::Bool(*v),
            ConstValue::U8(v) => CVal::U8(*v),
            ConstValue::U32(v) => CVal::U32(*v),
            ConstValue::I32(v) => CVal::I32(*v),
            ConstValue::F32(v) => CVal::F32(*v),
            ConstValue::String(s) => CVal::Str(s@),
        }
    }
}

/// The model of an expression tree.
pub open spec fn expr_view(e: &SymExpr) -> Expr
    decreases e,
{
    match e {
        SymExpr::Variable(n) => Expr::Var(n@),
        SymExpr::Constant(c) => Expr::Const(c@),
        SymExpr::BinaryOp(op, l, r) => Expr::Bin(*op, Box::new(expr_view(l)), Box::new(expr_view(r))),
        SymExpr::UnaryOp(op, x) => Expr::Un(*op, Box::new(expr_view(x))),
        SymExpr::Conditional(c, t, f) => Expr::Cond(
            Box::new(expr_view(c)),
            Box::new(expr_view(t)),
            Box::new(expr_view(f)),
        ),
        SymExpr::StrSubstring(a, b, c) => Expr::Substr(
            Box::new(expr_view(a)),
            Box::new(expr_view(b)),
            Box::new(expr_view(c)),
        ),
        SymExpr::StrContains(a, b) => Expr::Contains(Box::new(expr_view(a)), Box::new(expr_view(b))),
        SymExpr::StrPrefixOf(a, b) => Expr::PrefixOf(Box::new(expr_view(a)), Box::new(expr_view(b))),
        SymExpr::StrSuffixOf(a, b) => Expr::SuffixOf(Box::new(expr_view(a)), Box::new(expr_view(b))),
        SymExpr::StrReplace(a, b, c) => Expr::Replace(
            Box::new(expr_view(a)),
            Box::new(expr_view(b)),
            Box::new(expr_view(c)),
        ),
        SymExpr::StrReplaceAll(a, b, c) => Expr::ReplaceAll(
            Box::new(expr_view(a)),
            Box::new(expr_view(b)),
            Box::new(expr_view(c)),
        ),
        SymExpr::StrAt(a, b) => Expr::At(Box::new(expr_view(a)), Box::new(expr_view(b))),
        SymExpr::StrIndexOf(a, b, c) => Expr::IndexOf(
            Box::new(expr_view(a)),
            Box::new(expr_view(b)),
            Box::new(expr_view(c)),
        ),
    }
}

impl View for SymExpr {
    type V = Expr;

    open spec fn view(&self) -> Expr {
        expr_view(self)
    }
}

// ---------------------------------------------------------------------------
// Structural measures
// ---------------------------------------------------------------------------

/// Larger of two integers.
pub open spec fn max2(a: int, b: int) -> int {
    if a >= b { a } else { b }
}

/// Larger of three integers.
pub open spec fn max3(a: int, b: int, c: int) -> int {
    max2(max2(a, b), c)
}

/// Height of an expression tree (a leaf has depth 1).
pub open spec fn depth_of(e: Expr) -> int
    decreases e,
{
    match e {
        Expr::Var(_) | Expr::Const(_) => 1,
        Expr::Un(_, x) => 1 + depth_of(*x),
        Expr::Bin(_, a, b) | Expr::Contains(a, b) | Expr::PrefixOf(a, b) | Expr::SuffixOf(a, b)
        | Expr::At(a, b) => 1 + max2(depth_of(*a), depth_of(*b)),
        Expr::Cond(a, b, c) | Expr::Substr(a, b, c) | Expr::Replace(a, b, c) | Expr::ReplaceAll(
            a,
            b,
            c,
        ) | Expr::IndexOf(a, b, c) => 1 + max3(depth_of(*a), depth_of(*b), depth_of(*c)),
    }
}

/// Number of nodes of an expression tree.
pub open spec fn nodes_of(e: Expr) -> int
    decreases e,
{
    match e {
        Expr::Var(_) | Expr::Const(_) => 1,
        Expr::Un(_, x) => 1 + nodes_of(*x),
        Expr::Bin(_, a, b) | Expr::Contains(a, b) | Expr::PrefixOf(a, b) | Expr::SuffixOf(a, b)
        | Expr::At(a, b) => 1 + nodes_of(*a) + nodes_of(*b),
        Expr::Cond(a, b, c) | Expr::Substr(a, b, c) | Expr::Replace(a, b, c) | Expr::ReplaceAll(
            a,
            b,
            c,
        ) | Expr::IndexOf(a, b, c) => 1 + nodes_of(*a) + nodes_of(*b) + nodes_of(*c),
    }
}

/// Depth never exceeds the node count, and both are at least one.
pub proof fn lemma_depth_le_nodes(e: Expr)
    ensures
        1 <= depth_of(e) <= nodes_of(e),
    decreases e,
{
    match e {
        Expr::Var(_) | Expr::Const(_) => {},
        Expr::Un(_, x) => lemma_depth_le_nodes(*x),
        Expr::Bin(_, a, b) | Expr::Contains(a, b) | Expr::PrefixOf(a, b) | Expr::SuffixOf(a, b)
        | Expr::At(a, b) => {
            lemma_depth_le_nodes(*a);
            lemma_depth_le_nodes(*b);
        },
        Expr::Cond(a, b, c) | Expr::Substr(a, b, c) | Expr::Replace(a, b, c) | Expr::ReplaceAll(
            a,
            b,
            c,
        ) | Expr::IndexOf(a, b, c) => {
            lemma_depth_le_nodes(*a);
            lemma_depth_le_nodes(*b);
            lemma_depth_le_nodes(*c);
        },
    }
}

// ---------------------------------------------------------------------------
// Cloning and equality
// ---------------------------------------------------------------------------

impl Clone for ConstValue {
    fn clone(&self) -> (r: Self)
        ensures
            r@ == self@,
    {
        match self {
            ConstValue::U64(v) => ConstValue::U64(*v),
            ConstValue::I64(v) => ConstValue::I64(*v),
            ConstValue::F64(v) => ConstValue::F64(*v),
            ConstValue::Bool(v) => ConstValue::Bool(*v),
            ConstValue::U8(v) => ConstValue::U8(*v),
            ConstValue::U32(v) => ConstValue::U32(*v),
            ConstValue::I32(v) => ConstValue::I32(*v),
            ConstValue::F32(v) => ConstValue::F32(*v),
            ConstValue::String(s) => ConstValue::String(s.clone()),
        }
    }
}

impl Clone for SymExpr {
    fn clone(&self) -> (r: Self)
        ensures
            r@ == self@,
        decreases self,
    {
        match self {
            SymExpr::Variable(n) => SymExpr::Variable(n.clone()),
            SymExpr::Constant(c) => SymExpr::Constant(c.clone()),
            SymExpr::BinaryOp(op, l, r) => SymExpr::BinaryOp(*op, Box::new((**l).clone()), Box::new((**r).clone())),
            SymExpr::UnaryOp(op, x) => SymExpr::UnaryOp(*op, Box::new((**x).clone())),
            SymExpr::Conditional(a, b, c) => SymExpr::Conditional(
                Box::new((**a).clone()),
                Box::new((**b).clone()),
                Box::new((**c).clone()),
            ),
            SymExpr::StrSubstring(a, b, c) => SymExpr::StrSubstring(
                Box::new((**a).clone()),
                Box::new((**b).clone()),
                Box::new((**c).clone()),
            ),
            SymExpr::StrContains(a, b) => SymExpr::StrContains(Box::new((**a).clone()), Box::new((**b).clone())),
            SymExpr::StrPrefixOf(a, b) => SymExpr::StrPrefixOf(Box::new((**a).clone()), Box::new((**b).clone())),
            SymExpr::StrSuffixOf(a, b) => SymExpr::StrSuffixOf(Box::new((**a).clone()), Box::new((**b).clone())),
            SymExpr::StrReplace(a, b, c) => SymExpr::StrReplace(
                Box::new((**a).clone()),
                Box::new((**b).clone()),
                Box::new((**c).clone()),
            ),
            SymExpr::StrReplaceAll(a, b, c) => SymExpr::StrReplaceAll(
                Box::new((**a).clone()),
                Box::new((**b).clone()),
                Box::new((**c).clone()),
            ),
            SymExpr::StrAt(a, b) => SymExpr::StrAt(Box::new((**a).clone()), Box::new((**b).clone())),
            SymExpr::StrIndexOf(a, b, c) => SymExpr::StrIndexOf(
                Box::new((**a).clone()),
                Box::new((**b).clone()),
                Box::new((**c).clone()),
            ),
        }
    }
}

/// Equality of constants: floats compare as IEEE-754 numbers (NaN equals
/// nothing, the zeros are equal), other values structurally.
pub open spec fn cval_eq(a: CVal, b: CVal) -> bool {
    match (a, b) {
        (CVal::F64(x), CVal::F64(y)) => f64_ieee_eq(x, y),
        (CVal::F32(x), CVal::F32(y)) => f32_ieee_eq(x, y),
        _ => a == b,
    }
}

/// Equality of expression trees, constants compared by [`cval_eq`].
pub open spec fn expr_eq(a: Expr, b: Expr) -> bool
    decreases a,
{
    match (a, b) {
        (Expr::Var(x), Expr::Var(y)) => x == y,
        (Expr::Const(x), Expr::Const(y)) => cval_eq(x, y),
        (Expr::Bin(o1, a1, b1), Expr::Bin(o2, a2, b2)) => o1 == o2 && expr_eq(*a1, *a2) && expr_eq(*b1, *b2),
        (Expr::Un(o1, a1), Expr::Un(o2, a2)) => o1 == o2 && expr_eq(*a1, *a2),
        (Expr::Cond(a1, b1, c1), Expr::Cond(a2, b2, c2)) => expr_eq(*a1, *a2) && expr_eq(*b1, *b2) && expr_eq(*c1, *c2),
        (Expr::Substr(a1, b1, c1), Expr::Substr(a2, b2, c2)) => expr_eq(*a1, *a2) && expr_eq(*b1, *b2) && expr_eq(*c1, *c2),
        (Expr::Contains(a1, b1), Expr::Contains(a2, b2)) => expr_eq(*a1, *a2) && expr_eq(*b1, *b2),
        (Expr::PrefixOf(a1, b1), Expr::PrefixOf(a2, b2)) => expr_eq(*a1, *a2) && expr_eq(*b1, *b2),
        (Expr::SuffixOf(a1, b1), Expr::SuffixOf(a2, b2)) => expr_eq(*a1, *a2) && expr_eq(*b1, *b2),
        (Expr::Replace(a1, b1, c1), Expr::Replace(a2, b2, c2)) => expr_eq(*a1, *a2) && expr_eq(*b1, *b2) && expr_eq(*c1, *c2),
        (Expr::ReplaceAll(a1, b1, c1), Expr::ReplaceAll(a2, b2, c2)) => expr_eq(*a1, *a2) && expr_eq(*b1, *b2) && expr_eq(*c1, *c2),
        (Expr::At(a1, b1), Expr::At(a2, b2)) => expr_eq(*a1, *a2) && expr_eq(*b1, *b2),
        (Expr::IndexOf(a1, b1, c1), Expr::IndexOf(a2, b2, c2)) => expr_eq(*a1, *a2) && expr_eq(*b1, *b2) && expr_eq(*c1, *c2),
        _ => false,
    }
}

impl ConstValue {
    /// Equality of constants as `==` on them: floats compare as IEEE-754
    /// numbers, other values structurally.
    pub fn equals(&self, other: &ConstValue) -> (r: bool)
        ensures
            r == cval_eq(self@, other@),
    {
        match (self, other) {
            (ConstValue::U64(a), ConstValue::U64(b)) => *a == *b,
            (ConstValue::I64(a), ConstValue::I64(b)) => *a == *b,
            (ConstValue::F64(a), ConstValue::F64(b)) => f64_equal(*a, *b),
            (ConstValue::Bool(a), ConstValue::Bool(b)) => *a == *b,
            (ConstValue::U8(a), ConstValue::U8(b)) => *a == *b,
            (ConstValue::U32(a), ConstValue::U32(b)) => *a == *b,
            (ConstValue::I32(a), ConstValue::I32(b)) => *a == *b,
            (ConstValue::F32(a), ConstValue::F32(b)) => f32_equal(*a, *b),
            (ConstValue::String(a), ConstValue::String(b)) => *a == *b,
            _ => false,
        }
    }
}

impl SymExpr {
    /// Equality of expression trees as `==` on them: structural, with
    /// constants compared as [`ConstValue::equals`] does.
    pub fn equals(&self, other: &SymExpr) -> (r: bool)
        ensures
            r == expr_eq(self@, other@),
        decreases self,
    {
        match (self, other) {
            (SymExpr::Variable(a), SymExpr::Variable(b)) => *a == *b,
            (SymExpr::Constant(a), SymExpr::Constant(b)) => a.equals(b),
            (SymExpr::BinaryOp(o1, a1, b1), SymExpr::BinaryOp(o2, a2, b2)) => *o1 == *o2
                && a1.equals(&**a2) && b1.equals(&**b2),
            (SymExpr::UnaryOp(o1, a1), SymExpr::UnaryOp(o2, a2)) => *o1 == *o2 && a1.equals(
                &**a2,
            ),
            (SymExpr::Conditional(a1, b1, c1), SymExpr::Conditional(a2, b2, c2)) => a1.equals(
                &**a2,
            ) && b1.equals(&**b2) && c1.equals(&**c2),
            (SymExpr::StrSubstring(a1, b1, c1), SymExpr::StrSubstring(a2, b2, c2)) => a1.equals(
                &**a2,
            ) && b1.equals(&**b2) && c1.equals(&**c2),
            (SymExpr::StrContains(a1, b1), SymExpr::StrContains(a2, b2)) => a1.equals(
                &**a2,
            ) && b1.equals(&**b2),
            (SymExpr::StrPrefixOf(a1, b1), SymExpr::StrPrefixOf(a2, b2)) => a1.equals(
                &**a2,
            ) && b1.equals(&**b2),
            (SymExpr::StrSuffixOf(a1, b1), SymExpr::StrSuffixOf(a2, b2)) => a1.equals(
                &**a2,
            ) && b1.equals(&**b2),
            (SymExpr::StrReplace(a1, b1, c1), SymExpr::StrReplace(a2, b2, c2)) => a1.equals(
                &**a2,
            ) && b1.equals(&**b2) && c1.equals(&**c2),
            (SymExpr::StrReplaceAll(a1, b1, c1), SymExpr::StrReplaceAll(a2, b2, c2)) => a1.equals(
                &**a2,
            ) && b1.equals(&**b2) && c1.equals(&**c2),
            (SymExpr::StrAt(a1, b1), SymExpr::StrAt(a2, b2)) => a1.equals(&**a2)
                && b1.equals(&**b2),
            (SymExpr::StrIndexOf(a1, b1, c1), SymExpr::StrIndexOf(a2, b2, c2)) => a1.equals(
                &**a2,
            ) && b1.equals(&**b2) && c1.equals(&**c2),
            _ => false,
        }
    }
}

impl PartialEq for ConstValue {
    fn eq(&self, other: &Self) -> (r: bool) {
        self.equals(other)
    }
}

impl vstd::std_specs::cmp::PartialEqSpecImpl for ConstValue {
    open spec fn obeys_eq_spec() -> bool {
        true
    }

    open spec fn eq_spec(&self, other: &ConstValue) -> bool {
        cval_eq(self@, other@)
    }
}

impl PartialEq for SymExpr {
    fn eq(&self, other: &Self) -> (r: bool) {
        self.equals(other)
    }
}

impl vstd::std_specs::cmp::PartialEqSpecImpl for SymExpr {
    open spec fn obeys_eq_spec() -> bool {
        true
    }

    open spec fn eq_spec(&self, other: &SymExpr) -> bool {
        expr_eq(self@, other@)
    }
}


// ---------------------------------------------------------------------------
// Operator properties
// ---------------------------------------------------------------------------

/// SMT-LIB spelling of a binary operation.
pub open spec fn binop_smt(op: BinOp) -> Seq<char> {
    match op {
        BinOp::Add => "+"@,
        BinOp::Sub => "-"@,
        BinOp::Mul => "*"@,
        BinOp::Div => "div"@,
        BinOp::Mod => "mod"@,
        BinOp::BitAnd => "bvand"@,
        BinOp::BitOr => "bvor"@,
        BinOp::BitXor => "bvxor"@,
        BinOp::Shl => "bvshl"@,
        BinOp::Shr => "bvlshr"@,
        BinOp::Eq => "="@,
        BinOp::Ne => "distinct"@,
        BinOp::Lt => "<"@,
        BinOp::Le => "<="@,
        BinOp::Gt => ">"@,
        BinOp::Ge => ">="@,
        BinOp::StrConcat => "str.++"@,
        BinOp::StrLexLt => "str.<"@,
        BinOp::StrLexLe => "str.<="@,
    }
}

/// SMT-LIB spelling of a unary operation.
pub open spec fn unop_smt(op: UnOp) -> Seq<char> {
    match op {
        UnOp::Neg => "-"@,
        UnOp::Not => "not"@,
        UnOp::StrLen => "str.len"@,
    }
}

/// Binding strength of a binary operation (higher binds tighter).
pub open spec fn precedence_of(op: BinOp) -> u8 {
    match op {
        BinOp::Mul | BinOp::Div | BinOp::Mod => 6,
        BinOp::Add | BinOp::Sub => 5,
        BinOp::Shl | BinOp::Shr => 4,
        BinOp::BitAnd => 3,
        BinOp::BitXor => 2,
        BinOp::BitOr => 1,
        BinOp::Eq | BinOp::Ne | BinOp::Lt | BinOp::Le | BinOp::Gt | BinOp::Ge => 0,
        BinOp::StrConcat => 5,
        BinOp::StrLexLt | BinOp::StrLexLe => 0,
    }
}

impl UnOp {
    /// SMT-LIB spelling of this operation.
    pub fn to_smt_lib(&self) -> (r: &'static str)
        ensures
            r@ == unop_smt(*self),
    {
        match self {
            UnOp::Neg => "-",
            UnOp::Not => "not",
            UnOp::StrLen => "str.len",
        }
    }
}

impl BinOp {
    /// Is this one of `+ - * / %`?
    pub fn is_arithmetic(&self) -> (r: bool)
        ensures
            r == (*self is Add || *self is Sub || *self is Mul || *self is Div || *self is Mod),
    {
        matches!(self, BinOp::Add | BinOp::Sub | BinOp::Mul | BinOp::Div | BinOp::Mod)
    }

    /// Is this one of `& | ^ << >>`?
    pub fn is_bitwise(&self) -> (r: bool)
        ensures
            r == (*self is BitAnd || *self is BitOr || *self is BitXor || *self is Shl
                || *self is Shr),
    {
        matches!(self, BinOp::BitAnd | BinOp::BitOr | BinOp::BitXor | BinOp::Shl | BinOp::Shr)
    }

    /// Is this one of `== != < <= > >=`?
    pub fn is_comparison(&self) -> (r: bool)
        ensures
            r == (*self is Eq || *self is Ne || *self is Lt || *self is Le || *self is Gt
                || *self is Ge),
    {
        matches!(self, BinOp::Eq | BinOp::Ne | BinOp::Lt | BinOp::Le | BinOp::Gt | BinOp::Ge)
    }

    /// Binding strength (higher binds tighter).
    pub fn precedence(&self) -> (r: u8)
        ensures
            r == precedence_of(*self),
    {
        match self {
            BinOp::Mul | BinOp::Div | BinOp::Mod => 6,
            BinOp::Add | BinOp::Sub => 5,
            BinOp::Shl | BinOp::Shr => 4,
            BinOp::BitAnd => 3,
            BinOp::BitXor => 2,
            BinOp::BitOr => 1,
            BinOp::Eq | BinOp::Ne | BinOp::Lt | BinOp::Le | BinOp::Gt | BinOp::Ge => 0,
            BinOp::StrConcat => 5,
            BinOp::StrLexLt | BinOp::StrLexLe => 0,
        }
    }

    /// Is the operation commutative?
    pub fn is_commutative(&self) -> (r: bool)
        ensures
            r == (*self is Add || *self is Mul || *self is BitAnd || *self is BitOr
                || *self is BitXor || *self is Eq || *self is Ne),
    {
        matches!(
            self,
            BinOp::Add | BinOp::Mul | BinOp::BitAnd | BinOp::BitOr | BinOp::BitXor | BinOp::Eq
                | BinOp::Ne
        )
    }

    /// SMT-LIB spelling of this operation.
    pub fn to_smt_lib(&self) -> (r: &'static str)
        ensures
            r@ == binop_smt(*self),
    {
        match self {
            BinOp::Add => "+",
            BinOp::Sub => "-",
            BinOp::Mul => "*",
            BinOp::Div => "div",
            BinOp::Mod => "mod",
            BinOp::BitAnd => "bvand",
            BinOp::BitOr => "bvor",
            BinOp::BitXor => "bvxor",
            BinOp::Shl => "bvshl",
            BinOp::Shr => "bvlshr",
            BinOp::Eq => "=",
            BinOp::Ne => "distinct",
            BinOp::Lt => "<",
            BinOp::Le => "<=",
            BinOp::Gt => ">",
            BinOp::Ge => ">=",
            BinOp::StrConcat => "str.++",
            BinOp::StrLexLt => "str.<",
            BinOp::StrLexLe => "str.<=",
        }
    }
}

// ---------------------------------------------------------------------------
// Constants
// ---------------------------------------------------------------------------

/// Type name of a constant.
pub open spec fn type_name_of(c: CVal) -> Seq<char> {
    match c {
        CVal::U64(_) => "u64"@,
        CVal::I64(_) => "i64"@,
        CVal::F64(_) => "f64"@,
        CVal::Bool(_) => "bool"@,
        CVal::U8(_) => "u8"@,
        CVal::U32(_) => "u32"@,
        CVal::I32(_) => "i32"@,
        CVal::F32(_) => "f32"@,
        CVal::Str(_) => "string"@,
    }
}

/// SMT-LIB sort of a constant.
pub open spec fn smt_sort_of(c: CVal) -> Seq<char> {
    match c {
        CVal::U64(_) | CVal::I64(_) | CVal::U8(_) | CVal::U32(_) | CVal::I32(_) => "Int"@,
        CVal::F64(_) => "(_ FloatingPoint 11 53)"@,
        CVal::F32(_) => "(_ FloatingPoint 8 24)"@,
        CVal::Bool(_) => "Bool"@,
        CVal::Str(_) => "String"@,
    }
}

pub open spec fn is_integer_val(c: CVal) -> bool {
    c is U64 || c is I64 || c is U8 || c is U32 || c is I32
}

pub open spec fn is_float_val(c: CVal) -> bool {
    c is F64 || c is F32
}

/// Conversion of a numeric constant with Rust's `as` into `[lo, hi]`: integers
/// by two's-complement truncation, floats by saturation.
pub open spec fn cv_as_u64(c: CVal) -> Option<u64> {
    match c {
        CVal::U64(v) => Some(v),
        CVal::I64(v) => Some(v as u64),
        CVal::U32(v) => Some(v as u64),
        CVal::I32(v) => Some(v as u64),
        CVal::U8(v) => Some(v as u64),
        CVal::F64(b) => Some(f64_to_int(b, 0, u64::MAX as int) as u64),
        CVal::F32(b) => Some(f32_to_int(b, 0, u64::MAX as int) as u64),
        _ => None,
    }
}

pub open spec fn cv_as_i64(c: CVal) -> Option<i64> {
    match c {
        CVal::U64(v) => Some(v as i64),
        CVal::I64(v) => Some(v),
        CVal::U32(v) => Some(v as i64),
        CVal::I32(v) => Some(v as i64),
        CVal::U8(v) => Some(v as i64),
        CVal::F64(b) => Some(f64_to_int(b, i64::MIN as int, i64::MAX as int) as i64),
        CVal::F32(b) => Some(f32_to_int(b, i64::MIN as int, i64::MAX as int) as i64),
        _ => None,
    }
}

pub open spec fn cv_as_u32(c: CVal) -> Option<u32> {
    match c {
        CVal::U64(v) => Some(v as u32),
        CVal::I64(v) => Some(v as u32),
        CVal::U32(v) => Some(v),
        CVal::I32(v) => Some(v as u32),
        CVal::U8(v) => Some(v as u32),
        CVal::F64(b) => Some(f64_to_int(b, 0, u32::MAX as int) as u32),
        CVal::F32(b) => Some(f32_to_int(b, 0, u32::MAX as int) as u32),
        _ => None,
    }
}

pub open spec fn cv_as_i32(c: CVal) -> Option<i32> {
    match c {
        CVal::U64(v) => Some(v as i32),
        CVal::I64(v) => Some(v as i32),
        CVal::U32(v) => Some(v as i32),
        CVal::I32(v) => Some(v),
        CVal::U8(v) => Some(v as i32),
        CVal::F64(b) => Some(f64_to_int(b, i32::MIN as int, i32::MAX as int) as i32),
        CVal::F32(b) => Some(f32_to_int(b, i32::MIN as int, i32::MAX as int) as i32),
        _ => None,
    }
}

pub open spec fn cv_as_u8(c: CVal) -> Option<u8> {
    match c {
        CVal::U64(v) => Some(v as u8),
        CVal::I64(v) => Some(v as u8),
        CVal::U32(v) => Some(v as u8),
        CVal::I32(v) => Some(v as u8),
        CVal::U8(v) => Some(v),
        CVal::F64(b) => Some(f64_to_int(b, 0, u8::MAX as int) as u8),
        CVal::F32(b) => Some(f32_to_int(b, 0, u8::MAX as int) as u8),
        _ => None,
    }
}

proof fn lemma_saturate_is_conversion(
    t: Truncated,
    nan: bool,
    inf: bool,
    mag: nat,
    lo: int,
    hi: int,
    r: int,
)
    requires
        t.nan == nan,
        !nan && !inf ==> (t.mag matches Some(v) ==> v == mag),
        !nan && !inf ==> (t.mag is None ==> mag >= vstd::arithmetic::power2::pow2(64)),
        inf ==> t.mag is None,
        lo <= 0 <= hi,
        hi < 0x1_0000_0000_0000_0000int,
        -lo <= 0x8000_0000_0000_0000int,
        nan ==> r == 0,
        !nan ==> (t.mag matches Some(v) ==> r == clamp(
            if t.neg { -(v as int) } else { v as int },
            lo,
            hi,
        )),
        !nan ==> (t.mag is None ==> r == (if t.neg { lo } else { hi })),
    ensures
        r == float_to_int(nan, inf, t.neg, mag, lo, hi),
{
    vstd::arithmetic::power2::lemma2_to64_rest();
}

/// Saturating conversion of a double bit pattern into `[lo, hi]`.
fn f64_convert(b: u64, lo: i128, hi: i128) -> (r: i128)
    requires
        lo <= 0 <= hi,
        hi < 0x1_0000_0000_0000_0000i128,
        -lo <= 0x8000_0000_0000_0000i128,
    ensures
        r == f64_to_int(b, lo as int, hi as int),
        lo <= r <= hi,
{
    let t = f64_truncate(b);
    let r = saturate(&t, lo, hi);
    proof {
        lemma_saturate_is_conversion(
            t,
            f64_is_nan(b),
            f64_is_inf(b),
            trunc_magnitude(f64_exp(b), f64_frac(b), 52, 1075),
            lo as int,
            hi as int,
            r as int,
        );
    }
    r
}

/// Saturating conversion of a single bit pattern into `[lo, hi]`.
fn f32_convert(b: u32, lo: i128, hi: i128) -> (r: i128)
    requires
        lo <= 0 <= hi,
        hi < 0x1_0000_0000_0000_0000i128,
        -lo <= 0x8000_0000_0000_0000i128,
    ensures
        r == f32_to_int(b, lo as int, hi as int),
        lo <= r <= hi,
{
    let t = f32_truncate(b);
    let r = saturate(&t, lo, hi);
    proof {
        lemma_saturate_is_conversion(
            t,
            f32_is_nan(b),
            f32_is_inf(b),
            trunc_magnitude(f32_exp(b), f32_frac(b), 23, 150),
            lo as int,
            hi as int,
            r as int,
        );
    }
    r
}

impl ConstValue {
    /// A `U64` constant.
    pub fn u64(value: u64) -> (r: Self)
        ensures
            r@ == CVal::U64(value),
    {
        ConstValue::U64(value)
    }

    /// An `I64` constant.
    pub fn i64(value: i64) -> (r: Self)
        ensures
            r@ == CVal::I64(value),
    {
        ConstValue::I64(value)
    }

    /// A `Bool` constant.
    pub fn bool(value: bool) -> (r: Self)
        ensures
            r@ == CVal::Bool(value),
    {
        ConstValue::Bool(value)
    }

    /// A `U8` constant.
    pub fn u8(value: u8) -> (r: Self)
        ensures
            r@ == CVal::U8(value),
    {
        ConstValue::U8(value)
    }

    /// An `I32` constant.
    pub fn i32(value: i32) -> (r: Self)
        ensures
            r@ == CVal::I32(value),
    {
        ConstValue::I32(value)
    }

    /// Name of the constant's type.
    pub fn type_label(&self) -> (r: &'static str)
        ensures
            r@ == type_name_of(self@),
    {
        match self {
            ConstValue::U64(_) => "u64",
            ConstValue::I64(_) => "i64",
            ConstValue::F64(_) => "f64",
            ConstValue::Bool(_) => "bool",
            ConstValue::U8(_) => "u8",
            ConstValue::U32(_) => "u32",
            ConstValue::I32(_) => "i32",
            ConstValue::F32(_) => "f32",
            ConstValue::String(_) => "string",
        }
    }

    /// Numeric (neither boolean nor string)?
    pub fn is_numeric(&self) -> (r: bool)
        ensures
            r == !(self@ is Bool || self@ is Str),
    {
        !matches!(self, ConstValue::Bool(_) | ConstValue::String(_))
    }

    /// Integer typed?
    pub fn is_integer(&self) -> (r: bool)
        ensures
            r == is_integer_val(self@),
    {
        matches!(
            self,
            ConstValue::U64(_) | ConstValue::I64(_) | ConstValue::U8(_) | ConstValue::U32(_)
                | ConstValue::I32(_)
        )
    }

    /// Floating-point typed?
    pub fn is_float(&self) -> (r: bool)
        ensures
            r == is_float_val(self@),
    {
        matches!(self, ConstValue::F64(_) | ConstValue::F32(_))
    }

    /// SMT-LIB sort of the constant.
    pub fn smt_sort(&self) -> (r: &'static str)
        ensures
            r@ == smt_sort_of(self@),
    {
        match self {
            ConstValue::U64(_) | ConstValue::I64(_) | ConstValue::U8(_) | ConstValue::U32(_)
            | ConstValue::I32(_) => "Int",
            ConstValue::F64(_) => "(_ FloatingPoint 11 53)",
            ConstValue::F32(_) => "(_ FloatingPoint 8 24)",
            ConstValue::Bool(_) => "Bool",
            ConstValue::String(_) => "String",
        }
    }

    /// The value as `u64`, converted like Rust's `as`; `None` for booleans and strings.
    pub fn as_u64(&self) -> (r: Option<u64>)
        ensures
            r == cv_as_u64(self@),
    {
        match self {
            ConstValue::U64(v) => Some(*v),
            ConstValue::I64(v) => Some(*v as u64),
            ConstValue::U32(v) => Some(*v as u64),
            ConstValue::I32(v) => Some(*v as u64),
            ConstValue::U8(v) => Some(*v as u64),
            ConstValue::F64(b) => Some(f64_convert(*b, 0, 0xffff_ffff_ffff_ffff) as u64),
            ConstValue::F32(b) => Some(f32_convert(*b, 0, 0xffff_ffff_ffff_ffff) as u64),
            ConstValue::Bool(_) | ConstValue::String(_) => None,
        }
    }

    /// The value as `i64`, converted like Rust's `as`; `None` for booleans and strings.
    pub fn as_i64(&self) -> (r: Option<i64>)
        ensures
            r == cv_as_i64(self@),
    {
        match self {
            ConstValue::U64(v) => Some(*v as i64),
            ConstValue::I64(v) => Some(*v),
            ConstValue::U32(v) => Some(*v as i64),
            ConstValue::I32(v) => Some(*v as i64),
            ConstValue::U8(v) => Some(*v as i64),
            ConstValue::F64(b) => Some(
                f64_convert(*b, -0x8000_0000_0000_0000, 0x7fff_ffff_ffff_ffff) as i64,
            ),
            ConstValue::F32(b) => Some(
                f32_convert(*b, -0x8000_0000_0000_0000, 0x7fff_ffff_ffff_ffff) as i64,
            ),
            ConstValue::Bool(_) | ConstValue::String(_) => None,
        }
    }

    /// The value as `u32`, converted like Rust's `as`; `None` for booleans and strings.
    pub fn as_u32(&self) -> (r: Option<u32>)
        ensures
            r == cv_as_u32(self@),
    {
        match self {
            ConstValue::U64(v) => Some(*v as u32),
            ConstValue::I64(v) => Some(*v as u32),
            ConstValue::U32(v) => Some(*v),
            ConstValue::I32(v) => Some(*v as u32),
            ConstValue::U8(v) => Some(*v as u32),
            ConstValue::F64(b) => Some(f64_convert(*b, 0, 0xffff_ffff) as u32),
            ConstValue::F32(b) => Some(f32_convert(*b, 0, 0xffff_ffff) as u32),
            ConstValue::Bool(_) | ConstValue::String(_) => None,
        }
    }

    /// The value as `i32`, converted like Rust's `as`; `None` for booleans and strings.
    pub fn as_i32(&self) -> (r: Option<i32>)
        ensures
            r == cv_as_i32(self@),
    {
        match self {
            ConstValue::U64(v) => Some(*v as i32),
            ConstValue::I64(v) => Some(*v as i32),
            ConstValue::U32(v) => Some(*v as i32),
            ConstValue::I32(v) => Some(*v),
            ConstValue::U8(v) => Some(*v as i32),
            ConstValue::F64(b) => Some(f64_convert(*b, -0x8000_0000, 0x7fff_ffff) as i32),
            ConstValue::F32(b) => Some(f32_convert(*b, -0x8000_0000, 0x7fff_ffff) as i32),
            ConstValue::Bool(_) | ConstValue::String(_) => None,
        }
    }

    /// The value as `u8`, converted like Rust's `as`; `None` for booleans and strings.
    pub fn as_u8(&self) -> (r: Option<u8>)
        ensures
            r == cv_as_u8(self@),
    {
        match self {
            ConstValue::U64(v) => Some(*v as u8),
            ConstValue::I64(v) => Some(*v as u8),
            ConstValue::U32(v) => Some(*v as u8),
            ConstValue::I32(v) => Some(*v as u8),
            ConstValue::U8(v) => Some(*v),
            ConstValue::F64(b) => Some(f64_convert(*b, 0, 0xff) as u8),
            ConstValue::F32(b) => Some(f32_convert(*b, 0, 0xff) as u8),
            ConstValue::Bool(_) | ConstValue::String(_) => None,
        }
    }

    /// The boolean value of a `Bool` constant.
    pub fn as_bool(&self) -> (r: Option<bool>)
        ensures
            r == (match self@ {
                CVal::Bool(b) => Some(b),
                _ => None::<bool>,
            }),
    {
        match self {
            ConstValue::Bool(v) => Some(*v),
            _ => None,
        }
    }

    /// The text of a `String` constant.
    pub fn as_string(&self) -> (r: Option<&str>)
        ensures
            r is Some <==> self@ is Str,
            r matches Some(s) ==> self@ == CVal::Str(s@),
    {
        match self {
            ConstValue::String(v) => Some(v.as_str()),
            _ => None,
        }
    }
}

// ---------------------------------------------------------------------------
// Construction and queries
// ---------------------------------------------------------------------------

impl SymExpr {
    /// A variable.
    pub fn variable(name: String) -> (r: Self)
        ensures
            r@ == Expr::Var(name@),
    {
        SymExpr::Variable(name)
    }

    /// A constant.
    pub fn constant(value: ConstValue) -> (r: Self)
        ensures
            r@ == Expr::Const(value@),
    {
        SymExpr::Constant(value)
    }

    /// A binary operation.
    pub fn binary_op(op: BinOp, left: SymExpr, right: SymExpr) -> (r: Self)
        ensures
            r@ == Expr::Bin(op, Box::new(left@), Box::new(right@)),
    {
        SymExpr::BinaryOp(op, Box::new(left), Box::new(right))
    }

    /// A unary operation.
    pub fn unary_op(op: UnOp, expr: SymExpr) -> (r: Self)
        ensures
            r@ == Expr::Un(op, Box::new(expr@)),
    {
        SymExpr::UnaryOp(op, Box::new(expr))
    }

    /// If-then-else.
    pub fn conditional(cond: SymExpr, then_expr: SymExpr, else_expr: SymExpr) -> (r: Self)
        ensures
            r@ == Expr::Cond(Box::new(cond@), Box::new(then_expr@), Box::new(else_expr@)),
    {
        SymExpr::Conditional(Box::new(cond), Box::new(then_expr), Box::new(else_expr))
    }

    /// String concatenation.
    pub fn str_concat(left: SymExpr, right: SymExpr) -> (r: Self)
        ensures
            r@ == Expr::Bin(BinOp::StrConcat, Box::new(left@), Box::new(right@)),
    {
        SymExpr::BinaryOp(BinOp::StrConcat, Box::new(left), Box::new(right))
    }

    /// String length.
    pub fn str_len(string: SymExpr) -> (r: Self)
        ensures
            r@ == Expr::Un(UnOp::StrLen, Box::new(string@)),
    {
        SymExpr::UnaryOp(UnOp::StrLen, Box::new(string))
    }

    /// Substring.
    pub fn str_substring(string: SymExpr, start: SymExpr, length: SymExpr) -> (r: Self)
        ensures
            r@ == Expr::Substr(Box::new(string@), Box::new(start@), Box::new(length@)),
    {
        SymExpr::StrSubstring(Box::new(string), Box::new(start), Box::new(length))
    }

    /// Containment test.
    pub fn str_contains(haystack: SymExpr, needle: SymExpr) -> (r: Self)
        ensures
            r@ == Expr::Contains(Box::new(haystack@), Box::new(needle@)),
    {
        SymExpr::StrContains(Box::new(haystack), Box::new(needle))
    }

    /// Prefix test.
    pub fn str_prefix_of(prefix: SymExpr, string: SymExpr) -> (r: Self)
        ensures
            r@ == Expr::PrefixOf(Box::new(prefix@), Box::new(string@)),
    {
        SymExpr::StrPrefixOf(Box::new(prefix), Box::new(string))
    }

    /// Suffix test.
    pub fn str_suffix_of(suffix: SymExpr, string: SymExpr) -> (r: Self)
        ensures
            r@ == Expr::SuffixOf(Box::new(suffix@), Box::new(string@)),
    {
        SymExpr::StrSuffixOf(Box::new(suffix), Box::new(string))
    }

    /// Replacement of the first match.
    pub fn str_replace(string: SymExpr, pattern: SymExpr, replacement: SymExpr) -> (r: Self)
        ensures
            r@ == Expr::Replace(Box::new(string@), Box::new(pattern@), Box::new(replacement@)),
    {
        SymExpr::StrReplace(Box::new(string), Box::new(pattern), Box::new(replacement))
    }

    /// Replacement of every match.
    pub fn str_replace_all(string: SymExpr, pattern: SymExpr, replacement: SymExpr) -> (r: Self)
        ensures
            r@ == Expr::ReplaceAll(Box::new(string@), Box::new(pattern@), Box::new(replacement@)),
    {
        SymExpr::StrReplaceAll(Box::new(string), Box::new(pattern), Box::new(replacement))
    }

    /// Character at an index.
    pub fn str_at(string: SymExpr, index: SymExpr) -> (r: Self)
        ensures
            r@ == Expr::At(Box::new(string@), Box::new(index@)),
    {
        SymExpr::StrAt(Box::new(string), Box::new(index))
    }

    /// Index of a needle from an offset.
    pub fn str_index_of(haystack: SymExpr, needle: SymExpr, offset: SymExpr) -> (r: Self)
        ensures
            r@ == Expr::IndexOf(Box::new(haystack@), Box::new(needle@), Box::new(offset@)),
    {
        SymExpr::StrIndexOf(Box::new(haystack), Box::new(needle), Box::new(offset))
    }

    /// Lexicographic less-than on strings.
    pub fn str_lex_lt(left: SymExpr, right: SymExpr) -> (r: Self)
        ensures
            r@ == Expr::Bin(BinOp::StrLexLt, Box::new(left@), Box::new(right@)),
    {
        SymExpr::BinaryOp(BinOp::StrLexLt, Box::new(left), Box::new(right))
    }

    /// Lexicographic less-or-equal on strings.
    pub fn str_lex_le(left: SymExpr, right: SymExpr) -> (r: Self)
        ensures
            r@ == Expr::Bin(BinOp::StrLexLe, Box::new(left@), Box::new(right@)),
    {
        SymExpr::BinaryOp(BinOp::StrLexLe, Box::new(left), Box::new(right))
    }

    /// Is this a constant?
    pub fn is_constant(&self) -> (r: bool)
        ensures
            r == self@ is Const,
    {
        matches!(self, SymExpr::Constant(_))
    }

    /// Is this a variable?
    pub fn is_variable(&self) -> (r: bool)
        ensures
            r == self@ is Var,
    {
        matches!(self, SymExpr::Variable(_))
    }

    /// The name of a variable expression.
    pub fn as_variable(&self) -> (r: Option<&String>)
        ensures
            r is Some <==> self@ is Var,
            r matches Some(n) ==> self@ == Expr::Var(n@),
    {
        match self {
            SymExpr::Variable(name) => Some(name),
            _ => None,
        }
    }

    /// The value of a constant expression.
    pub fn as_constant(&self) -> (r: Option<&ConstValue>)
        ensures
            r is Some <==> self@ is Const,
            r matches Some(c) ==> self@ == Expr::Const(c@),
    {
        match self {
            SymExpr::Constant(value) => Some(value),
            _ => None,
        }
    }

    /// Height of the expression tree.
    pub fn depth(&self) -> (r: usize)
        requires
            nodes_of(self@) <= usize::MAX,
        ensures
            r == depth_of(self@),
        decreases self,
    {
        proof {
            lemma_depth_le_nodes(self@);
        }
        match self {
            SymExpr::Variable(_) | SymExpr::Constant(_) => 1,
            SymExpr::UnaryOp(_, x) => 1 + x.depth(),
            SymExpr::BinaryOp(_, a, b) | SymExpr::StrContains(a, b) | SymExpr::StrPrefixOf(a, b)
            | SymExpr::StrSuffixOf(a, b) | SymExpr::StrAt(a, b) => {
                proof {
                    lemma_depth_le_nodes(a@);
                    lemma_depth_le_nodes(b@);
                }
                let da = a.depth();
                let db = b.depth();
                1 + if da >= db { da } else { db }
            },
            SymExpr::Conditional(a, b, c) | SymExpr::StrSubstring(a, b, c) | SymExpr::StrReplace(
                a,
                b,
                c,
            ) | SymExpr::StrReplaceAll(a, b, c) | SymExpr::StrIndexOf(a, b, c) => {
                proof {
                    lemma_depth_le_nodes(a@);
                    lemma_depth_le_nodes(b@);
                    lemma_depth_le_nodes(c@);
                }
                let da = a.depth();
                let db = b.depth();
                let dc = c.depth();
                let m = if da >= db { da } else { db };
                1 + if m >= dc { m } else { dc }
            },
        }
    }

    /// Number of nodes of the expression tree.
    pub fn node_count(&self) -> (r: usize)
        requires
            nodes_of(self@) <= usize::MAX,
        ensures
            r == nodes_of(self@),
        decreases self,
    {
        proof {
            lemma_depth_le_nodes(self@);
        }
        match self {
            SymExpr::Variable(_) | SymExpr::Constant(_) => 1,
            SymExpr::UnaryOp(_, x) => 1 + x.node_count(),
            SymExpr::BinaryOp(_, a, b) | SymExpr::StrContains(a, b) | SymExpr::StrPrefixOf(a, b)
            | SymExpr::StrSuffixOf(a, b) | SymExpr::StrAt(a, b) => {
                proof {
                    lemma_depth_le_nodes(a@);
                    lemma_depth_le_nodes(b@);
                }
                1 + a.node_count() + b.node_count()
            },
            SymExpr::Conditional(a, b, c) | SymExpr::StrSubstring(a, b, c) | SymExpr::StrReplace(
                a,
                b,
                c,
            ) | SymExpr::StrReplaceAll(a, b, c) | SymExpr::StrIndexOf(a, b, c) => {
                proof {
                    lemma_depth_le_nodes(a@);
                    lemma_depth_le_nodes(b@);
                    lemma_depth_le_nodes(c@);
                }
                1 + a.node_count() + b.node_count() + c.node_count()
            },
        }
    }
}

/// Every expression has depth at least 1 and at least one node.
pub proof fn lemma_depth_and_size_positive(e: Expr)
    ensures
        depth_of(e) >= 1,
        nodes_of(e) >= 1,
    decreases e,
{
    match e {
        Expr::Var(_) | Expr::Const(_) => {},
        Expr::Un(_, a) => lemma_depth_and_size_positive(*a),
        Expr::Bin(_, a, b) | Expr::Contains(a, b) | Expr::PrefixOf(a, b) | Expr::SuffixOf(a, b)
        | Expr::At(a, b) => {
            lemma_depth_and_size_positive(*a);
            lemma_depth_and_size_positive(*b);
        },
        Expr::Cond(a, b, c) | Expr::Substr(a, b, c) | Expr::Replace(a, b, c) | Expr::ReplaceAll(
            a,
            b,
            c,
        ) | Expr::IndexOf(a, b, c) => {
            lemma_depth_and_size_positive(*a);
            lemma_depth_and_size_positive(*b);
            lemma_depth_and_size_positive(*c);
        },
    }
}

/// Precedence follows the usual conventions: `*` binds tighter than `+`,
/// `/` as tight as `*`, `-` as tight as `+`, comparisons looser than `+`.
pub proof fn lemma_precedence_conventions()
    ensures
        precedence_of(BinOp::Mul) > precedence_of(BinOp::Add),
        precedence_of(BinOp::Div) == precedence_of(BinOp::Mul),
        precedence_of(BinOp::Sub) == precedence_of(BinOp::Add),
        precedence_of(BinOp::Lt) < precedence_of(BinOp::Add),
        precedence_of(BinOp::Shl) < precedence_of(BinOp::Mul),
{
}

/// Operations of different precedence nest into different trees: `(a op1 b)
/// op2 c` and `a op1 (b op2 c)` differ.
pub proof fn lemma_nesting_distinguishes(op1: BinOp, op2: BinOp, a: Expr, b: Expr, c: Expr)
    requires
        precedence_of(op1) != precedence_of(op2),
    ensures
        Expr::Bin(op2, Box::new(Expr::Bin(op1, Box::new(a), Box::new(b))), Box::new(c)) != Expr::Bin(
            op1,
            Box::new(a),
            Box::new(Expr::Bin(op2, Box::new(b), Box::new(c))),
        ),
{
}

impl SymExpr {
    /// A hash of the expression for hash-consing: its derived `Hash` fed to a
    /// fresh `std::collections::hash_map::DefaultHasher`, then `finish`.
    /// Nothing is stated of the value: the derived feed is not read here,
    /// and the hasher's algorithm is not fixed across Rust releases.
    #[verifier::external_body]
    pub fn canonical_hash(&self) -> (r: u64) {
        let mut hasher = std::collections::hash_map::DefaultHasher::new();
        self.hash(&mut hasher);
        hasher.finish()
    }
}

/// Interning `e` under hash `h` took `before` to `after` and gave `r`: the
/// expression already there, or `e`, added.
pub open spec fn interned_under(before: Map<u64, Expr>, after: Map<u64, Expr>, e: Expr, r: Expr, h: u64) -> bool {
    if before.contains_key(h) {
        r == before[h] && after == before
    } else {
        r == e && after == before.insert(h, e)
    }
}

/// Hash-consing table: at most one expression per hash.
pub struct ExpressionTable {
    table: HashMap<u64, SymExpr>,
}

impl ExpressionTable {
    /// The interned expressions by hash.
    pub closed spec fn entries(&self) -> Map<u64, Expr> {
        self.table@.map_values(|e: SymExpr| e@)
    }

    /// An empty table.
    pub fn new() -> (r: Self)
        ensures
            r.entries() == Map::<u64, Expr>::empty(),
    {
        let r = ExpressionTable { table: HashMap::new() };
        assert(r.entries() =~= Map::<u64, Expr>::empty());
        r
    }

    /// The expression already interned under the hash of `expr`, or `expr`
    /// itself, which is then interned under its hash. Whatever the hash, the
    /// table keeps every entry it had and gains at most this one.
    pub fn intern(&mut self, expr: SymExpr) -> (r: SymExpr)
        ensures
            exists|h: u64| #[trigger] interned_under(old(self).entries(), final(self).entries(), expr@, r@, h),
    {
        broadcast use vstd::std_specs::hash::group_hash_axioms;
        let hash = expr.canonical_hash();
        match self.table.get(&hash) {
            Some(existing) => {
                let found = existing.clone();
                assert(self.entries().contains_key(hash));
                assert(interned_under(self.entries(), self.entries(), expr@, found@, hash));
                found
            },
            None => {
                let ghost before = self.entries();
                let kept = expr.clone();
                self.table.insert(hash, kept);
                assert(self.entries() =~= before.insert(hash, expr@));
                assert(interned_under(before, self.entries(), expr@, expr@, hash));
                expr
            },
        }
    }

    /// Number of interned expressions.
    pub fn size(&self) -> (r: usize)
        ensures
            r == self.entries().len(),
    {
        broadcast use vstd::std_specs::hash::group_hash_axioms;
        assert(self.entries().dom() =~= self.table@.dom());
        self.table.len()
    }

    /// Forgets every interned expression.
    pub fn clear(&mut self)
        ensures
            final(self).entries() == Map::<u64, Expr>::empty(),
    {
        self.table.clear();
        assert(self.entries() =~= Map::<u64, Expr>::empty());
    }
}

impl Default for ExpressionTable {
    fn default() -> (r: Self)
        ensures
            r.entries() == Map::<u64, Expr>::empty(),
    {
        Self::new()
    }
}

} // verus!
