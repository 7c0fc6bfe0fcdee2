//! Simplification of expressions: constant folding and algebraic identities,
//! bottom-up.
//!
//! Each node is rebuilt from its simplified arguments and then one rule,
//! the first that applies, may replace it: integer (`i64`) arithmetic and
//! comparisons on constants, `x + 0`, `x * 1`, `x - x` and their kind,
//! equality of constants, bitwise operations on `u64` constants, idempotent
//! bitwise identities, string operations on string constants, and
//! conditionals with a constant condition or equal branches.
use vstd::prelude::*;
use crate::expressions::{cv_as_u64, cval_eq, expr_eq, BinOp, CVal, ConstValue, Expr, SymExpr, UnOp};
use crate::floatbits::{f32_ieee_eq, f32_is_nan, f64_ieee_eq, f64_is_nan, f32_class, f64_class};
use crate::intops::{div_i64, f32_negated, f64_negated, trunc_div};
use crate::text::{
    bytes_find_from, bytes_of, chars_contain, chars_end_with, chars_of, chars_replace_all,
    chars_replace_first, chars_start_with, first_occurrence_from, replace_all_spec,
    replace_first_spec, seq_contains_sub, seq_ends_with, seq_starts_with, str_less, str_lt,
    string_from_chars, string_from_utf8, string_of_char, utf8_of,
};
use vstd::slice::slice_subrange;
use vstd::utf8::{decode_utf8, valid_utf8};

verus! {

// ---------------------------------------------------------------------------
// The rules
// ---------------------------------------------------------------------------

/// The `i64` constant an expression is, if it is one.
pub open spec fn const_i64(e: Expr) -> Option<i64> {
    match e {
        Expr::Const(CVal::I64(n)) => Some(n),
        _ => None,
    }
}

/// The `u64` constant an expression is, if it is one.
pub open spec fn const_u64(e: Expr) -> Option<u64> {
    match e {
        Expr::Const(CVal::U64(n)) => Some(n),
        _ => None,
    }
}

/// The string constant an expression is, if it is one.
pub open spec fn const_str(e: Expr) -> Option<Seq<char>> {
    match e {
        Expr::Const(CVal::Str(s)) => Some(s),
        _ => None,
    }
}

/// The constant an expression is, if it is one.
pub open spec fn const_of(e: Expr) -> Option<CVal> {
    match e {
        Expr::Const(c) => Some(c),
        _ => None,
    }
}

/// Equality of constants where two NaNs of the same width are equal.
pub open spec fn eq_with_nan(a: CVal, b: CVal) -> bool {
    match (a, b) {
        (CVal::F64(x), CVal::F64(y)) => (f64_is_nan(x) && f64_is_nan(y)) || f64_ieee_eq(x, y),
        (CVal::F32(x), CVal::F32(y)) => (f32_is_nan(x) && f32_is_nan(y)) || f32_ieee_eq(x, y),
        _ => cval_eq(a, b),
    }
}

pub open spec fn i64_const(v: int) -> Expr {
    Expr::Const(CVal::I64(v as i64))
}

pub open spec fn bool_const(b: bool) -> Expr {
    Expr::Const(CVal::Bool(b))
}

/// A unary operation on a simplified argument.
pub open spec fn simp_un(op: UnOp, x: Expr) -> Expr {
    match x {
        Expr::Const(v) => if op == UnOp::Neg {
            match v {
                CVal::I64(n) => Expr::Const(CVal::I64((-n) as i64)),
                CVal::I32(n) => Expr::Const(CVal::I32((-n) as i32)),
                CVal::F64(b) => Expr::Const(CVal::F64(f64_negated(b))),
                CVal::F32(b) => Expr::Const(CVal::F32(f32_negated(b))),
                _ => Expr::Un(op, Box::new(x)),
            }
        } else if op == UnOp::Not && v is Bool {
            bool_const(!v->Bool_0)
        } else {
            Expr::Un(op, Box::new(x))
        },
        Expr::Un(inner_op, inner) => if (op == UnOp::Neg && inner_op == UnOp::Neg) || (op == UnOp::Not
            && inner_op == UnOp::Not) {
            *inner
        } else {
            Expr::Un(op, Box::new(x))
        },
        _ => Expr::Un(op, Box::new(x)),
    }
}

/// The unary rule does not negate the most negative integer.
pub open spec fn un_ok(op: UnOp, x: Expr) -> bool {
    op == UnOp::Neg ==> match x {
        Expr::Const(CVal::I64(n)) => n != i64::MIN,
        Expr::Const(CVal::I32(n)) => n != i32::MIN,
        _ => true,
    }
}

/// A binary operation on simplified arguments.
pub open spec fn simp_bin(op: BinOp, l: Expr, r: Expr) -> Expr {
    let li = const_i64(l);
    let ri = const_i64(r);
    let both_i = li is Some && ri is Some;
    let a = li->0 as int;
    let b = ri->0 as int;
    let lu = const_u64(l);
    let ru = const_u64(r);
    let both_u = lu is Some && ru is Some;
    let ls = const_str(l);
    let rs = const_str(r);
    let both_s = ls is Some && rs is Some;
    let lc = const_of(l);
    let rc = const_of(r);
    if both_i && op == BinOp::Add {
        i64_const(a + b)
    } else if both_i && op == BinOp::Sub {
        i64_const(a - b)
    } else if both_i && op == BinOp::Mul {
        i64_const(a * b)
    } else if both_i && op == BinOp::Div && b != 0 {
        i64_const(trunc_div(a, b))
    } else if op == BinOp::Add && ri == Some(0i64) {
        l
    } else if op == BinOp::Add && li == Some(0i64) {
        r
    } else if op == BinOp::Sub && ri == Some(0i64) {
        l
    } else if op == BinOp::Mul && (ri == Some(0i64) || li == Some(0i64)) {
        i64_const(0)
    } else if op == BinOp::Mul && ri == Some(1i64) {
        l
    } else if op == BinOp::Mul && li == Some(1i64) {
        r
    } else if op == BinOp::Div && ri == Some(1i64) {
        l
    } else if op == BinOp::Sub && expr_eq(l, r) {
        i64_const(0)
    } else if op == BinOp::Eq && lc is Some && rc is Some {
        bool_const(eq_with_nan(lc->0, rc->0))
    } else if op == BinOp::Ne && lc is Some && rc is Some {
        bool_const(!eq_with_nan(lc->0, rc->0))
    } else if both_i && op == BinOp::Lt {
        bool_const(a < b)
    } else if both_i && op == BinOp::Le {
        bool_const(a <= b)
    } else if both_i && op == BinOp::Gt {
        bool_const(a > b)
    } else if both_i && op == BinOp::Ge {
        bool_const(a >= b)
    } else if both_u && op == BinOp::BitAnd {
        Expr::Const(CVal::U64(lu->0 & ru->0))
    } else if both_u && op == BinOp::BitOr {
        Expr::Const(CVal::U64(lu->0 | ru->0))
    } else if both_u && op == BinOp::BitXor {
        Expr::Const(CVal::U64(lu->0 ^ ru->0))
    } else if op == BinOp::BitXor && expr_eq(l, r) {
        Expr::Const(CVal::U64(0))
    } else if (op == BinOp::BitAnd || op == BinOp::BitOr) && expr_eq(l, r) {
        l
    } else if op == BinOp::StrConcat && both_s {
        Expr::Const(CVal::Str(ls->0 + rs->0))
    } else if op == BinOp::StrConcat && rs == Some(Seq::<char>::empty()) {
        l
    } else if op == BinOp::StrConcat && ls == Some(Seq::<char>::empty()) {
        r
    } else if op == BinOp::StrLexLt && both_s {
        bool_const(str_lt(ls->0, rs->0))
    } else if op == BinOp::StrLexLe && both_s {
        bool_const(str_lt(ls->0, rs->0) || ls->0 == rs->0)
    } else {
        Expr::Bin(op, Box::new(l), Box::new(r))
    }
}

/// The binary rule does not overflow `i64` arithmetic.
pub open spec fn bin_ok(op: BinOp, l: Expr, r: Expr) -> bool {
    let li = const_i64(l);
    let ri = const_i64(r);
    let a = li->0 as int;
    let b = ri->0 as int;
    (li is Some && ri is Some) ==> {
        &&& op == BinOp::Add ==> i64::MIN <= a + b <= i64::MAX
        &&& op == BinOp::Sub ==> i64::MIN <= a - b <= i64::MAX
        &&& op == BinOp::Mul ==> i64::MIN <= a * b <= i64::MAX
        &&& op == BinOp::Div && b != 0 ==> !(a == i64::MIN && b == -1)
    }
}

/// A conditional with simplified parts.
pub open spec fn simp_cond(c: Expr, t: Expr, f: Expr) -> Expr {
    if c == bool_const(true) {
        t
    } else if c == bool_const(false) {
        f
    } else if expr_eq(t, f) {
        t
    } else {
        Expr::Cond(Box::new(c), Box::new(t), Box::new(f))
    }
}

/// The `u64` an integer constant converts to, as `as_u64` does.
pub open spec fn const_index(e: Expr) -> Option<u64> {
    match e {
        Expr::Const(c) => cv_as_u64(c),
        _ => None,
    }
}

/// A substring with simplified arguments: folded when all three are
/// constants, the bounds (as byte offsets) lie within the string.
pub open spec fn simp_substr(s: Expr, a: Expr, b: Expr) -> Expr {
    match (const_str(s), const_index(a), const_index(b)) {
        (Some(text), Some(x), Some(y)) => {
            let start = x as usize as int;
            let len = y as usize as int;
            let bytes = utf8_of(text);
            if start <= bytes.len() && start + len <= bytes.len() {
                Expr::Const(CVal::Str(decode_utf8(bytes.subrange(start, start + len))))
            } else {
                Expr::Substr(Box::new(s), Box::new(a), Box::new(b))
            }
        },
        _ => Expr::Substr(Box::new(s), Box::new(a), Box::new(b)),
    }
}

/// The folded substring's end does not overflow and its byte range cuts
/// the string at character boundaries.
pub open spec fn substr_ok(s: Expr, a: Expr, b: Expr) -> bool {
    match (const_str(s), const_index(a), const_index(b)) {
        (Some(text), Some(x), Some(y)) => {
            let start = x as usize as int;
            let len = y as usize as int;
            let bytes = utf8_of(text);
            start <= bytes.len() ==> start + len <= usize::MAX && (start + len <= bytes.len()
                ==> valid_utf8(bytes.subrange(start, start + len)))
        },
        _ => true,
    }
}

/// The character at an index, folded when the string and index are
/// constants and the index is below both the byte and the character length.
pub open spec fn simp_at(s: Expr, i: Expr) -> Expr {
    match (const_str(s), const_index(i)) {
        (Some(text), Some(x)) => {
            let k = x as usize as int;
            if k < utf8_of(text).len() && k < text.len() {
                Expr::Const(CVal::Str(seq![text[k]]))
            } else {
                Expr::At(Box::new(s), Box::new(i))
            }
        },
        _ => Expr::At(Box::new(s), Box::new(i)),
    }
}

/// The byte position of the first occurrence of a needle at or after a byte
/// offset, folded when all three are constants and the offset lies within the
/// haystack; -1 when there is none.
pub open spec fn simp_index_of(h: Expr, n: Expr, o: Expr) -> Expr {
    match (const_str(h), const_str(n), const_index(o)) {
        (Some(hs), Some(ns), Some(x)) => {
            let off = x as usize as int;
            let hb = utf8_of(hs);
            if off <= hb.len() {
                match first_occurrence_from(hb, utf8_of(ns), off) {
                    Some(p) => Expr::Const(CVal::I32(p as i32)),
                    None => Expr::Const(CVal::I32(-1i32)),
                }
            } else {
                Expr::IndexOf(Box::new(h), Box::new(n), Box::new(o))
            }
        },
        _ => Expr::IndexOf(Box::new(h), Box::new(n), Box::new(o)),
    }
}

/// The folded search starts at a character boundary.
pub open spec fn index_of_ok(h: Expr, n: Expr, o: Expr) -> bool {
    match (const_str(h), const_str(n), const_index(o)) {
        (Some(hs), Some(ns), Some(x)) => {
            let off = x as usize as int;
            let hb = utf8_of(hs);
            off <= hb.len() ==> valid_utf8(hb.skip(off))
        },
        _ => true,
    }
}

/// A string predicate on constants, or the node rebuilt.
pub open spec fn simp_contains(h: Expr, n: Expr) -> Expr {
    match (const_str(h), const_str(n)) {
        (Some(a), Some(b)) => bool_const(seq_contains_sub(a, b)),
        _ => Expr::Contains(Box::new(h), Box::new(n)),
    }
}

pub open spec fn simp_prefix(p: Expr, s: Expr) -> Expr {
    match (const_str(p), const_str(s)) {
        (Some(a), Some(b)) => bool_const(seq_starts_with(b, a)),
        _ => Expr::PrefixOf(Box::new(p), Box::new(s)),
    }
}

pub open spec fn simp_suffix(x: Expr, s: Expr) -> Expr {
    match (const_str(x), const_str(s)) {
        (Some(a), Some(b)) => bool_const(seq_ends_with(b, a)),
        _ => Expr::SuffixOf(Box::new(x), Box::new(s)),
    }
}

pub open spec fn simp_replace(s: Expr, p: Expr, r: Expr) -> Expr {
    match (const_str(s), const_str(p), const_str(r)) {
        (Some(a), Some(b), Some(c)) => Expr::Const(CVal::Str(replace_first_spec(a, b, c))),
        _ => Expr::Replace(Box::new(s), Box::new(p), Box::new(r)),
    }
}

pub open spec fn simp_replace_all(s: Expr, p: Expr, r: Expr) -> Expr {
    match (const_str(s), const_str(p), const_str(r)) {
        (Some(a), Some(b), Some(c)) => Expr::Const(CVal::Str(replace_all_spec(a, b, c))),
        _ => Expr::ReplaceAll(Box::new(s), Box::new(p), Box::new(r)),
    }
}

/// The simplified expression.
pub open spec fn simp(e: Expr) -> Expr
    decreases e,
{
    match e {
        Expr::Var(_) | Expr::Const(_) => e,
        Expr::Un(op, x) => simp_un(op, simp(*x)),
        Expr::Bin(op, l, r) => simp_bin(op, simp(*l), simp(*r)),
        Expr::Cond(c, t, f) => simp_cond(simp(*c), simp(*t), simp(*f)),
        Expr::Substr(s, a, b) => simp_substr(simp(*s), simp(*a), simp(*b)),
        Expr::Contains(h, n) => simp_contains(simp(*h), simp(*n)),
        Expr::PrefixOf(p, s) => simp_prefix(simp(*p), simp(*s)),
        Expr::SuffixOf(x, s) => simp_suffix(simp(*x), simp(*s)),
        Expr::Replace(s, p, r) => simp_replace(simp(*s), simp(*p), simp(*r)),
        Expr::ReplaceAll(s, p, r) => simp_replace_all(simp(*s), simp(*p), simp(*r)),
        Expr::At(s, i) => simp_at(simp(*s), simp(*i)),
        Expr::IndexOf(h, n, o) => simp_index_of(simp(*h), simp(*n), simp(*o)),
    }
}

/// Simplification neither overflows integer arithmetic nor cuts a string
/// inside a character.
pub open spec fn simp_ok(e: Expr) -> bool
    decreases e,
{
    match e {
        Expr::Var(_) | Expr::Const(_) => true,
        Expr::Un(op, x) => simp_ok(*x) && un_ok(op, simp(*x)),
        Expr::Bin(op, l, r) => simp_ok(*l) && simp_ok(*r) && bin_ok(op, simp(*l), simp(*r)),
        Expr::Substr(s, a, b) => simp_ok(*s) && simp_ok(*a) && simp_ok(*b) && substr_ok(
            simp(*s),
            simp(*a),
            simp(*b),
        ),
        Expr::IndexOf(h, n, o) => simp_ok(*h) && simp_ok(*n) && simp_ok(*o) && index_of_ok(
            simp(*h),
            simp(*n),
            simp(*o),
        ),
        Expr::Cond(a, b, c) | Expr::Replace(a, b, c) | Expr::ReplaceAll(a, b, c) => simp_ok(*a)
            && simp_ok(*b) && simp_ok(*c),
        Expr::Contains(a, b) | Expr::PrefixOf(a, b) | Expr::SuffixOf(a, b) | Expr::At(a, b) => simp_ok(
            *a,
        ) && simp_ok(*b),
    }
}


// ---------------------------------------------------------------------------
// Implementation
// ---------------------------------------------------------------------------

fn i64_of(e: &SymExpr) -> (r: Option<i64>)
    ensures
        r == const_i64(e@),
{
    match e {
        SymExpr::Constant(ConstValue::I64(n)) => Some(*n),
        _ => None,
    }
}

fn u64_of(e: &SymExpr) -> (r: Option<u64>)
    ensures
        r == const_u64(e@),
{
    match e {
        SymExpr::Constant(ConstValue::U64(n)) => Some(*n),
        _ => None,
    }
}

fn str_of(e: &SymExpr) -> (r: Option<&String>)
    ensures
        match r {
            Some(s) => const_str(e@) == Some(s@),
            None => const_str(e@) is None,
        },
{
    match e {
        SymExpr::Constant(ConstValue::String(s)) => Some(s),
        _ => None,
    }
}

fn index_of_const(e: &SymExpr) -> (r: Option<u64>)
    ensures
        r == const_index(e@),
{
    match e {
        SymExpr::Constant(c) => c.as_u64(),
        _ => None,
    }
}

pub fn equal_with_nan(a: &ConstValue, b: &ConstValue) -> (r: bool)
    ensures
        r == eq_with_nan(a@, b@),
{
    match (a, b) {
        (ConstValue::F64(x), ConstValue::F64(y)) => {
            let (nx, _, _, _) = f64_class(*x);
            let (ny, _, _, _) = f64_class(*y);
            (nx && ny) || a.equals(b)
        },
        (ConstValue::F32(x), ConstValue::F32(y)) => {
            let (nx, _, _, _) = f32_class(*x);
            let (ny, _, _, _) = f32_class(*y);
            (nx && ny) || a.equals(b)
        },
        _ => a.equals(b),
    }
}

fn str_const(s: Vec<char>) -> (r: SymExpr)
    ensures
        r@ == Expr::Const(CVal::Str(s@)),
{
    SymExpr::Constant(ConstValue::String(string_from_chars(&s)))
}

fn bool_expr(b: bool) -> (r: SymExpr)
    ensures
        r@ == bool_const(b),
{
    SymExpr::Constant(ConstValue::Bool(b))
}

fn i64_expr(v: i64) -> (r: SymExpr)
    ensures
        r@ == i64_const(v as int),
{
    SymExpr::Constant(ConstValue::I64(v))
}

/// A unary operation on a simplified argument, folded where a rule applies.
pub fn simplify_unary(op: UnOp, x: SymExpr) -> (r: SymExpr)
    requires
        un_ok(op, x@),
    ensures
        r@ == simp_un(op, x@),
{
    let folded: Option<SymExpr> = match &x {
        SymExpr::Constant(v) => {
            if op == UnOp::Neg {
                match v {
                    ConstValue::I64(n) => Some(SymExpr::Constant(ConstValue::I64(-*n))),
                    ConstValue::I32(n) => Some(SymExpr::Constant(ConstValue::I32(-*n))),
                    ConstValue::F64(b) => Some(
                        SymExpr::Constant(ConstValue::F64(*b ^ 0x8000_0000_0000_0000u64)),
                    ),
                    ConstValue::F32(b) => Some(SymExpr::Constant(ConstValue::F32(*b ^ 0x8000_0000u32))),
                    _ => None,
                }
            } else if op == UnOp::Not {
                match v {
                    ConstValue::Bool(b) => Some(bool_expr(!*b)),
                    _ => None,
                }
            } else {
                None
            }
        },
        SymExpr::UnaryOp(inner_op, inner) => {
            if (op == UnOp::Neg && *inner_op == UnOp::Neg) || (op == UnOp::Not && *inner_op
                == UnOp::Not) {
                Some((**inner).clone())
            } else {
                None
            }
        },
        _ => None,
    };
    match folded {
        Some(f) => f,
        None => SymExpr::UnaryOp(op, Box::new(x)),
    }
}

/// A binary operation on simplified arguments, folded where a rule applies.
#[verifier::rlimit(60)]
pub fn simplify_binary(op: BinOp, l: SymExpr, r: SymExpr) -> (res: SymExpr)
    requires
        bin_ok(op, l@, r@),
    ensures
        res@ == simp_bin(op, l@, r@),
{
    let li = i64_of(&l);
    let ri = i64_of(&r);
    let lu = u64_of(&l);
    let ru = u64_of(&r);
    let both_i = li.is_some() && ri.is_some();
    let both_u = lu.is_some() && ru.is_some();
    if both_i {
        let a = li.unwrap();
        let b = ri.unwrap();
        if op == BinOp::Add {
            return i64_expr(a + b);
        } else if op == BinOp::Sub {
            return i64_expr(a - b);
        } else if op == BinOp::Mul {
            return i64_expr(a * b);
        } else if op == BinOp::Div && b != 0 {
            return i64_expr(div_i64(a, b));
        }
    }
    if op == BinOp::Add && ri == Some(0i64) {
        return l;
    }
    if op == BinOp::Add && li == Some(0i64) {
        return r;
    }
    if op == BinOp::Sub && ri == Some(0i64) {
        return l;
    }
    if op == BinOp::Mul && (ri == Some(0i64) || li == Some(0i64)) {
        return i64_expr(0);
    }
    if op == BinOp::Mul && ri == Some(1i64) {
        return l;
    }
    if op == BinOp::Mul && li == Some(1i64) {
        return r;
    }
    if op == BinOp::Div && ri == Some(1i64) {
        return l;
    }
    if op == BinOp::Sub && l.equals(&r) {
        return i64_expr(0);
    }
    if op == BinOp::Eq || op == BinOp::Ne {
        match (l.as_constant(), r.as_constant()) {
            (Some(a), Some(b)) => {
                let e = equal_with_nan(a, b);
                return bool_expr(if op == BinOp::Eq { e } else { !e });
            },
            _ => {},
        }
    }
    if both_i {
        let a = li.unwrap();
        let b = ri.unwrap();
        if op == BinOp::Lt {
            return bool_expr(a < b);
        } else if op == BinOp::Le {
            return bool_expr(a <= b);
        } else if op == BinOp::Gt {
            return bool_expr(a > b);
        } else if op == BinOp::Ge {
            return bool_expr(a >= b);
        }
    }
    if both_u {
        let a = lu.unwrap();
        let b = ru.unwrap();
        if op == BinOp::BitAnd {
            return SymExpr::Constant(ConstValue::U64(a & b));
        } else if op == BinOp::BitOr {
            return SymExpr::Constant(ConstValue::U64(a | b));
        } else if op == BinOp::BitXor {
            return SymExpr::Constant(ConstValue::U64(a ^ b));
        }
    }
    if op == BinOp::BitXor && l.equals(&r) {
        return SymExpr::Constant(ConstValue::U64(0));
    }
    if (op == BinOp::BitAnd || op == BinOp::BitOr) && l.equals(&r) {
        return l;
    }
    if op == BinOp::StrConcat || op == BinOp::StrLexLt || op == BinOp::StrLexLe {
        let folded: Option<SymExpr> = match (str_of(&l), str_of(&r)) {
            (Some(a), Some(b)) => {
                if op == BinOp::StrConcat {
                    let mut cs = chars_of(a.as_str());
                    let bs = chars_of(b.as_str());
                    crate::text::push_chars(&mut cs, &bs);
                    Some(str_const(cs))
                } else if op == BinOp::StrLexLt {
                    Some(bool_expr(str_less(a.as_str(), b.as_str())))
                } else {
                    Some(bool_expr(str_less(a.as_str(), b.as_str()) || *a == *b))
                }
            },
            _ => None,
        };
        match folded {
            Some(f) => {
                return f;
            },
            None => {},
        }
        if op == BinOp::StrConcat {
            let r_empty = match str_of(&r) {
                Some(b) => {
                    let e = b.as_str().is_empty();
                    proof {
                        if e {
                            assert(b@ =~= Seq::<char>::empty());
                        }
                    }
                    e
                },
                None => false,
            };
            if r_empty {
                return l;
            }
            let l_empty = match str_of(&l) {
                Some(a) => {
                    let e = a.as_str().is_empty();
                    proof {
                        if e {
                            assert(a@ =~= Seq::<char>::empty());
                        }
                    }
                    e
                },
                None => false,
            };
            if l_empty {
                return r;
            }
        }
    }
    SymExpr::BinaryOp(op, Box::new(l), Box::new(r))
}

/// A conditional with simplified parts, folded where a rule applies.
pub fn simplify_conditional(c: SymExpr, t: SymExpr, f: SymExpr) -> (r: SymExpr)
    ensures
        r@ == simp_cond(c@, t@, f@),
{
    let known: Option<bool> = match &c {
        SymExpr::Constant(ConstValue::Bool(b)) => Some(*b),
        _ => None,
    };
    match known {
        Some(true) => t,
        Some(false) => f,
        None => {
            if t.equals(&f) {
                t
            } else {
                SymExpr::Conditional(Box::new(c), Box::new(t), Box::new(f))
            }
        },
    }
}

/// A substring with simplified arguments, folded on constants.
pub fn simplify_substring(s: SymExpr, a: SymExpr, b: SymExpr) -> (r: SymExpr)
    requires
        substr_ok(s@, a@, b@),
    ensures
        r@ == simp_substr(s@, a@, b@),
{
    let folded: Option<SymExpr> = match (str_of(&s), index_of_const(&a), index_of_const(&b)) {
        (Some(text), Some(x), Some(y)) => {
            let start = x as usize;
            let len = y as usize;
            let bytes = bytes_of(text.as_str());
            if start <= bytes.len() && start + len <= bytes.len() {
                let piece = slice_subrange(bytes.as_slice(), start, start + len);
                match string_from_utf8(piece) {
                    Some(out) => Some(SymExpr::Constant(ConstValue::String(out))),
                    None => None,
                }
            } else {
                None
            }
        },
        _ => None,
    };
    match folded {
        Some(e) => e,
        None => SymExpr::StrSubstring(Box::new(s), Box::new(a), Box::new(b)),
    }
}

/// The character at an index, folded on constants.
pub fn simplify_char_at(s: SymExpr, i: SymExpr) -> (r: SymExpr)
    ensures
        r@ == simp_at(s@, i@),
{
    let folded: Option<SymExpr> = match (str_of(&s), index_of_const(&i)) {
        (Some(text), Some(x)) => {
            let k = x as usize;
            let cs = chars_of(text.as_str());
            if k < bytes_of(text.as_str()).len() && k < cs.len() {
                let one = string_of_char(cs[k]);
                proof {
                    assert(one@ == seq![text@[k as int]]);
                }
                Some(SymExpr::Constant(ConstValue::String(one)))
            } else {
                None
            }
        },
        _ => None,
    };
    match folded {
        Some(e) => e,
        None => SymExpr::StrAt(Box::new(s), Box::new(i)),
    }
}

/// The byte position of a needle from an offset, folded on constants.
pub fn simplify_index_of(h: SymExpr, n: SymExpr, o: SymExpr) -> (r: SymExpr)
    requires
        index_of_ok(h@, n@, o@),
    ensures
        r@ == simp_index_of(h@, n@, o@),
{
    let folded: Option<SymExpr> = match (str_of(&h), str_of(&n), index_of_const(&o)) {
        (Some(hs), Some(ns), Some(x)) => {
            let off = x as usize;
            let hb = bytes_of(hs.as_str());
            let nb = bytes_of(ns.as_str());
            if off <= hb.len() {
                match bytes_find_from(hb.as_slice(), nb.as_slice(), off) {
                    Some(p) => Some(SymExpr::Constant(ConstValue::I32(p as i32))),
                    None => Some(SymExpr::Constant(ConstValue::I32(-1))),
                }
            } else {
                None
            }
        },
        _ => None,
    };
    match folded {
        Some(e) => e,
        None => SymExpr::StrIndexOf(Box::new(h), Box::new(n), Box::new(o)),
    }
}

/// Containment, folded on constants.
pub fn simplify_contains(h: SymExpr, n: SymExpr) -> (r: SymExpr)
    ensures
        r@ == simp_contains(h@, n@),
{
    let folded: Option<bool> = match (str_of(&h), str_of(&n)) {
        (Some(a), Some(b)) => Some(chars_contain(&chars_of(a.as_str()), &chars_of(b.as_str()))),
        _ => None,
    };
    match folded {
        Some(v) => bool_expr(v),
        None => SymExpr::StrContains(Box::new(h), Box::new(n)),
    }
}

/// Prefix test, folded on constants.
pub fn simplify_prefix_of(p: SymExpr, s: SymExpr) -> (r: SymExpr)
    ensures
        r@ == simp_prefix(p@, s@),
{
    let folded: Option<bool> = match (str_of(&p), str_of(&s)) {
        (Some(a), Some(b)) => Some(chars_start_with(&chars_of(b.as_str()), &chars_of(a.as_str()))),
        _ => None,
    };
    match folded {
        Some(v) => bool_expr(v),
        None => SymExpr::StrPrefixOf(Box::new(p), Box::new(s)),
    }
}

/// Suffix test, folded on constants.
pub fn simplify_suffix_of(x: SymExpr, s: SymExpr) -> (r: SymExpr)
    ensures
        r@ == simp_suffix(x@, s@),
{
    let folded: Option<bool> = match (str_of(&x), str_of(&s)) {
        (Some(a), Some(b)) => Some(chars_end_with(&chars_of(b.as_str()), &chars_of(a.as_str()))),
        _ => None,
    };
    match folded {
        Some(v) => bool_expr(v),
        None => SymExpr::StrSuffixOf(Box::new(x), Box::new(s)),
    }
}

/// First replacement, folded on constants.
pub fn simplify_replace(s: SymExpr, p: SymExpr, r: SymExpr) -> (res: SymExpr)
    ensures
        res@ == simp_replace(s@, p@, r@),
{
    let folded: Option<Vec<char>> = match (str_of(&s), str_of(&p), str_of(&r)) {
        (Some(a), Some(b), Some(c)) => Some(
            chars_replace_first(&chars_of(a.as_str()), &chars_of(b.as_str()), &chars_of(c.as_str())),
        ),
        _ => None,
    };
    match folded {
        Some(v) => str_const(v),
        None => SymExpr::StrReplace(Box::new(s), Box::new(p), Box::new(r)),
    }
}

/// Replacement of every match, folded on constants.
pub fn simplify_replace_all(s: SymExpr, p: SymExpr, r: SymExpr) -> (res: SymExpr)
    ensures
        res@ == simp_replace_all(s@, p@, r@),
{
    let folded: Option<Vec<char>> = match (str_of(&s), str_of(&p), str_of(&r)) {
        (Some(a), Some(b), Some(c)) => Some(
            chars_replace_all(&chars_of(a.as_str()), &chars_of(b.as_str()), &chars_of(c.as_str())),
        ),
        _ => None,
    };
    match folded {
        Some(v) => str_const(v),
        None => SymExpr::StrReplaceAll(Box::new(s), Box::new(p), Box::new(r)),
    }
}

impl SymExpr {
    /// Simplifies the expression bottom-up: each node is rebuilt from its
    /// simplified arguments and the first applicable rule is applied to it.
    pub fn simplify(&self) -> (r: SymExpr)
        requires
            simp_ok(self@),
        ensures
            r@ == simp(self@),
        decreases self,
    {
        match self {
            SymExpr::Variable(_) | SymExpr::Constant(_) => self.clone(),
            SymExpr::UnaryOp(op, x) => simplify_unary(*op, x.simplify()),
            SymExpr::BinaryOp(op, l, r) => {
                let sl = l.simplify();
                let sr = r.simplify();
                simplify_binary(*op, sl, sr)
            },
            SymExpr::Conditional(c, t, f) => {
                let sc = c.simplify();
                let st = t.simplify();
                let sf = f.simplify();
                simplify_conditional(sc, st, sf)
            },
            SymExpr::StrSubstring(s, a, b) => {
                let ss = s.simplify();
                let sa = a.simplify();
                let sb = b.simplify();
                simplify_substring(ss, sa, sb)
            },
            SymExpr::StrContains(h, n) => {
                let sh = h.simplify();
                let sn = n.simplify();
                simplify_contains(sh, sn)
            },
            SymExpr::StrPrefixOf(p, s) => {
                let sp = p.simplify();
                let ss = s.simplify();
                simplify_prefix_of(sp, ss)
            },
            SymExpr::StrSuffixOf(x, s) => {
                let sx = x.simplify();
                let ss = s.simplify();
                simplify_suffix_of(sx, ss)
            },
            SymExpr::StrReplace(s, p, r) => {
                let ss = s.simplify();
                let sp = p.simplify();
                let sr = r.simplify();
                simplify_replace(ss, sp, sr)
            },
            SymExpr::StrReplaceAll(s, p, r) => {
                let ss = s.simplify();
                let sp = p.simplify();
                let sr = r.simplify();
                simplify_replace_all(ss, sp, sr)
            },
            SymExpr::StrAt(s, i) => {
                let ss = s.simplify();
                let si = i.simplify();
                simplify_char_at(ss, si)
            },
            SymExpr::StrIndexOf(h, n, o) => {
                let sh = h.simplify();
                let sn = n.simplify();
                let so = o.simplify();
                simplify_index_of(sh, sn, so)
            },
        }
    }

    /// Whether simplifying the expression gives it back unchanged.
    pub fn is_simplified(&self) -> (r: bool)
        requires
            simp_ok(self@),
        ensures
            r == expr_eq(self@, simp(self@)),
    {
        let s = self.simplify();
        self.equals(&s)
    }
}

/// Whether the unary rule can be applied without overflow.
fn unary_fits(op: UnOp, x: &SymExpr) -> (r: bool)
    ensures
        r == un_ok(op, x@),
{
    match x {
        SymExpr::Constant(ConstValue::I64(n)) => op != UnOp::Neg || *n != i64::MIN,
        SymExpr::Constant(ConstValue::I32(n)) => op != UnOp::Neg || *n != i32::MIN,
        _ => true,
    }
}

/// Whether the binary rule can be applied without overflow.
fn binary_fits(op: BinOp, l: &SymExpr, r: &SymExpr) -> (ok: bool)
    ensures
        ok == bin_ok(op, l@, r@),
{
    match (i64_of(l), i64_of(r)) {
        (Some(a), Some(b)) => {
            let x = a as i128;
            let y = b as i128;
            let lo = i64::MIN as i128;
            let hi = i64::MAX as i128;
            if op == BinOp::Add {
                lo <= x + y && x + y <= hi
            } else if op == BinOp::Sub {
                lo <= x - y && x - y <= hi
            } else if op == BinOp::Mul {
                assert(-0x8000_0000_0000_0000 * 0x8000_0000_0000_0000 <= x * y <= 0x8000_0000_0000_0000
                    * 0x8000_0000_0000_0000) by (nonlinear_arith)
                    requires
                        -0x8000_0000_0000_0000 <= x < 0x8000_0000_0000_0000,
                        -0x8000_0000_0000_0000 <= y < 0x8000_0000_0000_0000,
                ;
                lo <= x * y && x * y <= hi
            } else if op == BinOp::Div {
                b == 0 || !(a == i64::MIN && b == -1)
            } else {
                true
            }
        },
        _ => true,
    }
}

/// Whether folding a substring stays within the address space and cuts
/// the string at character boundaries.
fn substring_fits(s: &SymExpr, a: &SymExpr, b: &SymExpr) -> (r: bool)
    ensures
        r == substr_ok(s@, a@, b@),
{
    match (str_of(s), index_of_const(a), index_of_const(b)) {
        (Some(text), Some(x), Some(y)) => {
            let start = x as usize;
            let len = y as usize;
            let bytes = bytes_of(text.as_str());
            if start > bytes.len() {
                true
            } else if len > usize::MAX - start {
                false
            } else if start + len > bytes.len() {
                true
            } else {
                let piece = slice_subrange(bytes.as_slice(), start, start + len);
                string_from_utf8(piece).is_some()
            }
        },
        _ => true,
    }
}

/// Whether a folded search starts at a character boundary.
fn index_of_fits(h: &SymExpr, n: &SymExpr, o: &SymExpr) -> (r: bool)
    ensures
        r == index_of_ok(h@, n@, o@),
{
    match (str_of(h), str_of(n), index_of_const(o)) {
        (Some(hs), Some(_), Some(x)) => {
            let off = x as usize;
            let hb = bytes_of(hs.as_str());
            if off > hb.len() {
                true
            } else {
                let rest = slice_subrange(hb.as_slice(), off, hb.len());
                assert(rest@ == hb@.skip(off as int));
                string_from_utf8(rest).is_some()
            }
        },
        _ => true,
    }
}

impl SymExpr {
    /// Simplifies the expression when no folding overflows or cuts a string
    /// inside a character; `None` otherwise.
    pub fn try_simplify(&self) -> (r: Option<SymExpr>)
        ensures
            match r {
                Some(s) => simp_ok(self@) && s@ == simp(self@),
                None => !simp_ok(self@),
            },
        decreases self,
    {
        match self {
            SymExpr::Variable(_) | SymExpr::Constant(_) => Some(self.clone()),
            SymExpr::UnaryOp(op, x) => match x.try_simplify() {
                Some(sx) => if unary_fits(*op, &sx) {
                    Some(simplify_unary(*op, sx))
                } else {
                    None
                },
                None => None,
            },
            SymExpr::BinaryOp(op, l, r) => match (l.try_simplify(), r.try_simplify()) {
                (Some(sl), Some(sr)) => if binary_fits(*op, &sl, &sr) {
                    Some(simplify_binary(*op, sl, sr))
                } else {
                    None
                },
                _ => None,
            },
            SymExpr::Conditional(c, t, f) => match (c.try_simplify(), t.try_simplify(), f.try_simplify()) {
                (Some(sc), Some(st), Some(sf)) => Some(simplify_conditional(sc, st, sf)),
                _ => None,
            },
            SymExpr::StrSubstring(s, a, b) => match (s.try_simplify(), a.try_simplify(), b.try_simplify()) {
                (Some(ss), Some(sa), Some(sb)) => if substring_fits(&ss, &sa, &sb) {
                    Some(simplify_substring(ss, sa, sb))
                } else {
                    None
                },
                _ => None,
            },
            SymExpr::StrContains(h, n) => match (h.try_simplify(), n.try_simplify()) {
                (Some(sh), Some(sn)) => Some(simplify_contains(sh, sn)),
                _ => None,
            },
            SymExpr::StrPrefixOf(p, s) => match (p.try_simplify(), s.try_simplify()) {
                (Some(sp), Some(ss)) => Some(simplify_prefix_of(sp, ss)),
                _ => None,
            },
            SymExpr::StrSuffixOf(x, s) => match (x.try_simplify(), s.try_simplify()) {
                (Some(sx), Some(ss)) => Some(simplify_suffix_of(sx, ss)),
                _ => None,
            },
            SymExpr::StrReplace(s, p, r) => match (s.try_simplify(), p.try_simplify(), r.try_simplify()) {
                (Some(ss), Some(sp), Some(sr)) => Some(simplify_replace(ss, sp, sr)),
                _ => None,
            },
            SymExpr::StrReplaceAll(s, p, r) => match (s.try_simplify(), p.try_simplify(), r.try_simplify()) {
                (Some(ss), Some(sp), Some(sr)) => Some(simplify_replace_all(ss, sp, sr)),
                _ => None,
            },
            SymExpr::StrAt(s, i) => match (s.try_simplify(), i.try_simplify()) {
                (Some(ss), Some(si)) => Some(simplify_char_at(ss, si)),
                _ => None,
            },
            SymExpr::StrIndexOf(h, n, o) => match (h.try_simplify(), n.try_simplify(), o.try_simplify()) {
                (Some(sh), Some(sn), Some(so)) => if index_of_fits(&sh, &sn, &so) {
                    Some(simplify_index_of(sh, sn, so))
                } else {
                    None
                },
                _ => None,
            },
        }
    }
}

// ---------------------------------------------------------------------------
// Simplification reaches a fixed point
// ---------------------------------------------------------------------------

/// A double negation or double logical not at the root.
pub open spec fn double_at_root(e: Expr) -> bool {
    match e {
        Expr::Un(op, x) => (op == UnOp::Neg || op == UnOp::Not) && match *x {
            Expr::Un(inner, _) => inner == op,
            _ => false,
        },
        _ => false,
    }
}

/// No double negation or double logical not anywhere in the tree.
pub open spec fn no_double(e: Expr) -> bool
    decreases e,
{
    !double_at_root(e) && match e {
        Expr::Var(_) | Expr::Const(_) => true,
        Expr::Un(_, a) => no_double(*a),
        Expr::Bin(_, a, b) | Expr::Contains(a, b) | Expr::PrefixOf(a, b) | Expr::SuffixOf(a, b)
        | Expr::At(a, b) => no_double(*a) && no_double(*b),
        Expr::Cond(a, b, c) | Expr::Substr(a, b, c) | Expr::Replace(a, b, c) | Expr::ReplaceAll(
            a,
            b,
            c,
        ) | Expr::IndexOf(a, b, c) => no_double(*a) && no_double(*b) && no_double(*c),
    }
}

proof fn lemma_simp_bin_shape(op: BinOp, l: Expr, r: Expr)
    ensures
        simp_bin(op, l, r) is Const || simp_bin(op, l, r) == l || simp_bin(op, l, r) == r
            || simp_bin(op, l, r) == Expr::Bin(op, Box::new(l), Box::new(r)),
{
}

/// Simplified expressions hold no double negation.
proof fn lemma_simp_no_double(e: Expr)
    ensures
        no_double(simp(e)),
    decreases e,
{
    match e {
        Expr::Var(_) | Expr::Const(_) => {},
        Expr::Un(op, x) => {
            lemma_simp_no_double(*x);
        },
        Expr::Bin(op, l, r) => {
            lemma_simp_no_double(*l);
            lemma_simp_no_double(*r);
            lemma_simp_bin_shape(op, simp(*l), simp(*r));
        },
        Expr::Cond(a, b, c) | Expr::Substr(a, b, c) | Expr::Replace(a, b, c) | Expr::ReplaceAll(
            a,
            b,
            c,
        ) | Expr::IndexOf(a, b, c) => {
            lemma_simp_no_double(*a);
            lemma_simp_no_double(*b);
            lemma_simp_no_double(*c);
        },
        Expr::Contains(a, b) | Expr::PrefixOf(a, b) | Expr::SuffixOf(a, b) | Expr::At(a, b) => {
            lemma_simp_no_double(*a);
            lemma_simp_no_double(*b);
        },
    }
}

/// The result of simplifying a negation is a fixed point when the argument's is.
proof fn lemma_simp_un_fixed(op: UnOp, x: Expr)
    requires
        simp(simp(x)) == simp(x),
    ensures
        simp(simp_un(op, simp(x))) == simp_un(op, simp(x)),
{
    let xs = simp(x);
    match xs {
        Expr::Un(iop, inner) => {
            if (op == UnOp::Neg && iop == UnOp::Neg) || (op == UnOp::Not && iop == UnOp::Not) {
                let y = simp(*inner);
                lemma_simp_no_double(*inner);
                assert(simp(xs) == simp_un(iop, y));
                match y {
                    Expr::Un(op2, inner2) => {
                        if (iop == UnOp::Neg && op2 == UnOp::Neg) || (iop == UnOp::Not && op2 == UnOp::Not) {
                            assert(*inner2 == xs);
                            assert(double_at_root(y));
                        }
                    },
                    _ => {},
                }
                assert(y == *inner);
            }
        },
        _ => {},
    }
}

/// Simplifying a simplified expression changes nothing.
pub proof fn lemma_simplify_idempotent(e: Expr)
    ensures
        simp(simp(e)) == simp(e),
    decreases e,
{
    match e {
        Expr::Var(_) | Expr::Const(_) => {},
        Expr::Un(op, x) => {
            lemma_simplify_idempotent(*x);
            lemma_simp_un_fixed(op, *x);
        },
        Expr::Bin(op, l, r) => {
            lemma_simplify_idempotent(*l);
            lemma_simplify_idempotent(*r);
            lemma_simp_bin_shape(op, simp(*l), simp(*r));
        },
        Expr::Cond(a, b, c) | Expr::Substr(a, b, c) | Expr::Replace(a, b, c) | Expr::ReplaceAll(
            a,
            b,
            c,
        ) | Expr::IndexOf(a, b, c) => {
            lemma_simplify_idempotent(*a);
            lemma_simplify_idempotent(*b);
            lemma_simplify_idempotent(*c);
        },
        Expr::Contains(a, b) | Expr::PrefixOf(a, b) | Expr::SuffixOf(a, b) | Expr::At(a, b) => {
            lemma_simplify_idempotent(*a);
            lemma_simplify_idempotent(*b);
        },
    }
}

/// An expression that simplifies without overflow or a cut inside a
/// character simplifies to one that does too, so it can be simplified again.
pub proof fn lemma_simplify_keeps_ok(e: Expr)
    requires
        simp_ok(e),
    ensures
        simp_ok(simp(e)),
    decreases e,
{
    match e {
        Expr::Var(_) | Expr::Const(_) => {},
        Expr::Un(op, x) => {
            lemma_simplify_keeps_ok(*x);
            lemma_simplify_idempotent(*x);
        },
        Expr::Bin(op, l, r) => {
            lemma_simplify_keeps_ok(*l);
            lemma_simplify_keeps_ok(*r);
            lemma_simplify_idempotent(*l);
            lemma_simplify_idempotent(*r);
            lemma_simp_bin_shape(op, simp(*l), simp(*r));
        },
        Expr::Cond(a, b, c) | Expr::Substr(a, b, c) | Expr::Replace(a, b, c) | Expr::ReplaceAll(
            a,
            b,
            c,
        ) | Expr::IndexOf(a, b, c) => {
            lemma_simplify_keeps_ok(*a);
            lemma_simplify_keeps_ok(*b);
            lemma_simplify_keeps_ok(*c);
            lemma_simplify_idempotent(*a);
            lemma_simplify_idempotent(*b);
            lemma_simplify_idempotent(*c);
        },
        Expr::Contains(a, b) | Expr::PrefixOf(a, b) | Expr::SuffixOf(a, b) | Expr::At(a, b) => {
            lemma_simplify_keeps_ok(*a);
            lemma_simplify_keeps_ok(*b);
            lemma_simplify_idempotent(*a);
            lemma_simplify_idempotent(*b);
        },
    }
}

} // verus!
