//! Evaluation of expressions under an assignment of values to variables.
//!
//! Integer arithmetic wraps, division and remainder by zero have no value,
//! shifts beyond the operand width have no value, string operations count
//! positions in UTF-8 bytes, and float comparisons follow IEEE-754. Float
//! arithmetic (`+ - * /` on floats) is not computed here: evaluation reports
//! that it needs it.
use vstd::prelude::*;
use crate::expressions::{cv_as_u64, BinOp, CVal, ConstValue, Expr, SymExpr, UnOp};
use crate::floatbits::{f32_compare, f32_less, f32_less_eq, f64_compare, f64_less, f64_less_eq};
use crate::intops::{abs_int, div_i32, div_i64, f32_negated, f64_negated, rem_i32, rem_i64, trunc_div, trunc_rem};
use crate::simplify::{eq_with_nan, equal_with_nan};
use crate::text::{
    bytes_find_from, bytes_of, chars_contain, chars_end_with, chars_of, chars_replace_all,
    chars_replace_first, chars_start_with, first_occurrence_from, push_chars, replace_all_spec,
    replace_first_spec, seq_contains_sub, seq_ends_with, seq_starts_with, str_less, str_lt,
    string_from_chars, string_from_utf8, string_of_char, utf8_of, views_of,
};
use crate::value_map::ValueMap;
use crate::smt::vars_of;
use vstd::slice::slice_subrange;
use vstd::utf8::{decode_utf8, valid_utf8};

verus! {

/// What evaluating an expression comes to.
pub enum Outcome {
    /// A value.
    Value(CVal),
    /// No value: an unbound variable, an operation on operands of the wrong
    /// kinds, a division by zero, a shift beyond the width, an index out of
    /// range.
    Undefined,
    /// Float arithmetic was needed.
    Float,
    /// Integer overflow on negation or signed division, or a string cut
    /// inside a character: the operation has no result at all.
    Trap,
}

/// Result of [`SymExpr::evaluate`].
#[derive(Debug)]
pub enum Evaluation {
    Value(ConstValue),
    Undefined,
    FloatArithmetic,
    Trap,
}

impl View for Evaluation {
    type V = Outcome;

    open spec fn view(&self) -> Outcome {
        match self {
            Evaluation::Value(c) => Outcome::Value(c@),
            Evaluation::Undefined => Outcome::Undefined,
            Evaluation::FloatArithmetic => Outcome::Float,
            Evaluation::Trap => Outcome::Trap,
        }
    }
}

// ---------------------------------------------------------------------------
// Specification
// ---------------------------------------------------------------------------

pub open spec fn value(c: CVal) -> Outcome {
    Outcome::Value(c)
}

/// A unary operation on a value.
pub open spec fn eval_un(op: UnOp, v: CVal) -> Outcome {
    match (op, v) {
        (UnOp::Neg, CVal::I64(n)) => if n == i64::MIN {
            Outcome::Trap
        } else {
            value(CVal::I64((-n) as i64))
        },
        (UnOp::Neg, CVal::I32(n)) => if n == i32::MIN {
            Outcome::Trap
        } else {
            value(CVal::I32((-n) as i32))
        },
        (UnOp::Neg, CVal::F64(b)) => value(CVal::F64(f64_negated(b))),
        (UnOp::Neg, CVal::F32(b)) => value(CVal::F32(f32_negated(b))),
        (UnOp::Not, CVal::Bool(b)) => value(CVal::Bool(!b)),
        (UnOp::Not, CVal::U64(n)) => value(CVal::U64(!n)),
        (UnOp::Not, CVal::U32(n)) => value(CVal::U32(!n)),
        (UnOp::Not, CVal::U8(n)) => value(CVal::U8(!n)),
        (UnOp::Not, CVal::I64(n)) => value(CVal::I64(!n)),
        (UnOp::Not, CVal::I32(n)) => value(CVal::I32(!n)),
        (UnOp::StrLen, CVal::Str(s)) => value(CVal::U64(utf8_of(s).len() as u64)),
        _ => Outcome::Undefined,
    }
}

pub open spec fn eval_add(a: CVal, b: CVal) -> Outcome {
    match (a, b) {
        (CVal::U64(x), CVal::U64(y)) => value(CVal::U64(x.wrapping_add(y))),
        (CVal::I64(x), CVal::I64(y)) => value(CVal::I64(x.wrapping_add(y))),
        (CVal::U32(x), CVal::U32(y)) => value(CVal::U32(x.wrapping_add(y))),
        (CVal::I32(x), CVal::I32(y)) => value(CVal::I32(x.wrapping_add(y))),
        (CVal::U8(x), CVal::U8(y)) => value(CVal::U8(x.wrapping_add(y))),
        (CVal::F64(_), CVal::F64(_)) | (CVal::F32(_), CVal::F32(_)) => Outcome::Float,
        _ => Outcome::Undefined,
    }
}

pub open spec fn eval_sub(a: CVal, b: CVal) -> Outcome {
    match (a, b) {
        (CVal::U64(x), CVal::U64(y)) => value(CVal::U64(x.wrapping_sub(y))),
        (CVal::I64(x), CVal::I64(y)) => value(CVal::I64(x.wrapping_sub(y))),
        (CVal::U32(x), CVal::U32(y)) => value(CVal::U32(x.wrapping_sub(y))),
        (CVal::I32(x), CVal::I32(y)) => value(CVal::I32(x.wrapping_sub(y))),
        (CVal::U8(x), CVal::U8(y)) => value(CVal::U8(x.wrapping_sub(y))),
        (CVal::F64(_), CVal::F64(_)) | (CVal::F32(_), CVal::F32(_)) => Outcome::Float,
        _ => Outcome::Undefined,
    }
}

pub open spec fn eval_mul(a: CVal, b: CVal) -> Outcome {
    match (a, b) {
        (CVal::U64(x), CVal::U64(y)) => value(CVal::U64(x.wrapping_mul(y))),
        (CVal::I64(x), CVal::I64(y)) => value(CVal::I64(x.wrapping_mul(y))),
        (CVal::U32(x), CVal::U32(y)) => value(CVal::U32(x.wrapping_mul(y))),
        (CVal::I32(x), CVal::I32(y)) => value(CVal::I32(x.wrapping_mul(y))),
        (CVal::U8(x), CVal::U8(y)) => value(CVal::U8(x.wrapping_mul(y))),
        (CVal::F64(_), CVal::F64(_)) | (CVal::F32(_), CVal::F32(_)) => Outcome::Float,
        _ => Outcome::Undefined,
    }
}

/// Division: truncating on signed integers, no value for a zero divisor.
pub open spec fn eval_div(a: CVal, b: CVal) -> Outcome {
    match (a, b) {
        (CVal::U64(x), CVal::U64(y)) => if y == 0 { Outcome::Undefined } else { value(CVal::U64(x / y)) },
        (CVal::U32(x), CVal::U32(y)) => if y == 0 { Outcome::Undefined } else { value(CVal::U32(x / y)) },
        (CVal::U8(x), CVal::U8(y)) => if y == 0 { Outcome::Undefined } else { value(CVal::U8(x / y)) },
        (CVal::I64(x), CVal::I64(y)) => if y == 0 {
            Outcome::Undefined
        } else if x == i64::MIN && y == -1 {
            Outcome::Trap
        } else {
            value(CVal::I64(trunc_div(x as int, y as int) as i64))
        },
        (CVal::I32(x), CVal::I32(y)) => if y == 0 {
            Outcome::Undefined
        } else if x == i32::MIN && y == -1 {
            Outcome::Trap
        } else {
            value(CVal::I32(trunc_div(x as int, y as int) as i32))
        },
        (CVal::F64(_), CVal::F64(_)) | (CVal::F32(_), CVal::F32(_)) => Outcome::Float,
        _ => Outcome::Undefined,
    }
}

/// Remainder, with the sign of the dividend; no value for a zero divisor or
/// for floats.
pub open spec fn eval_rem(a: CVal, b: CVal) -> Outcome {
    match (a, b) {
        (CVal::U64(x), CVal::U64(y)) => if y == 0 { Outcome::Undefined } else { value(CVal::U64(x % y)) },
        (CVal::U32(x), CVal::U32(y)) => if y == 0 { Outcome::Undefined } else { value(CVal::U32(x % y)) },
        (CVal::U8(x), CVal::U8(y)) => if y == 0 { Outcome::Undefined } else { value(CVal::U8(x % y)) },
        (CVal::I64(x), CVal::I64(y)) => if y == 0 {
            Outcome::Undefined
        } else if x == i64::MIN && y == -1 {
            Outcome::Trap
        } else {
            value(CVal::I64(trunc_rem(x as int, y as int) as i64))
        },
        (CVal::I32(x), CVal::I32(y)) => if y == 0 {
            Outcome::Undefined
        } else if x == i32::MIN && y == -1 {
            Outcome::Trap
        } else {
            value(CVal::I32(trunc_rem(x as int, y as int) as i32))
        },
        _ => Outcome::Undefined,
    }
}

/// `&`, `|`, `^` on integers of one kind, and on booleans.
pub open spec fn eval_bitwise(op: BinOp, a: CVal, b: CVal) -> Outcome {
    match (a, b) {
        (CVal::U64(x), CVal::U64(y)) => value(CVal::U64(
            if op == BinOp::BitAnd { x & y } else if op == BinOp::BitOr { x | y } else { x ^ y },
        )),
        (CVal::I64(x), CVal::I64(y)) => value(CVal::I64(
            if op == BinOp::BitAnd { x & y } else if op == BinOp::BitOr { x | y } else { x ^ y },
        )),
        (CVal::U32(x), CVal::U32(y)) => value(CVal::U32(
            if op == BinOp::BitAnd { x & y } else if op == BinOp::BitOr { x | y } else { x ^ y },
        )),
        (CVal::I32(x), CVal::I32(y)) => value(CVal::I32(
            if op == BinOp::BitAnd { x & y } else if op == BinOp::BitOr { x | y } else { x ^ y },
        )),
        (CVal::U8(x), CVal::U8(y)) => value(CVal::U8(
            if op == BinOp::BitAnd { x & y } else if op == BinOp::BitOr { x | y } else { x ^ y },
        )),
        (CVal::Bool(x), CVal::Bool(y)) => value(CVal::Bool(
            if op == BinOp::BitAnd { x && y } else if op == BinOp::BitOr { x || y } else { x != y },
        )),
        _ => Outcome::Undefined,
    }
}

/// A shift amount: an unsigned value or a non-negative signed one, cut to
/// 32 bits.
pub open spec fn shift_amount(b: CVal) -> Option<u32> {
    match b {
        CVal::U64(n) => Some(n as u32),
        CVal::U32(n) => Some(n),
        CVal::U8(n) => Some(n as u32),
        CVal::I64(n) => if n >= 0 { Some(n as u32) } else { None },
        CVal::I32(n) => if n >= 0 { Some(n as u32) } else { None },
        _ => None,
    }
}

/// `<<` (`left`) or `>>` by less than the operand's width.
pub open spec fn eval_shift(left: bool, a: CVal, b: CVal) -> Outcome {
    match shift_amount(b) {
        None => Outcome::Undefined,
        Some(s) => match a {
            CVal::U64(x) => if s < 64 {
                value(CVal::U64(if left { x.wrapping_shl(s) } else { x.wrapping_shr(s) }))
            } else {
                Outcome::Undefined
            },
            CVal::I64(x) => if s < 64 {
                value(CVal::I64(if left { x.wrapping_shl(s) } else { x.wrapping_shr(s) }))
            } else {
                Outcome::Undefined
            },
            CVal::U32(x) => if s < 32 {
                value(CVal::U32(if left { x.wrapping_shl(s) } else { x.wrapping_shr(s) }))
            } else {
                Outcome::Undefined
            },
            CVal::I32(x) => if s < 32 {
                value(CVal::I32(if left { x.wrapping_shl(s) } else { x.wrapping_shr(s) }))
            } else {
                Outcome::Undefined
            },
            CVal::U8(x) => if s < 8 {
                value(CVal::U8(if left { x.wrapping_shl(s) } else { x.wrapping_shr(s) }))
            } else {
                Outcome::Undefined
            },
            _ => Outcome::Undefined,
        },
    }
}

/// `a < b` (`strict`) or `a <= b` on numbers of one kind.
pub open spec fn ordered(strict: bool, a: CVal, b: CVal) -> Option<bool> {
    match (a, b) {
        (CVal::U64(x), CVal::U64(y)) => Some(if strict { x < y } else { x <= y }),
        (CVal::I64(x), CVal::I64(y)) => Some(if strict { x < y } else { x <= y }),
        (CVal::U32(x), CVal::U32(y)) => Some(if strict { x < y } else { x <= y }),
        (CVal::I32(x), CVal::I32(y)) => Some(if strict { x < y } else { x <= y }),
        (CVal::U8(x), CVal::U8(y)) => Some(if strict { x < y } else { x <= y }),
        (CVal::F64(x), CVal::F64(y)) => Some(if strict { f64_less(x, y) } else { f64_less_eq(x, y) }),
        (CVal::F32(x), CVal::F32(y)) => Some(if strict { f32_less(x, y) } else { f32_less_eq(x, y) }),
        _ => None,
    }
}

/// The comparisons `<`, `<=`, `>`, `>=`.
pub open spec fn eval_order(op: BinOp, a: CVal, b: CVal) -> Outcome {
    let r = if op == BinOp::Lt {
        ordered(true, a, b)
    } else if op == BinOp::Le {
        ordered(false, a, b)
    } else if op == BinOp::Gt {
        ordered(true, b, a)
    } else {
        ordered(false, b, a)
    };
    match r {
        Some(t) => value(CVal::Bool(t)),
        None => Outcome::Undefined,
    }
}

/// Concatenation and lexicographic (byte-wise) order of strings.
pub open spec fn eval_str_bin(op: BinOp, a: CVal, b: CVal) -> Outcome {
    match (a, b) {
        (CVal::Str(x), CVal::Str(y)) => if op == BinOp::StrConcat {
            value(CVal::Str(x + y))
        } else if op == BinOp::StrLexLt {
            value(CVal::Bool(str_lt(x, y)))
        } else {
            value(CVal::Bool(str_lt(x, y) || x == y))
        },
        _ => Outcome::Undefined,
    }
}

/// A binary operation on values.
pub open spec fn eval_bin(op: BinOp, a: CVal, b: CVal) -> Outcome {
    match op {
        BinOp::Add => eval_add(a, b),
        BinOp::Sub => eval_sub(a, b),
        BinOp::Mul => eval_mul(a, b),
        BinOp::Div => eval_div(a, b),
        BinOp::Mod => eval_rem(a, b),
        BinOp::BitAnd | BinOp::BitOr | BinOp::BitXor => eval_bitwise(op, a, b),
        BinOp::Shl => eval_shift(true, a, b),
        BinOp::Shr => eval_shift(false, a, b),
        BinOp::Eq => value(CVal::Bool(eq_with_nan(a, b))),
        BinOp::Ne => value(CVal::Bool(!eq_with_nan(a, b))),
        BinOp::Lt | BinOp::Le | BinOp::Gt | BinOp::Ge => eval_order(op, a, b),
        BinOp::StrConcat | BinOp::StrLexLt | BinOp::StrLexLe => eval_str_bin(op, a, b),
    }
}

/// The substring of `len` bytes from byte `start`.
pub open spec fn eval_substr(s: CVal, a: CVal, b: CVal) -> Outcome {
    match (s, cv_as_u64(a), cv_as_u64(b)) {
        (CVal::Str(text), Some(x), Some(y)) => {
            let start = x as usize as int;
            let len = y as usize as int;
            let bytes = utf8_of(text);
            if start > bytes.len() {
                Outcome::Undefined
            } else if start + len > usize::MAX {
                Outcome::Trap
            } else if start + len > bytes.len() {
                Outcome::Undefined
            } else if !valid_utf8(bytes.subrange(start, start + len)) {
                Outcome::Trap
            } else {
                value(CVal::Str(decode_utf8(bytes.subrange(start, start + len))))
            }
        },
        _ => Outcome::Undefined,
    }
}

/// The character at index `i`, which must also lie below the byte length.
pub open spec fn eval_at(s: CVal, i: CVal) -> Outcome {
    match (s, cv_as_u64(i)) {
        (CVal::Str(text), Some(x)) => {
            let k = x as usize as int;
            if k < utf8_of(text).len() && k < text.len() {
                value(CVal::Str(seq![text[k]]))
            } else {
                Outcome::Undefined
            }
        },
        _ => Outcome::Undefined,
    }
}

/// Byte position of the first match of the needle at or after the byte
/// offset, -1 when there is none or the offset lies beyond the end.
pub open spec fn eval_index_of(h: CVal, n: CVal, o: CVal) -> Outcome {
    match (h, n, cv_as_u64(o)) {
        (CVal::Str(hs), CVal::Str(ns), Some(x)) => {
            let off = x as usize as int;
            let hb = utf8_of(hs);
            if off > hb.len() {
                value(CVal::I32(-1i32))
            } else if !valid_utf8(hb.skip(off)) {
                Outcome::Trap
            } else {
                match first_occurrence_from(hb, utf8_of(ns), off) {
                    Some(p) => value(CVal::I32(p as i32)),
                    None => value(CVal::I32(-1i32)),
                }
            }
        },
        _ => Outcome::Undefined,
    }
}

/// Containment, prefix and suffix tests on two strings.
pub open spec fn eval_str_test(kind: nat, a: CVal, b: CVal) -> Outcome {
    match (a, b) {
        (CVal::Str(x), CVal::Str(y)) => value(CVal::Bool(
            if kind == 0 {
                seq_contains_sub(x, y)
            } else if kind == 1 {
                seq_starts_with(y, x)
            } else {
                seq_ends_with(y, x)
            },
        )),
        _ => Outcome::Undefined,
    }
}

/// First (`all` false) or every replacement of a pattern.
pub open spec fn eval_replace(all: bool, s: CVal, p: CVal, r: CVal) -> Outcome {
    match (s, p, r) {
        (CVal::Str(a), CVal::Str(b), CVal::Str(c)) => value(CVal::Str(
            if all { replace_all_spec(a, b, c) } else { replace_first_spec(a, b, c) },
        )),
        _ => Outcome::Undefined,
    }
}

/// The first outcome of two, evaluated left to right, that is not a value.
pub open spec fn failure2(a: Outcome, b: Outcome) -> Outcome {
    if a is Value {
        b
    } else {
        a
    }
}

pub open spec fn failure3(a: Outcome, b: Outcome, c: Outcome) -> Outcome {
    if a is Value {
        failure2(b, c)
    } else {
        a
    }
}

/// Evaluation of an expression under an assignment; operands are evaluated
/// left to right and the first that has no value decides.
pub open spec fn eval(e: Expr, env: Map<Seq<char>, CVal>) -> Outcome
    decreases e,
{
    match e {
        Expr::Var(n) => if env.contains_key(n) {
            value(env[n])
        } else {
            Outcome::Undefined
        },
        Expr::Const(c) => value(c),
        Expr::Un(op, x) => match eval(*x, env) {
            Outcome::Value(v) => eval_un(op, v),
            o => o,
        },
        Expr::Bin(op, l, r) => match (eval(*l, env), eval(*r, env)) {
            (Outcome::Value(a), Outcome::Value(b)) => eval_bin(op, a, b),
            (a, b) => failure2(a, b),
        },
        Expr::Cond(c, t, f) => match eval(*c, env) {
            Outcome::Value(CVal::Bool(true)) => eval(*t, env),
            Outcome::Value(CVal::Bool(false)) => eval(*f, env),
            Outcome::Value(_) => Outcome::Undefined,
            o => o,
        },
        Expr::Substr(s, a, b) => match (eval(*s, env), eval(*a, env), eval(*b, env)) {
            (Outcome::Value(x), Outcome::Value(y), Outcome::Value(z)) => eval_substr(x, y, z),
            (x, y, z) => failure3(x, y, z),
        },
        Expr::Contains(h, n) => match (eval(*h, env), eval(*n, env)) {
            (Outcome::Value(a), Outcome::Value(b)) => eval_str_test(0, a, b),
            (a, b) => failure2(a, b),
        },
        Expr::PrefixOf(p, s) => match (eval(*p, env), eval(*s, env)) {
            (Outcome::Value(a), Outcome::Value(b)) => eval_str_test(1, a, b),
            (a, b) => failure2(a, b),
        },
        Expr::SuffixOf(x, s) => match (eval(*x, env), eval(*s, env)) {
            (Outcome::Value(a), Outcome::Value(b)) => eval_str_test(2, a, b),
            (a, b) => failure2(a, b),
        },
        Expr::Replace(s, p, r) => match (eval(*s, env), eval(*p, env), eval(*r, env)) {
            (Outcome::Value(x), Outcome::Value(y), Outcome::Value(z)) => eval_replace(false, x, y, z),
            (x, y, z) => failure3(x, y, z),
        },
        Expr::ReplaceAll(s, p, r) => match (eval(*s, env), eval(*p, env), eval(*r, env)) {
            (Outcome::Value(x), Outcome::Value(y), Outcome::Value(z)) => eval_replace(true, x, y, z),
            (x, y, z) => failure3(x, y, z),
        },
        Expr::At(s, i) => match (eval(*s, env), eval(*i, env)) {
            (Outcome::Value(a), Outcome::Value(b)) => eval_at(a, b),
            (a, b) => failure2(a, b),
        },
        Expr::IndexOf(h, n, o) => match (eval(*h, env), eval(*n, env), eval(*o, env)) {
            (Outcome::Value(x), Outcome::Value(y), Outcome::Value(z)) => eval_index_of(x, y, z),
            (x, y, z) => failure3(x, y, z),
        },
    }
}

// ---------------------------------------------------------------------------
// Laws of integer arithmetic
// ---------------------------------------------------------------------------

/// The number an integer constant stands for.
pub open spec fn number(c: CVal) -> int {
    match c {
        CVal::U64(x) => x as int,
        CVal::I64(x) => x as int,
        CVal::U32(x) => x as int,
        CVal::I32(x) => x as int,
        CVal::U8(x) => x as int,
        _ => 0,
    }
}

/// `2^w` for a `w`-bit integer constant.
pub open spec fn modulus(c: CVal) -> int {
    match c {
        CVal::U64(_) | CVal::I64(_) => 0x1_0000_0000_0000_0000,
        CVal::U32(_) | CVal::I32(_) => 0x1_0000_0000,
        CVal::U8(_) => 0x100,
        _ => 1,
    }
}

/// Two integer constants of one kind.
pub open spec fn same_int_kind(a: CVal, b: CVal) -> bool {
    ||| a is U64 && b is U64
    ||| a is I64 && b is I64
    ||| a is U32 && b is U32
    ||| a is I32 && b is I32
    ||| a is U8 && b is U8
}

proof fn lemma_congruent_to_residue(p: int, m: int)
    requires
        m > 0,
    ensures
        (p % m - p) % m == 0,
        (p % m - m - p) % m == 0,
{
    vstd::arithmetic::div_mod::lemma_fundamental_div_mod(p, m);
    let q = p / m;
    assert(p % m - p == (-q) * m) by (nonlinear_arith)
        requires
            p == m * q + p % m,
    ;
    assert(p % m - m - p == (-q - 1) * m) by (nonlinear_arith)
        requires
            p == m * q + p % m,
    ;
    vstd::arithmetic::div_mod::lemma_mod_multiples_basic(-q, m);
    vstd::arithmetic::div_mod::lemma_mod_multiples_basic(-q - 1, m);
}

/// Addition, subtraction and multiplication of two integers of one kind
/// give an integer of that kind that is congruent to the exact sum,
/// difference or product modulo `2^w`: arithmetic wraps around, and since
/// the kind's range holds one number of each residue, this fixes the result.
pub proof fn lemma_wrapping_arithmetic(op: BinOp, a: CVal, b: CVal, env: Map<Seq<char>, CVal>)
    requires
        op == BinOp::Add || op == BinOp::Sub || op == BinOp::Mul,
        same_int_kind(a, b),
    ensures
        ({
            let r = eval(Expr::Bin(op, Box::new(Expr::Const(a)), Box::new(Expr::Const(b))), env);
            let exact = if op == BinOp::Add {
                number(a) + number(b)
            } else if op == BinOp::Sub {
                number(a) - number(b)
            } else {
                number(a) * number(b)
            };
            &&& r is Value
            &&& same_int_kind(r->Value_0, a)
            &&& (number(r->Value_0) - exact) % modulus(a) == 0
        }),
{
    let x = number(a);
    let y = number(b);
    let m = modulus(a);
    lemma_congruent_to_residue(x * y, m);
    assert((x + y - m - (x + y)) % m == 0);
    assert((x + y + m - (x + y)) % m == 0);
    assert((x - y - m - (x - y)) % m == 0);
    assert((x - y + m - (x - y)) % m == 0);
    assert((x + y - (x + y)) % m == 0);
    assert((x - y - (x - y)) % m == 0);
    let r = eval(Expr::Bin(op, Box::new(Expr::Const(a)), Box::new(Expr::Const(b))), env);
    assert(r == eval_bin(op, a, b)) by {
        reveal_with_fuel(eval, 2);
    }
    match (a, b) {
        (CVal::U64(p), CVal::U64(q)) => {
            assert(number(r->Value_0) == if op == BinOp::Add {
                if x + y > u64::MAX { x + y - m } else { x + y }
            } else if op == BinOp::Sub {
                if x - y < 0 { x - y + m } else { x - y }
            } else {
                (x * y) % m
            });
        },
        (CVal::U32(p), CVal::U32(q)) => {
            assert(number(r->Value_0) == if op == BinOp::Add {
                if x + y > u32::MAX { x + y - m } else { x + y }
            } else if op == BinOp::Sub {
                if x - y < 0 { x - y + m } else { x - y }
            } else {
                (x * y) % m
            });
        },
        (CVal::U8(p), CVal::U8(q)) => {
            assert(number(r->Value_0) == if op == BinOp::Add {
                if x + y > u8::MAX { x + y - m } else { x + y }
            } else if op == BinOp::Sub {
                if x - y < 0 { x - y + m } else { x - y }
            } else {
                (x * y) % m
            });
        },
        (CVal::I64(p), CVal::I64(q)) => {
            assert(number(r->Value_0) == if op == BinOp::Add {
                if x + y > i64::MAX { x + y - m } else if x + y < i64::MIN { x + y + m } else { x + y }
            } else if op == BinOp::Sub {
                if x - y > i64::MAX { x - y - m } else if x - y < i64::MIN { x - y + m } else { x - y }
            } else {
                if (x * y) % m > i64::MAX { (x * y) % m - m } else { (x * y) % m }
            });
        },
        (CVal::I32(p), CVal::I32(q)) => {
            assert(number(r->Value_0) == if op == BinOp::Add {
                if x + y > i32::MAX { x + y - m } else if x + y < i32::MIN { x + y + m } else { x + y }
            } else if op == BinOp::Sub {
                if x - y > i32::MAX { x - y - m } else if x - y < i32::MIN { x - y + m } else { x - y }
            } else {
                if (x * y) % m > i32::MAX { (x * y) % m - m } else { (x * y) % m }
            });
        },
        _ => {},
    }
}

/// The quotient rounded towards zero and its remainder.
proof fn lemma_trunc_division(x: int, y: int)
    requires
        y != 0,
    ensures
        x == y * trunc_div(x, y) + trunc_rem(x, y),
        abs_int(trunc_rem(x, y)) < abs_int(y),
        trunc_rem(x, y) == 0 || (trunc_rem(x, y) < 0) == (x < 0),
        abs_int(trunc_div(x, y)) <= abs_int(x),
        abs_int(trunc_div(x, y)) == abs_int(x) ==> abs_int(y) == 1 || x == 0,
{
    let ax = abs_int(x);
    let ay = abs_int(y);
    let qq = ax / ay;
    let rr = ax % ay;
    vstd::arithmetic::div_mod::lemma_fundamental_div_mod(ax, ay);
    assert(0 <= rr < ay);
    assert(0 <= qq <= ax && (qq == ax ==> ay == 1 || ax == 0)) by (nonlinear_arith)
        requires
            ax == ay * qq + rr,
            0 <= rr < ay,
            ay >= 1,
            ax >= 0,
    ;
    if x >= 0 && y > 0 {
        assert(x - y * qq == rr);
    } else if x >= 0 {
        assert(y * (-qq) == ay * qq) by (nonlinear_arith)
            requires
                y == -ay,
        ;
    } else if y > 0 {
        assert(y * (-qq) == -(ay * qq)) by (nonlinear_arith)
            requires
                y == ay,
        ;
    } else {
        assert(y * qq == -(ay * qq)) by (nonlinear_arith)
            requires
                y == -ay,
        ;
    }
}

/// The value that division and remainder give: the quotient rounded
/// towards zero and its remainder.
proof fn lemma_division_value(op: BinOp, a: CVal, b: CVal)
    requires
        op == BinOp::Div || op == BinOp::Mod,
        same_int_kind(a, b),
        number(b) != 0,
        !(a is I64 && number(a) == i64::MIN && number(b) == -1),
        !(a is I32 && number(a) == i32::MIN && number(b) == -1),
    ensures
        eval_bin(op, a, b) is Value,
        same_int_kind(eval_bin(op, a, b)->Value_0, a),
        op == BinOp::Div ==> number(eval_bin(op, a, b)->Value_0) == trunc_div(number(a), number(b)),
        op == BinOp::Mod ==> number(eval_bin(op, a, b)->Value_0) == trunc_rem(number(a), number(b)),
{
    let x = number(a);
    let y = number(b);
    lemma_trunc_division(x, y);
    if x >= 0 && y > 0 {
        vstd::arithmetic::div_mod::lemma_fundamental_div_mod(x, y);
        assert(trunc_div(x, y) == x / y);
        assert(trunc_rem(x, y) == x % y);
    }
}

/// Division and remainder of two integers of one kind, by a non-zero
/// divisor and without the one signed overflow: the quotient `q` and the
/// remainder `r` satisfy `a == q * b + r`, with `|r| < |b|` and `r` of the
/// sign of `a` (or zero): division rounds towards zero.
pub proof fn lemma_division(op: BinOp, a: CVal, b: CVal, env: Map<Seq<char>, CVal>)
    requires
        op == BinOp::Div || op == BinOp::Mod,
        same_int_kind(a, b),
        number(b) != 0,
        !(a is I64 && number(a) == i64::MIN && number(b) == -1),
        !(a is I32 && number(a) == i32::MIN && number(b) == -1),
    ensures
        ({
            let r = eval(Expr::Bin(op, Box::new(Expr::Const(a)), Box::new(Expr::Const(b))), env);
            &&& r is Value
            &&& same_int_kind(r->Value_0, a)
            &&& op == BinOp::Div ==> {
                let rem = number(a) - number(r->Value_0) * number(b);
                &&& abs_int(rem) < abs_int(number(b))
                &&& (rem == 0 || (rem < 0) == (number(a) < 0))
            }
            &&& op == BinOp::Mod ==> {
                let v = number(r->Value_0);
                &&& (number(a) - v) % abs_int(number(b)) == 0
                &&& abs_int(v) < abs_int(number(b))
                &&& (v == 0 || (v < 0) == (number(a) < 0))
            }
        }),
{
    let x = number(a);
    let y = number(b);
    let r = eval(Expr::Bin(op, Box::new(Expr::Const(a)), Box::new(Expr::Const(b))), env);
    assert(r == eval_bin(op, a, b)) by {
        reveal_with_fuel(eval, 2);
    }
    lemma_division_value(op, a, b);
    lemma_trunc_division(x, y);
    let q = trunc_div(x, y);
    let rr = trunc_rem(x, y);
    assert(x - q * y == rr && x - rr == q * y) by (nonlinear_arith)
        requires
            x == y * q + rr,
    ;
    if y > 0 {
        vstd::arithmetic::div_mod::lemma_mod_multiples_basic(q, y);
    } else {
        assert(q * y == (-q) * (-y)) by (nonlinear_arith);
        vstd::arithmetic::div_mod::lemma_mod_multiples_basic(-q, -y);
    }
}

/// Comparisons of two integers of one kind give the boolean that the
/// comparison of the two numbers has.
pub proof fn lemma_integer_comparison(op: BinOp, a: CVal, b: CVal, env: Map<Seq<char>, CVal>)
    requires
        op == BinOp::Lt || op == BinOp::Le || op == BinOp::Gt || op == BinOp::Ge || op == BinOp::Eq || op
            == BinOp::Ne,
        same_int_kind(a, b),
    ensures
        ({
            let r = eval(Expr::Bin(op, Box::new(Expr::Const(a)), Box::new(Expr::Const(b))), env);
            let x = number(a);
            let y = number(b);
            r == Outcome::Value(CVal::Bool(
                if op == BinOp::Lt {
                    x < y
                } else if op == BinOp::Le {
                    x <= y
                } else if op == BinOp::Gt {
                    x > y
                } else if op == BinOp::Ge {
                    x >= y
                } else if op == BinOp::Eq {
                    x == y
                } else {
                    x != y
                },
            ))
        }),
{
    let r = eval(Expr::Bin(op, Box::new(Expr::Const(a)), Box::new(Expr::Const(b))), env);
    assert(r == eval_bin(op, a, b)) by {
        reveal_with_fuel(eval, 2);
    }
}

/// Negation of a signed integer other than the most negative gives the
/// opposite number, of the same kind; `!` of a boolean gives the other
/// boolean.
pub proof fn lemma_negation(a: CVal, env: Map<Seq<char>, CVal>)
    ensures
        (a is I64 && number(a) != i64::MIN) || (a is I32 && number(a) != i32::MIN) ==> ({
            let r = eval(Expr::Un(UnOp::Neg, Box::new(Expr::Const(a))), env);
            r is Value && same_int_kind(r->Value_0, a) && number(r->Value_0) == -number(a)
        }),
        a is Bool ==> eval(Expr::Un(UnOp::Not, Box::new(Expr::Const(a))), env) == Outcome::Value(
            CVal::Bool(!a->Bool_0),
        ),
{
    reveal_with_fuel(eval, 2);
}

// ---------------------------------------------------------------------------
// Implementation
// ---------------------------------------------------------------------------

fn val(c: ConstValue) -> (r: Evaluation)
    ensures
        r@ == value(c@),
{
    Evaluation::Value(c)
}

fn eval_unary(op: UnOp, v: &ConstValue) -> (r: Evaluation)
    ensures
        r@ == eval_un(op, v@),
{
    match (op, v) {
        (UnOp::Neg, ConstValue::I64(n)) => if *n == i64::MIN {
            Evaluation::Trap
        } else {
            val(ConstValue::I64(-*n))
        },
        (UnOp::Neg, ConstValue::I32(n)) => if *n == i32::MIN {
            Evaluation::Trap
        } else {
            val(ConstValue::I32(-*n))
        },
        (UnOp::Neg, ConstValue::F64(b)) => val(ConstValue::F64(*b ^ 0x8000_0000_0000_0000u64)),
        (UnOp::Neg, ConstValue::F32(b)) => val(ConstValue::F32(*b ^ 0x8000_0000u32)),
        (UnOp::Not, ConstValue::Bool(b)) => val(ConstValue::Bool(!*b)),
        (UnOp::Not, ConstValue::U64(n)) => val(ConstValue::U64(!*n)),
        (UnOp::Not, ConstValue::U32(n)) => val(ConstValue::U32(!*n)),
        (UnOp::Not, ConstValue::U8(n)) => val(ConstValue::U8(!*n)),
        (UnOp::Not, ConstValue::I64(n)) => val(ConstValue::I64(!*n)),
        (UnOp::Not, ConstValue::I32(n)) => val(ConstValue::I32(!*n)),
        (UnOp::StrLen, ConstValue::String(s)) => {
            let n = bytes_of(s.as_str()).len();
            val(ConstValue::U64(n as u64))
        },
        _ => Evaluation::Undefined,
    }
}

fn eval_add_values(a: &ConstValue, b: &ConstValue) -> (r: Evaluation)
    ensures
        r@ == eval_add(a@, b@),
{
    match (a, b) {
        (ConstValue::U64(x), ConstValue::U64(y)) => val(ConstValue::U64(x.wrapping_add(*y))),
        (ConstValue::I64(x), ConstValue::I64(y)) => val(ConstValue::I64(x.wrapping_add(*y))),
        (ConstValue::U32(x), ConstValue::U32(y)) => val(ConstValue::U32(x.wrapping_add(*y))),
        (ConstValue::I32(x), ConstValue::I32(y)) => val(ConstValue::I32(x.wrapping_add(*y))),
        (ConstValue::U8(x), ConstValue::U8(y)) => val(ConstValue::U8(x.wrapping_add(*y))),
        (ConstValue::F64(_), ConstValue::F64(_)) | (ConstValue::F32(_), ConstValue::F32(_)) => {
            Evaluation::FloatArithmetic
        },
        _ => Evaluation::Undefined,
    }
}

fn eval_sub_values(a: &ConstValue, b: &ConstValue) -> (r: Evaluation)
    ensures
        r@ == eval_sub(a@, b@),
{
    match (a, b) {
        (ConstValue::U64(x), ConstValue::U64(y)) => val(ConstValue::U64(x.wrapping_sub(*y))),
        (ConstValue::I64(x), ConstValue::I64(y)) => val(ConstValue::I64(x.wrapping_sub(*y))),
        (ConstValue::U32(x), ConstValue::U32(y)) => val(ConstValue::U32(x.wrapping_sub(*y))),
        (ConstValue::I32(x), ConstValue::I32(y)) => val(ConstValue::I32(x.wrapping_sub(*y))),
        (ConstValue::U8(x), ConstValue::U8(y)) => val(ConstValue::U8(x.wrapping_sub(*y))),
        (ConstValue::F64(_), ConstValue::F64(_)) | (ConstValue::F32(_), ConstValue::F32(_)) => {
            Evaluation::FloatArithmetic
        },
        _ => Evaluation::Undefined,
    }
}

fn eval_mul_values(a: &ConstValue, b: &ConstValue) -> (r: Evaluation)
    ensures
        r@ == eval_mul(a@, b@),
{
    match (a, b) {
        (ConstValue::U64(x), ConstValue::U64(y)) => val(ConstValue::U64(x.wrapping_mul(*y))),
        (ConstValue::I64(x), ConstValue::I64(y)) => val(ConstValue::I64(x.wrapping_mul(*y))),
        (ConstValue::U32(x), ConstValue::U32(y)) => val(ConstValue::U32(x.wrapping_mul(*y))),
        (ConstValue::I32(x), ConstValue::I32(y)) => val(ConstValue::I32(x.wrapping_mul(*y))),
        (ConstValue::U8(x), ConstValue::U8(y)) => val(ConstValue::U8(x.wrapping_mul(*y))),
        (ConstValue::F64(_), ConstValue::F64(_)) | (ConstValue::F32(_), ConstValue::F32(_)) => {
            Evaluation::FloatArithmetic
        },
        _ => Evaluation::Undefined,
    }
}

fn eval_div_values(a: &ConstValue, b: &ConstValue) -> (r: Evaluation)
    ensures
        r@ == eval_div(a@, b@),
{
    match (a, b) {
        (ConstValue::U64(x), ConstValue::U64(y)) => if *y == 0 {
            Evaluation::Undefined
        } else {
            val(ConstValue::U64(*x / *y))
        },
        (ConstValue::U32(x), ConstValue::U32(y)) => if *y == 0 {
            Evaluation::Undefined
        } else {
            val(ConstValue::U32(*x / *y))
        },
        (ConstValue::U8(x), ConstValue::U8(y)) => if *y == 0 {
            Evaluation::Undefined
        } else {
            val(ConstValue::U8(*x / *y))
        },
        (ConstValue::I64(x), ConstValue::I64(y)) => if *y == 0 {
            Evaluation::Undefined
        } else if *x == i64::MIN && *y == -1 {
            Evaluation::Trap
        } else {
            val(ConstValue::I64(div_i64(*x, *y)))
        },
        (ConstValue::I32(x), ConstValue::I32(y)) => if *y == 0 {
            Evaluation::Undefined
        } else if *x == i32::MIN && *y == -1 {
            Evaluation::Trap
        } else {
            val(ConstValue::I32(div_i32(*x, *y)))
        },
        (ConstValue::F64(_), ConstValue::F64(_)) | (ConstValue::F32(_), ConstValue::F32(_)) => {
            Evaluation::FloatArithmetic
        },
        _ => Evaluation::Undefined,
    }
}

fn eval_rem_values(a: &ConstValue, b: &ConstValue) -> (r: Evaluation)
    ensures
        r@ == eval_rem(a@, b@),
{
    match (a, b) {
        (ConstValue::U64(x), ConstValue::U64(y)) => if *y == 0 {
            Evaluation::Undefined
        } else {
            val(ConstValue::U64(*x % *y))
        },
        (ConstValue::U32(x), ConstValue::U32(y)) => if *y == 0 {
            Evaluation::Undefined
        } else {
            val(ConstValue::U32(*x % *y))
        },
        (ConstValue::U8(x), ConstValue::U8(y)) => if *y == 0 {
            Evaluation::Undefined
        } else {
            val(ConstValue::U8(*x % *y))
        },
        (ConstValue::I64(x), ConstValue::I64(y)) => if *y == 0 {
            Evaluation::Undefined
        } else if *x == i64::MIN && *y == -1 {
            Evaluation::Trap
        } else {
            val(ConstValue::I64(rem_i64(*x, *y)))
        },
        (ConstValue::I32(x), ConstValue::I32(y)) => if *y == 0 {
            Evaluation::Undefined
        } else if *x == i32::MIN && *y == -1 {
            Evaluation::Trap
        } else {
            val(ConstValue::I32(rem_i32(*x, *y)))
        },
        _ => Evaluation::Undefined,
    }
}

fn eval_bitwise_values(op: BinOp, a: &ConstValue, b: &ConstValue) -> (r: Evaluation)
    ensures
        r@ == eval_bitwise(op, a@, b@),
{
    let and = op == BinOp::BitAnd;
    let or = op == BinOp::BitOr;
    match (a, b) {
        (ConstValue::U64(x), ConstValue::U64(y)) => val(ConstValue::U64(
            if and { *x & *y } else if or { *x | *y } else { *x ^ *y },
        )),
        (ConstValue::I64(x), ConstValue::I64(y)) => val(ConstValue::I64(
            if and { *x & *y } else if or { *x | *y } else { *x ^ *y },
        )),
        (ConstValue::U32(x), ConstValue::U32(y)) => val(ConstValue::U32(
            if and { *x & *y } else if or { *x | *y } else { *x ^ *y },
        )),
        (ConstValue::I32(x), ConstValue::I32(y)) => val(ConstValue::I32(
            if and { *x & *y } else if or { *x | *y } else { *x ^ *y },
        )),
        (ConstValue::U8(x), ConstValue::U8(y)) => val(ConstValue::U8(
            if and { *x & *y } else if or { *x | *y } else { *x ^ *y },
        )),
        (ConstValue::Bool(x), ConstValue::Bool(y)) => val(ConstValue::Bool(
            if and { *x && *y } else if or { *x || *y } else { *x != *y },
        )),
        _ => Evaluation::Undefined,
    }
}

fn shift_of(b: &ConstValue) -> (r: Option<u32>)
    ensures
        r == shift_amount(b@),
{
    match b {
        ConstValue::U64(n) => Some(*n as u32),
        ConstValue::U32(n) => Some(*n),
        ConstValue::U8(n) => Some(*n as u32),
        ConstValue::I64(n) => if *n >= 0 { Some(*n as u32) } else { None },
        ConstValue::I32(n) => if *n >= 0 { Some(*n as u32) } else { None },
        _ => None,
    }
}

fn eval_shift_values(left: bool, a: &ConstValue, b: &ConstValue) -> (r: Evaluation)
    ensures
        r@ == eval_shift(left, a@, b@),
{
    match shift_of(b) {
        None => Evaluation::Undefined,
        Some(s) => match a {
            ConstValue::U64(x) => if s < 64 {
                val(ConstValue::U64(if left { x.wrapping_shl(s) } else { x.wrapping_shr(s) }))
            } else {
                Evaluation::Undefined
            },
            ConstValue::I64(x) => if s < 64 {
                val(ConstValue::I64(if left { x.wrapping_shl(s) } else { x.wrapping_shr(s) }))
            } else {
                Evaluation::Undefined
            },
            ConstValue::U32(x) => if s < 32 {
                val(ConstValue::U32(if left { x.wrapping_shl(s) } else { x.wrapping_shr(s) }))
            } else {
                Evaluation::Undefined
            },
            ConstValue::I32(x) => if s < 32 {
                val(ConstValue::I32(if left { x.wrapping_shl(s) } else { x.wrapping_shr(s) }))
            } else {
                Evaluation::Undefined
            },
            ConstValue::U8(x) => if s < 8 {
                val(ConstValue::U8(if left { x.wrapping_shl(s) } else { x.wrapping_shr(s) }))
            } else {
                Evaluation::Undefined
            },
            _ => Evaluation::Undefined,
        },
    }
}

fn order_of(strict: bool, a: &ConstValue, b: &ConstValue) -> (r: Option<bool>)
    ensures
        r == ordered(strict, a@, b@),
{
    match (a, b) {
        (ConstValue::U64(x), ConstValue::U64(y)) => Some(if strict { *x < *y } else { *x <= *y }),
        (ConstValue::I64(x), ConstValue::I64(y)) => Some(if strict { *x < *y } else { *x <= *y }),
        (ConstValue::U32(x), ConstValue::U32(y)) => Some(if strict { *x < *y } else { *x <= *y }),
        (ConstValue::I32(x), ConstValue::I32(y)) => Some(if strict { *x < *y } else { *x <= *y }),
        (ConstValue::U8(x), ConstValue::U8(y)) => Some(if strict { *x < *y } else { *x <= *y }),
        (ConstValue::F64(x), ConstValue::F64(y)) => {
            let (lt, le) = f64_compare(*x, *y);
            Some(if strict { lt } else { le })
        },
        (ConstValue::F32(x), ConstValue::F32(y)) => {
            let (lt, le) = f32_compare(*x, *y);
            Some(if strict { lt } else { le })
        },
        _ => None,
    }
}

fn eval_order_values(op: BinOp, a: &ConstValue, b: &ConstValue) -> (r: Evaluation)
    ensures
        r@ == eval_order(op, a@, b@),
{
    let o = if op == BinOp::Lt {
        order_of(true, a, b)
    } else if op == BinOp::Le {
        order_of(false, a, b)
    } else if op == BinOp::Gt {
        order_of(true, b, a)
    } else {
        order_of(false, b, a)
    };
    match o {
        Some(t) => val(ConstValue::Bool(t)),
        None => Evaluation::Undefined,
    }
}

fn eval_str_values(op: BinOp, a: &ConstValue, b: &ConstValue) -> (r: Evaluation)
    ensures
        r@ == eval_str_bin(op, a@, b@),
{
    match (a, b) {
        (ConstValue::String(x), ConstValue::String(y)) => if op == BinOp::StrConcat {
            let mut cs = chars_of(x.as_str());
            let ys = chars_of(y.as_str());
            push_chars(&mut cs, &ys);
            val(ConstValue::String(string_from_chars(&cs)))
        } else if op == BinOp::StrLexLt {
            val(ConstValue::Bool(str_less(x.as_str(), y.as_str())))
        } else {
            val(ConstValue::Bool(str_less(x.as_str(), y.as_str()) || *x == *y))
        },
        _ => Evaluation::Undefined,
    }
}

/// A binary operation on two values.
pub fn eval_binary(op: BinOp, a: &ConstValue, b: &ConstValue) -> (r: Evaluation)
    ensures
        r@ == eval_bin(op, a@, b@),
{
    match op {
        BinOp::Add => eval_add_values(a, b),
        BinOp::Sub => eval_sub_values(a, b),
        BinOp::Mul => eval_mul_values(a, b),
        BinOp::Div => eval_div_values(a, b),
        BinOp::Mod => eval_rem_values(a, b),
        BinOp::BitAnd | BinOp::BitOr | BinOp::BitXor => eval_bitwise_values(op, a, b),
        BinOp::Shl => eval_shift_values(true, a, b),
        BinOp::Shr => eval_shift_values(false, a, b),
        BinOp::Eq => val(ConstValue::Bool(equal_with_nan(a, b))),
        BinOp::Ne => val(ConstValue::Bool(!equal_with_nan(a, b))),
        BinOp::Lt | BinOp::Le | BinOp::Gt | BinOp::Ge => eval_order_values(op, a, b),
        BinOp::StrConcat | BinOp::StrLexLt | BinOp::StrLexLe => eval_str_values(op, a, b),
    }
}

fn eval_substr_values(s: &ConstValue, a: &ConstValue, b: &ConstValue) -> (r: Evaluation)
    ensures
        r@ == eval_substr(s@, a@, b@),
{
    match (s, a.as_u64(), b.as_u64()) {
        (ConstValue::String(text), Some(x), Some(y)) => {
            let start = x as usize;
            let len = y as usize;
            let bytes = bytes_of(text.as_str());
            if start > bytes.len() {
                Evaluation::Undefined
            } else if len > usize::MAX - start {
                Evaluation::Trap
            } else if start + len > bytes.len() {
                Evaluation::Undefined
            } else {
                let piece = slice_subrange(bytes.as_slice(), start, start + len);
                match string_from_utf8(piece) {
                    Some(out) => val(ConstValue::String(out)),
                    None => Evaluation::Trap,
                }
            }
        },
        _ => Evaluation::Undefined,
    }
}

fn eval_at_values(s: &ConstValue, i: &ConstValue) -> (r: Evaluation)
    ensures
        r@ == eval_at(s@, i@),
{
    match (s, i.as_u64()) {
        (ConstValue::String(text), Some(x)) => {
            let k = x as usize;
            let cs = chars_of(text.as_str());
            if k < bytes_of(text.as_str()).len() && k < cs.len() {
                let one = string_of_char(cs[k]);
                val(ConstValue::String(one))
            } else {
                Evaluation::Undefined
            }
        },
        _ => Evaluation::Undefined,
    }
}

fn eval_index_of_values(h: &ConstValue, n: &ConstValue, o: &ConstValue) -> (r: Evaluation)
    ensures
        r@ == eval_index_of(h@, n@, o@),
{
    match (h, n, o.as_u64()) {
        (ConstValue::String(hs), ConstValue::String(ns), Some(x)) => {
            let off = x as usize;
            let hb = bytes_of(hs.as_str());
            if off > hb.len() {
                return val(ConstValue::I32(-1));
            }
            let rest = slice_subrange(hb.as_slice(), off, hb.len());
            match string_from_utf8(rest) {
                None => {
                    proof {
                        assert(rest@ == hb@.skip(off as int));
                    }
                    Evaluation::Trap
                },
                Some(_) => {
                    proof {
                        assert(rest@ == hb@.skip(off as int));
                    }
                    let nb = bytes_of(ns.as_str());
                    match bytes_find_from(hb.as_slice(), nb.as_slice(), off) {
                        Some(p) => val(ConstValue::I32(p as i32)),
                        None => val(ConstValue::I32(-1)),
                    }
                },
            }
        },
        _ => Evaluation::Undefined,
    }
}

fn eval_test_values(kind: u8, a: &ConstValue, b: &ConstValue) -> (r: Evaluation)
    requires
        kind <= 2,
    ensures
        r@ == eval_str_test(kind as nat, a@, b@),
{
    match (a, b) {
        (ConstValue::String(x), ConstValue::String(y)) => {
            let xs = chars_of(x.as_str());
            let ys = chars_of(y.as_str());
            let t = if kind == 0 {
                chars_contain(&xs, &ys)
            } else if kind == 1 {
                chars_start_with(&ys, &xs)
            } else {
                chars_end_with(&ys, &xs)
            };
            val(ConstValue::Bool(t))
        },
        _ => Evaluation::Undefined,
    }
}

fn eval_replace_values(all: bool, s: &ConstValue, p: &ConstValue, r: &ConstValue) -> (res: Evaluation)
    ensures
        res@ == eval_replace(all, s@, p@, r@),
{
    match (s, p, r) {
        (ConstValue::String(a), ConstValue::String(b), ConstValue::String(c)) => {
            let av = chars_of(a.as_str());
            let bv = chars_of(b.as_str());
            let cv = chars_of(c.as_str());
            let out = if all {
                chars_replace_all(&av, &bv, &cv)
            } else {
                chars_replace_first(&av, &bv, &cv)
            };
            val(ConstValue::String(string_from_chars(&out)))
        },
        _ => Evaluation::Undefined,
    }
}

impl SymExpr {
    /// Evaluates the expression under `bindings`, operands left to right.
    pub fn evaluate(&self, bindings: &ValueMap) -> (r: Evaluation)
        requires
            bindings.wf(),
        ensures
            r@ == eval(self@, bindings@),
        decreases self,
    {
        match self {
            SymExpr::Variable(name) => match bindings.get(name.as_str()) {
                Some(v) => val(v.clone()),
                None => Evaluation::Undefined,
            },
            SymExpr::Constant(c) => val(c.clone()),
            SymExpr::UnaryOp(op, x) => match x.evaluate(bindings) {
                Evaluation::Value(v) => eval_unary(*op, &v),
                other => other,
            },
            SymExpr::BinaryOp(op, l, r) => {
                let a = match l.evaluate(bindings) {
                    Evaluation::Value(v) => v,
                    other => {
                        return other;
                    },
                };
                let b = match r.evaluate(bindings) {
                    Evaluation::Value(v) => v,
                    other => {
                        return other;
                    },
                };
                eval_binary(*op, &a, &b)
            },
            SymExpr::Conditional(c, t, f) => match c.evaluate(bindings) {
                Evaluation::Value(ConstValue::Bool(true)) => t.evaluate(bindings),
                Evaluation::Value(ConstValue::Bool(false)) => f.evaluate(bindings),
                Evaluation::Value(_) => Evaluation::Undefined,
                other => other,
            },
            SymExpr::StrSubstring(s, a, b) => {
                let x = match s.evaluate(bindings) {
                    Evaluation::Value(v) => v,
                    other => {
                        return other;
                    },
                };
                let y = match a.evaluate(bindings) {
                    Evaluation::Value(v) => v,
                    other => {
                        return other;
                    },
                };
                let z = match b.evaluate(bindings) {
                    Evaluation::Value(v) => v,
                    other => {
                        return other;
                    },
                };
                eval_substr_values(&x, &y, &z)
            },
            SymExpr::StrContains(a, b) | SymExpr::StrPrefixOf(a, b) | SymExpr::StrSuffixOf(a, b) => {
                let kind: u8 = match self {
                    SymExpr::StrContains(_, _) => 0,
                    SymExpr::StrPrefixOf(_, _) => 1,
                    _ => 2,
                };
                let x = match a.evaluate(bindings) {
                    Evaluation::Value(v) => v,
                    other => {
                        return other;
                    },
                };
                let y = match b.evaluate(bindings) {
                    Evaluation::Value(v) => v,
                    other => {
                        return other;
                    },
                };
                eval_test_values(kind, &x, &y)
            },
            SymExpr::StrReplace(s, p, r) | SymExpr::StrReplaceAll(s, p, r) => {
                let all = match self {
                    SymExpr::StrReplaceAll(_, _, _) => true,
                    _ => false,
                };
                let x = match s.evaluate(bindings) {
                    Evaluation::Value(v) => v,
                    other => {
                        return other;
                    },
                };
                let y = match p.evaluate(bindings) {
                    Evaluation::Value(v) => v,
                    other => {
                        return other;
                    },
                };
                let z = match r.evaluate(bindings) {
                    Evaluation::Value(v) => v,
                    other => {
                        return other;
                    },
                };
                eval_replace_values(all, &x, &y, &z)
            },
            SymExpr::StrAt(s, i) => {
                let x = match s.evaluate(bindings) {
                    Evaluation::Value(v) => v,
                    other => {
                        return other;
                    },
                };
                let y = match i.evaluate(bindings) {
                    Evaluation::Value(v) => v,
                    other => {
                        return other;
                    },
                };
                eval_at_values(&x, &y)
            },
            SymExpr::StrIndexOf(h, n, o) => {
                let x = match h.evaluate(bindings) {
                    Evaluation::Value(v) => v,
                    other => {
                        return other;
                    },
                };
                let y = match n.evaluate(bindings) {
                    Evaluation::Value(v) => v,
                    other => {
                        return other;
                    },
                };
                let z = match o.evaluate(bindings) {
                    Evaluation::Value(v) => v,
                    other => {
                        return other;
                    },
                };
                eval_index_of_values(&x, &y, &z)
            },
        }
    }

    /// The value of the expression under `bindings`; `None` when any of its
    /// variables is unbound, or when it has no value (mismatched operand
    /// kinds, a division by zero, an index out of range). Expressions whose
    /// evaluation needs float arithmetic or traps are outside its domain;
    /// see [`SymExpr::evaluate`].
    pub fn get_concrete_value(&self, bindings: &ValueMap) -> (r: Option<ConstValue>)
        requires
            bindings.wf(),
            vars_of(self@).subset_of(bindings@.dom()) ==> eval(self@, bindings@) !is Float,
            vars_of(self@).subset_of(bindings@.dom()) ==> eval(self@, bindings@) !is Trap,
        ensures
            !vars_of(self@).subset_of(bindings@.dom()) ==> r is None,
            vars_of(self@).subset_of(bindings@.dom()) ==> match eval(self@, bindings@) {
                Outcome::Value(c) => r matches Some(v) && v@ == c,
                _ => r is None,
            },
    {
        let vars = self.get_variables();
        let ghost names = views_of(vars@);
        let mut i: usize = 0;
        while i < vars.len()
            invariant
                i <= vars@.len(),
                names == views_of(vars@),
                names.to_set() == vars_of(self@),
                bindings.wf(),
                forall|k: int| 0 <= k < i ==> bindings@.contains_key(#[trigger] names[k]),
            decreases vars@.len() - i,
        {
            if bindings.get(vars[i].as_str()).is_none() {
                proof {
                    assert(names[i as int] == vars@[i as int]@);
                    assert(names.to_set().contains(names[i as int]));
                }
                return None;
            }
            proof {
                assert(names[i as int] == vars@[i as int]@);
            }
            i = i + 1;
        }
        proof {
            assert forall|x: Seq<char>| vars_of(self@).contains(x) implies bindings@.dom().contains(x) by {
                assert(names.to_set().contains(x));
                let k = choose|k: int| 0 <= k < names.len() && names[k] == x;
            }
        }
        match self.evaluate(bindings) {
            Evaluation::Value(v) => Some(v),
            _ => None,
        }
    }
}

} // verus!
