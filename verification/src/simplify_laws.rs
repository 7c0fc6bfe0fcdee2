//! What simplification keeps: the variables it may mention and, on integer
//! and boolean expressions, the value an expression evaluates to.
use vstd::prelude::*;
use crate::eval::{eval, eval_bin, eval_un, Outcome};
use crate::expressions::{expr_eq, BinOp, CVal, Expr, UnOp};
use crate::intops::{abs_int, trunc_div};
use crate::simplify::{const_i64, const_of, const_str, const_u64, bin_ok, simp, simp_bin, simp_cond, simp_ok, simp_un, un_ok};
use crate::smt::vars_of;

verus! {

/// A signed 64-bit integer or a boolean.
pub open spec fn plain_const(c: CVal) -> bool {
    c is I64 || c is Bool
}

/// Every constant of the expression is a signed 64-bit integer or a
/// boolean, and it has no `^` node.
pub open spec fn plain_expr(e: Expr) -> bool
    decreases e,
{
    match e {
        Expr::Var(_) => true,
        Expr::Const(c) => plain_const(c),
        Expr::Un(_, x) => plain_expr(*x),
        Expr::Bin(op, l, r) => op != BinOp::BitXor && plain_expr(*l) && plain_expr(*r),
        Expr::Cond(a, b, c) | Expr::Substr(a, b, c) | Expr::Replace(a, b, c) | Expr::ReplaceAll(a, b, c)
        | Expr::IndexOf(a, b, c) => plain_expr(*a) && plain_expr(*b) && plain_expr(*c),
        Expr::Contains(a, b) | Expr::PrefixOf(a, b) | Expr::SuffixOf(a, b) | Expr::At(a, b) => plain_expr(
            *a,
        ) && plain_expr(*b),
    }
}

/// Every bound value is a signed 64-bit integer or a boolean.
pub open spec fn plain_env(env: Map<Seq<char>, CVal>) -> bool {
    forall|n: Seq<char>| env.contains_key(n) ==> plain_const(#[trigger] env[n])
}

/// Without floats, trees equal up to constants are equal.
proof fn lemma_plain_expr_eq(a: Expr, b: Expr)
    requires
        plain_expr(a),
        expr_eq(a, b),
    ensures
        a == b,
    decreases a,
{
    match (a, b) {
        (Expr::Bin(_, a1, b1), Expr::Bin(_, a2, b2)) => {
            lemma_plain_expr_eq(*a1, *a2);
            lemma_plain_expr_eq(*b1, *b2);
        },
        (Expr::Un(_, a1), Expr::Un(_, a2)) => {
            lemma_plain_expr_eq(*a1, *a2);
        },
        (Expr::Cond(a1, b1, c1), Expr::Cond(a2, b2, c2)) | (Expr::Substr(a1, b1, c1), Expr::Substr(a2, b2, c2))
        | (Expr::Replace(a1, b1, c1), Expr::Replace(a2, b2, c2)) | (
            Expr::ReplaceAll(a1, b1, c1),
            Expr::ReplaceAll(a2, b2, c2),
        ) | (Expr::IndexOf(a1, b1, c1), Expr::IndexOf(a2, b2, c2)) => {
            lemma_plain_expr_eq(*a1, *a2);
            lemma_plain_expr_eq(*b1, *b2);
            lemma_plain_expr_eq(*c1, *c2);
        },
        (Expr::Contains(a1, b1), Expr::Contains(a2, b2)) | (Expr::PrefixOf(a1, b1), Expr::PrefixOf(a2, b2))
        | (Expr::SuffixOf(a1, b1), Expr::SuffixOf(a2, b2)) | (Expr::At(a1, b1), Expr::At(a2, b2)) => {
            lemma_plain_expr_eq(*a1, *a2);
            lemma_plain_expr_eq(*b1, *b2);
        },
        _ => {},
    }
}

/// A plain expression under a plain assignment evaluates, when it has a
/// value, to an integer or a boolean.
pub proof fn lemma_eval_plain(e: Expr, env: Map<Seq<char>, CVal>)
    requires
        plain_expr(e),
        plain_env(env),
    ensures
        eval(e, env) matches Outcome::Value(v) ==> plain_const(v),
    decreases e,
{
    match e {
        Expr::Var(n) => {
            if env.contains_key(n) {
                assert(plain_const(env[n]));
            }
        },
        Expr::Const(_) => {},
        Expr::Un(_, x) => {
            lemma_eval_plain(*x, env);
        },
        Expr::Bin(_, l, r) | Expr::Contains(l, r) | Expr::PrefixOf(l, r) | Expr::SuffixOf(l, r) | Expr::At(
            l,
            r,
        ) => {
            lemma_eval_plain(*l, env);
            lemma_eval_plain(*r, env);
        },
        Expr::Cond(a, b, c) | Expr::Substr(a, b, c) | Expr::Replace(a, b, c) | Expr::ReplaceAll(a, b, c)
        | Expr::IndexOf(a, b, c) => {
            lemma_eval_plain(*a, env);
            lemma_eval_plain(*b, env);
            lemma_eval_plain(*c, env);
        },
    }
}

/// Simplifying a plain expression gives a plain expression.
proof fn lemma_simp_plain(e: Expr)
    requires
        plain_expr(e),
    ensures
        plain_expr(simp(e)),
    decreases e,
{
    match e {
        Expr::Var(_) | Expr::Const(_) => {},
        Expr::Un(_, x) => {
            lemma_simp_plain(*x);
        },
        Expr::Bin(_, l, r) | Expr::Contains(l, r) | Expr::PrefixOf(l, r) | Expr::SuffixOf(l, r) | Expr::At(
            l,
            r,
        ) => {
            lemma_simp_plain(*l);
            lemma_simp_plain(*r);
        },
        Expr::Cond(a, b, c) | Expr::Substr(a, b, c) | Expr::Replace(a, b, c) | Expr::ReplaceAll(a, b, c)
        | Expr::IndexOf(a, b, c) => {
            lemma_simp_plain(*a);
            lemma_simp_plain(*b);
            lemma_simp_plain(*c);
        },
    }
}

/// Simplification mentions no variable the expression did not.
pub proof fn lemma_simp_vars(e: Expr)
    ensures
        vars_of(simp(e)).subset_of(vars_of(e)),
    decreases e,
{
    match e {
        Expr::Var(_) | Expr::Const(_) => {},
        Expr::Un(_, x) => {
            lemma_simp_vars(*x);
        },
        Expr::Bin(_, l, r) | Expr::Contains(l, r) | Expr::PrefixOf(l, r) | Expr::SuffixOf(l, r) | Expr::At(
            l,
            r,
        ) => {
            lemma_simp_vars(*l);
            lemma_simp_vars(*r);
        },
        Expr::Cond(a, b, c) | Expr::Substr(a, b, c) | Expr::Replace(a, b, c) | Expr::ReplaceAll(a, b, c)
        | Expr::IndexOf(a, b, c) => {
            lemma_simp_vars(*a);
            lemma_simp_vars(*b);
            lemma_simp_vars(*c);
        },
    }
}

/// The unary rule keeps the value of an operation that has one.
proof fn lemma_un_keeps(op: UnOp, x: Expr, env: Map<Seq<char>, CVal>)
    requires
        plain_expr(x),
        plain_env(env),
        un_ok(op, x),
        eval(x, env) is Value,
        eval_un(op, eval(x, env)->Value_0) is Value,
    ensures
        eval(simp_un(op, x), env) == eval_un(op, eval(x, env)->Value_0),
{
    lemma_eval_plain(x, env);
    match x {
        Expr::Un(inner_op, inner) => {
            lemma_eval_plain(*inner, env);
            if (op == UnOp::Neg && inner_op == UnOp::Neg) || (op == UnOp::Not && inner_op == UnOp::Not) {
                let w = eval(*inner, env)->Value_0;
                match w {
                    CVal::I64(n) => {
                        if op == UnOp::Not {
                            assert(!(!n) == n) by (bit_vector);
                        }
                    },
                    _ => {},
                }
            }
        },
        _ => {},
    }
}

/// Wrapping a product that fits changes nothing.
proof fn lemma_crop_fits(p: int)
    requires
        i64::MIN <= p <= i64::MAX,
    ensures
        vstd::wrapping::i64_specs::signed_crop(p) == p as i64,
{
    if p >= 0 {
        assert(p % 0x1_0000_0000_0000_0000 == p);
    } else {
        assert(p % 0x1_0000_0000_0000_0000 == p + 0x1_0000_0000_0000_0000);
    }
}

/// The binary rule on integer arithmetic keeps the value.
proof fn lemma_arith_keeps(op: BinOp, l: Expr, r: Expr, a: CVal, b: CVal, env: Map<Seq<char>, CVal>)
    requires
        op == BinOp::Add || op == BinOp::Sub || op == BinOp::Mul || op == BinOp::Div,
        plain_expr(l),
        plain_expr(r),
        plain_const(a),
        plain_const(b),
        bin_ok(op, l, r),
        eval(l, env) == Outcome::Value(a),
        eval(r, env) == Outcome::Value(b),
        expr_eq(l, r) ==> l == r,
        eval_bin(op, a, b) is Value,
    ensures
        eval(simp_bin(op, l, r), env) == eval_bin(op, a, b),
{
    let li = const_i64(l);
    let ri = const_i64(r);
    assert(const_u64(l) is None && const_u64(r) is None);
    assert(const_str(l) is None && const_str(r) is None);
    if li is Some {
        assert(a == CVal::I64(li->0));
    }
    if ri is Some {
        assert(b == CVal::I64(ri->0));
    }
    let x = a->I64_0;
    let y = b->I64_0;
    assert(a is I64 && b is I64);
    lemma_crop_fits(x as int);
    lemma_crop_fits(y as int);
    lemma_crop_fits(0);
    if li is Some && ri is Some && op == BinOp::Mul {
        lemma_crop_fits(x * y);
    }
    assert(x * 1 == x && 1 * y == y && x * 0 == 0 && 0 * y == 0);
    assert(abs_int(x as int) / 1 == abs_int(x as int)) by (nonlinear_arith);
    assert(trunc_div(x as int, 1) == x);
}

/// The binary rule on comparisons keeps the value.
proof fn lemma_compare_keeps(op: BinOp, l: Expr, r: Expr, a: CVal, b: CVal, env: Map<Seq<char>, CVal>)
    requires
        op == BinOp::Eq || op == BinOp::Ne || op == BinOp::Lt || op == BinOp::Le || op == BinOp::Gt || op
            == BinOp::Ge,
        plain_expr(l),
        plain_expr(r),
        plain_const(a),
        plain_const(b),
        eval(l, env) == Outcome::Value(a),
        eval(r, env) == Outcome::Value(b),
        eval_bin(op, a, b) is Value,
    ensures
        eval(simp_bin(op, l, r), env) == eval_bin(op, a, b),
{
    let li = const_i64(l);
    let ri = const_i64(r);
    assert(const_u64(l) is None && const_u64(r) is None);
    assert(const_str(l) is None && const_str(r) is None);
    if li is Some {
        assert(a == CVal::I64(li->0));
    }
    if ri is Some {
        assert(b == CVal::I64(ri->0));
    }
    if const_of(l) is Some {
        assert(a == const_of(l)->0);
    }
    if const_of(r) is Some {
        assert(b == const_of(r)->0);
    }
}

/// The binary rule on the other operations keeps the value.
proof fn lemma_other_keeps(op: BinOp, l: Expr, r: Expr, a: CVal, b: CVal, env: Map<Seq<char>, CVal>)
    requires
        op == BinOp::BitAnd || op == BinOp::BitOr || op == BinOp::Mod || op == BinOp::Shl || op == BinOp::Shr
            || op == BinOp::StrConcat || op == BinOp::StrLexLt || op == BinOp::StrLexLe,
        plain_expr(l),
        plain_expr(r),
        plain_const(a),
        plain_const(b),
        eval(l, env) == Outcome::Value(a),
        eval(r, env) == Outcome::Value(b),
        expr_eq(l, r) ==> l == r,
        eval_bin(op, a, b) is Value,
    ensures
        eval(simp_bin(op, l, r), env) == eval_bin(op, a, b),
{
    assert(const_u64(l) is None && const_u64(r) is None);
    assert(const_str(l) is None && const_str(r) is None);
    if a is I64 {
        let x = a->I64_0;
        assert(x & x == x) by (bit_vector);
        assert(x | x == x) by (bit_vector);
    }
}

/// The binary rule keeps the value of an operation that has one.
proof fn lemma_bin_keeps(op: BinOp, l: Expr, r: Expr, env: Map<Seq<char>, CVal>)
    requires
        op != BinOp::BitXor,
        plain_expr(l),
        plain_expr(r),
        plain_env(env),
        bin_ok(op, l, r),
        eval(l, env) is Value,
        eval(r, env) is Value,
        eval_bin(op, eval(l, env)->Value_0, eval(r, env)->Value_0) is Value,
    ensures
        eval(simp_bin(op, l, r), env) == eval_bin(op, eval(l, env)->Value_0, eval(r, env)->Value_0),
{
    lemma_eval_plain(l, env);
    lemma_eval_plain(r, env);
    if expr_eq(l, r) {
        lemma_plain_expr_eq(l, r);
    }
    let a = eval(l, env)->Value_0;
    let b = eval(r, env)->Value_0;
    if op == BinOp::Add || op == BinOp::Sub || op == BinOp::Mul || op == BinOp::Div {
        lemma_arith_keeps(op, l, r, a, b, env);
    } else if op == BinOp::Eq || op == BinOp::Ne || op == BinOp::Lt || op == BinOp::Le || op == BinOp::Gt
        || op == BinOp::Ge {
        lemma_compare_keeps(op, l, r, a, b, env);
    } else {
        lemma_other_keeps(op, l, r, a, b, env);
    }
}

/// Simplification keeps the value of a plain expression: under an
/// assignment of integers and booleans, an expression whose constants are
/// integers and booleans, with no `^` and whose folding does not overflow,
/// evaluates after simplification to the value it had before, when it had
/// one. (With `^`, `x ^ x` folds to an unsigned zero whatever the kind of
/// `x`.)
pub proof fn lemma_simplify_keeps_value(e: Expr, env: Map<Seq<char>, CVal>)
    requires
        plain_expr(e),
        plain_env(env),
        simp_ok(e),
        eval(e, env) is Value,
    ensures
        eval(simp(e), env) == eval(e, env),
        vars_of(simp(e)).subset_of(vars_of(e)),
    decreases e,
{
    lemma_simp_vars(e);
    match e {
        Expr::Var(_) | Expr::Const(_) => {},
        Expr::Un(op, x) => {
            lemma_simplify_keeps_value(*x, env);
            lemma_simp_plain(*x);
            lemma_un_keeps(op, simp(*x), env);
        },
        Expr::Bin(op, l, r) => {
            lemma_simplify_keeps_value(*l, env);
            lemma_simplify_keeps_value(*r, env);
            lemma_simp_plain(*l);
            lemma_simp_plain(*r);
            lemma_bin_keeps(op, simp(*l), simp(*r), env);
        },
        Expr::Cond(c, t, f) => {
            lemma_simplify_keeps_value(*c, env);
            lemma_simp_plain(*t);
            lemma_simp_plain(*f);
            if eval(*c, env) == Outcome::Value(CVal::Bool(true)) {
                lemma_simplify_keeps_value(*t, env);
            } else {
                lemma_simplify_keeps_value(*f, env);
            }
            if expr_eq(simp(*t), simp(*f)) {
                lemma_plain_expr_eq(simp(*t), simp(*f));
            }
        },
        Expr::Substr(a, b, c) | Expr::Replace(a, b, c) | Expr::ReplaceAll(a, b, c) | Expr::IndexOf(a, b, c) => {
            lemma_eval_plain(*a, env);
            lemma_eval_plain(*b, env);
            lemma_eval_plain(*c, env);
        },
        Expr::Contains(a, b) | Expr::PrefixOf(a, b) | Expr::SuffixOf(a, b) | Expr::At(a, b) => {
            lemma_eval_plain(*a, env);
            lemma_eval_plain(*b, env);
        },
    }
}

/// Bit `i` of `x`.
pub open spec fn bit(x: u64, i: u64) -> bool {
    (x >> i) & 1u64 == 1u64
}

/// Bitwise operations on two unsigned 64-bit constants simplify to a
/// constant with the value the operation has: each bit of the result is the
/// `and`, `or` or `xor` of the bits of the operands.
pub proof fn lemma_simplify_u64_bitwise(op: BinOp, a: u64, b: u64, env: Map<Seq<char>, CVal>)
    requires
        op == BinOp::BitAnd || op == BinOp::BitOr || op == BinOp::BitXor,
    ensures
        ({
            let e = Expr::Bin(op, Box::new(Expr::Const(CVal::U64(a))), Box::new(Expr::Const(CVal::U64(b))));
            &&& eval(simp(e), env) == eval(e, env)
            &&& simp(e) matches Expr::Const(CVal::U64(v)) && forall|i: u64|
                i < 64 ==> #[trigger] bit(v, i) == if op == BinOp::BitAnd {
                    bit(a, i) && bit(b, i)
                } else if op == BinOp::BitOr {
                    bit(a, i) || bit(b, i)
                } else {
                    bit(a, i) != bit(b, i)
                }
        }),
{
    let e = Expr::Bin(op, Box::new(Expr::Const(CVal::U64(a))), Box::new(Expr::Const(CVal::U64(b))));
    assert(simp(e) == simp_bin(op, Expr::Const(CVal::U64(a)), Expr::Const(CVal::U64(b)))) by {
        reveal_with_fuel(simp, 2);
    }
    assert(eval(e, env) == eval_bin(op, CVal::U64(a), CVal::U64(b))) by {
        reveal_with_fuel(eval, 2);
    }
    assert forall|i: u64| i < 64 implies bit(a & b, i) == (bit(a, i) && bit(b, i)) && bit(a | b, i) == (bit(
        a,
        i,
    ) || bit(b, i)) && bit(a ^ b, i) == (bit(a, i) != bit(b, i)) by {
        assert(((a & b) >> i) & 1u64 == 1u64 <==> ((a >> i) & 1u64 == 1u64 && (b >> i) & 1u64 == 1u64))
            by (bit_vector)
            requires
                i < 64,
        ;
        assert(((a | b) >> i) & 1u64 == 1u64 <==> ((a >> i) & 1u64 == 1u64 || (b >> i) & 1u64 == 1u64))
            by (bit_vector)
            requires
                i < 64,
        ;
        assert(((a ^ b) >> i) & 1u64 == 1u64 <==> ((a >> i) & 1u64 == 1u64) != ((b >> i) & 1u64 == 1u64))
            by (bit_vector)
            requires
                i < 64,
        ;
    }
}

} // verus!
