//! Checks of expressions before they reach the solver: size limits, constant
//! arguments of string operations, and ASCII-only string constants.
use vstd::prelude::*;
use crate::error::{ErrorV, SymExError, SymExResult};
use crate::expressions::{depth_of, lemma_depth_le_nodes, nodes_of, type_name_of, BinOp, CVal, ConstValue, Expr, SymExpr, UnOp};
use crate::fmt::{decimal_int, decimal_nat, push_decimal, push_decimal_signed};
use crate::text::{chars_of, push_text, string_from_chars};

verus! {

/// Deepest expression accepted.
pub const MAX_DEPTH: usize = 100;

/// Largest expression accepted, in nodes.
pub const MAX_NODES: usize = 10000;

/// The first error of two checks done in order.
pub open spec fn first_error(a: Option<ErrorV>, b: Option<ErrorV>) -> Option<ErrorV> {
    if a is Some {
        a
    } else {
        b
    }
}

/// A negative integer constant, if the expression is one.
pub open spec fn negative_constant(e: Expr) -> Option<int> {
    match e {
        Expr::Const(CVal::I64(n)) => if n < 0 {
            Some(n as int)
        } else {
            None
        },
        Expr::Const(CVal::I32(n)) => if n < 0 {
            Some(n as int)
        } else {
            None
        },
        _ => None,
    }
}

/// Message for a negative constant argument.
pub open spec fn negative_message(what: Seq<char>, n: int) -> Seq<char> {
    what + decimal_int(n) + " must be non-negative"@
}

/// Error for a negative constant argument, if `e` is one.
pub open spec fn negative_argument(e: Expr, what: Seq<char>) -> Option<ErrorV> {
    match negative_constant(e) {
        Some(n) => Some(ErrorV::InvalidStringOperation(negative_message(what, n))),
        None => None,
    }
}

/// Error for an empty constant pattern, if `e` is one.
pub open spec fn empty_pattern(e: Expr) -> Option<ErrorV> {
    match e {
        Expr::Const(CVal::Str(s)) => if s.len() == 0 {
            Some(ErrorV::EmptyPatternError)
        } else {
            None
        },
        _ => None,
    }
}

/// Error for a constant that is not a string where a string operand is
/// expected, if `e` is one.
pub open spec fn non_string_operand(e: Expr) -> Option<ErrorV> {
    match e {
        Expr::Const(CVal::Str(_)) => None,
        Expr::Const(c) => Some(ErrorV::TypeMismatch { expected: "string"@, found: type_name_of(c) }),
        _ => None,
    }
}

/// The binary operations on strings.
pub open spec fn string_binop(op: BinOp) -> bool {
    op == BinOp::StrConcat || op == BinOp::StrLexLt || op == BinOp::StrLexLe
}

/// The first problem of an expression's string operations: a depth over
/// 100 or more than 10000 nodes, then, depth-first and in argument order, a
/// constant that is not a string where a string operand is expected, a
/// negative constant start, length, index or offset, or an empty constant
/// replace pattern.
pub open spec fn string_operations_error(e: Expr) -> Option<ErrorV>
    decreases e,
{
    if depth_of(e) > 100 {
        Some(
            ErrorV::ResourceExhaustion(
                "Expression depth "@ + decimal_nat(depth_of(e) as nat) + " exceeds maximum limit 100"@,
            ),
        )
    } else if nodes_of(e) > 10000 {
        Some(
            ErrorV::ResourceExhaustion(
                "Expression complexity "@ + decimal_nat(nodes_of(e) as nat)
                    + " nodes exceeds maximum limit 10000"@,
            ),
        )
    } else {
        match e {
            Expr::Var(_) | Expr::Const(_) => None,
            Expr::Un(op, a) => first_error(
                string_operations_error(*a),
                if op == UnOp::StrLen {
                    non_string_operand(*a)
                } else {
                    None
                },
            ),
            Expr::Bin(op, a, b) => first_error(
                string_operations_error(*a),
                first_error(
                    string_operations_error(*b),
                    if string_binop(op) {
                        first_error(non_string_operand(*a), non_string_operand(*b))
                    } else {
                        None
                    },
                ),
            ),
            Expr::Contains(a, b) | Expr::PrefixOf(a, b) | Expr::SuffixOf(a, b) => first_error(
                string_operations_error(*a),
                first_error(
                    string_operations_error(*b),
                    first_error(non_string_operand(*a), non_string_operand(*b)),
                ),
            ),
            Expr::Cond(a, b, c) => first_error(
                string_operations_error(*a),
                first_error(string_operations_error(*b), string_operations_error(*c)),
            ),
            Expr::Substr(a, b, c) => first_error(
                string_operations_error(*a),
                first_error(
                    string_operations_error(*b),
                    first_error(
                        string_operations_error(*c),
                        first_error(
                            non_string_operand(*a),
                            first_error(
                                negative_argument(*b, "Substring start index "@),
                                negative_argument(*c, "Substring length "@),
                            ),
                        ),
                    ),
                ),
            ),
            Expr::Replace(a, b, c) | Expr::ReplaceAll(a, b, c) => first_error(
                string_operations_error(*a),
                first_error(
                    string_operations_error(*b),
                    first_error(
                        string_operations_error(*c),
                        first_error(
                            non_string_operand(*a),
                            first_error(
                                non_string_operand(*b),
                                first_error(non_string_operand(*c), empty_pattern(*b)),
                            ),
                        ),
                    ),
                ),
            ),
            Expr::At(a, b) => first_error(
                string_operations_error(*a),
                first_error(
                    string_operations_error(*b),
                    first_error(non_string_operand(*a), negative_argument(*b, "Character index "@)),
                ),
            ),
            Expr::IndexOf(a, b, c) => first_error(
                string_operations_error(*a),
                first_error(
                    string_operations_error(*b),
                    first_error(
                        string_operations_error(*c),
                        first_error(
                            non_string_operand(*a),
                            first_error(non_string_operand(*b), negative_argument(*c, "Index offset "@)),
                        ),
                    ),
                ),
            ),
        }
    }
}

/// Position of the first non-ASCII character of `s` from `k`, if any.
pub open spec fn first_non_ascii(s: Seq<char>, k: int) -> Option<int>
    decreases s.len() - k,
{
    if k < 0 || k >= s.len() {
        None
    } else if (s[k] as u32) >= 128 {
        Some(k)
    } else {
        first_non_ascii(s, k + 1)
    }
}

/// The first non-ASCII character of the string constants of an expression,
/// depth-first and in argument order, with its position in its string.
pub open spec fn ascii_error(e: Expr) -> Option<ErrorV>
    decreases e,
{
    match e {
        Expr::Const(CVal::Str(s)) => match first_non_ascii(s, 0) {
            Some(k) => Some(ErrorV::NonAsciiCharacter { character: s[k], position: k as usize }),
            None => None,
        },
        Expr::Var(_) | Expr::Const(_) => None,
        Expr::Un(_, a) => ascii_error(*a),
        Expr::Bin(_, a, b) | Expr::Contains(a, b) | Expr::PrefixOf(a, b) | Expr::SuffixOf(a, b)
        | Expr::At(a, b) => first_error(ascii_error(*a), ascii_error(*b)),
        Expr::Cond(a, b, c) | Expr::Substr(a, b, c) | Expr::Replace(a, b, c) | Expr::ReplaceAll(
            a,
            b,
            c,
        ) | Expr::IndexOf(a, b, c) => first_error(
            ascii_error(*a),
            first_error(ascii_error(*b), ascii_error(*c)),
        ),
    }
}

/// The result of a check given the first error it finds.
pub open spec fn check_result(r: SymExResult<()>, err: Option<ErrorV>) -> bool {
    match r {
        Ok(_) => err is None,
        Err(e) => err == Some(e@),
    }
}

fn negative_error(what: &str, n: i64) -> (r: SymExError)
    ensures
        r@ == ErrorV::InvalidStringOperation(negative_message(what@, n as int)),
{
    let mut out: Vec<char> = Vec::new();
    push_text(&mut out, what);
    push_decimal_signed(&mut out, n);
    push_text(&mut out, " must be non-negative");
    assert(out@ =~= negative_message(what@, n as int));
    SymExError::InvalidStringOperation(string_from_chars(&out))
}

fn check_negative(e: &SymExpr, what: &str) -> (r: SymExResult<()>)
    ensures
        check_result(r, negative_argument(e@, what@)),
{
    match e {
        SymExpr::Constant(ConstValue::I64(n)) => {
            if *n < 0 {
                return Err(negative_error(what, *n));
            }
        },
        SymExpr::Constant(ConstValue::I32(n)) => {
            if *n < 0 {
                return Err(negative_error(what, *n as i64));
            }
        },
        _ => {},
    }
    Ok(())
}

fn check_string_operand(e: &SymExpr) -> (r: SymExResult<()>)
    ensures
        check_result(r, non_string_operand(e@)),
{
    match e {
        SymExpr::Constant(ConstValue::String(_)) => Ok(()),
        SymExpr::Constant(c) => {
            let found = string_from_chars(&chars_of(c.type_label()));
            Err(SymExError::TypeMismatch { expected: string_from_chars(&chars_of("string")), found })
        },
        _ => Ok(()),
    }
}

fn check_pattern(e: &SymExpr) -> (r: SymExResult<()>)
    ensures
        check_result(r, empty_pattern(e@)),
{
    match e {
        SymExpr::Constant(ConstValue::String(s)) => {
            if s.as_str().is_empty() {
                return Err(SymExError::EmptyPatternError);
            }
        },
        _ => {},
    }
    Ok(())
}

fn size_error(prefix: &str, n: usize, suffix: &str) -> (r: SymExError)
    ensures
        r@ == ErrorV::ResourceExhaustion(prefix@ + decimal_nat(n as nat) + suffix@),
{
    let mut out: Vec<char> = Vec::new();
    push_text(&mut out, prefix);
    push_decimal(&mut out, n as u64);
    push_text(&mut out, suffix);
    assert(out@ =~= prefix@ + decimal_nat(n as nat) + suffix@);
    SymExError::ResourceExhaustion(string_from_chars(&out))
}

/// Every direct sub-expression has at least one node.
pub proof fn lemma_children_have_nodes(e: Expr)
    ensures
        match e {
            Expr::Var(_) | Expr::Const(_) => true,
            Expr::Un(_, a) => nodes_of(*a) >= 1,
            Expr::Bin(_, a, b) | Expr::Contains(a, b) | Expr::PrefixOf(a, b) | Expr::SuffixOf(a, b)
            | Expr::At(a, b) => nodes_of(*a) >= 1 && nodes_of(*b) >= 1,
            Expr::Cond(a, b, c) | Expr::Substr(a, b, c) | Expr::Replace(a, b, c) | Expr::ReplaceAll(
                a,
                b,
                c,
            ) | Expr::IndexOf(a, b, c) => nodes_of(*a) >= 1 && nodes_of(*b) >= 1 && nodes_of(*c) >= 1,
        },
{
    match e {
        Expr::Var(_) | Expr::Const(_) => {},
        Expr::Un(_, a) => lemma_depth_le_nodes(*a),
        Expr::Bin(_, a, b) | Expr::Contains(a, b) | Expr::PrefixOf(a, b) | Expr::SuffixOf(a, b)
        | Expr::At(a, b) => {
            lemma_depth_le_nodes(*a);
            lemma_depth_le_nodes(*b);
        },
        Expr::Cond(a, b, c) | Expr::Substr(a, b, c) | Expr::Replace(a, b, c) | Expr::ReplaceAll(
            a,
            b,
            c,
        ) | Expr::IndexOf(a, b, c) => {
            lemma_depth_le_nodes(*a);
            lemma_depth_le_nodes(*b);
            lemma_depth_le_nodes(*c);
        },
    }
}

impl SymExpr {
    /// Checks the string operations of the expression: the expression is at
    /// most 100 deep and has at most 10000 nodes, a constant where a string
    /// operand is expected is a string, constant start, length, index and
    /// offset arguments are non-negative, and constant replace patterns are
    /// not empty. The first problem found is the error.
    pub fn validate_string_operations(&self) -> (r: SymExResult<()>)
        requires
            nodes_of(self@) <= usize::MAX,
        ensures
            check_result(r, string_operations_error(self@)),
        decreases self,
    {
        proof {
            lemma_depth_le_nodes(self@);
            lemma_children_have_nodes(self@);
        }
        let depth = self.depth();
        if depth > MAX_DEPTH {
            return Err(size_error("Expression depth ", depth, " exceeds maximum limit 100"));
        }
        let nodes = self.node_count();
        if nodes > MAX_NODES {
            return Err(
                size_error("Expression complexity ", nodes, " nodes exceeds maximum limit 10000"),
            );
        }
        match self {
            SymExpr::Variable(_) | SymExpr::Constant(_) => Ok(()),
            SymExpr::UnaryOp(op, a) => {
                a.validate_string_operations()?;
                if *op == UnOp::StrLen {
                    check_string_operand(a)
                } else {
                    Ok(())
                }
            },
            SymExpr::BinaryOp(op, a, b) => {
                a.validate_string_operations()?;
                b.validate_string_operations()?;
                if *op == BinOp::StrConcat || *op == BinOp::StrLexLt || *op == BinOp::StrLexLe {
                    check_string_operand(a)?;
                    check_string_operand(b)
                } else {
                    Ok(())
                }
            },
            SymExpr::StrContains(a, b) => {
                a.validate_string_operations()?;
                b.validate_string_operations()?;
                check_string_operand(a)?;
                check_string_operand(b)
            },
            SymExpr::StrPrefixOf(a, b) => {
                a.validate_string_operations()?;
                b.validate_string_operations()?;
                check_string_operand(a)?;
                check_string_operand(b)
            },
            SymExpr::StrSuffixOf(a, b) => {
                a.validate_string_operations()?;
                b.validate_string_operations()?;
                check_string_operand(a)?;
                check_string_operand(b)
            },
            SymExpr::Conditional(a, b, c) => {
                a.validate_string_operations()?;
                b.validate_string_operations()?;
                c.validate_string_operations()
            },
            SymExpr::StrSubstring(a, b, c) => {
                a.validate_string_operations()?;
                b.validate_string_operations()?;
                c.validate_string_operations()?;
                check_string_operand(a)?;
                check_negative(b, "Substring start index ")?;
                check_negative(c, "Substring length ")
            },
            SymExpr::StrReplace(a, b, c) => {
                a.validate_string_operations()?;
                b.validate_string_operations()?;
                c.validate_string_operations()?;
                check_string_operand(a)?;
                check_string_operand(b)?;
                check_string_operand(c)?;
                check_pattern(b)
            },
            SymExpr::StrReplaceAll(a, b, c) => {
                a.validate_string_operations()?;
                b.validate_string_operations()?;
                c.validate_string_operations()?;
                check_string_operand(a)?;
                check_string_operand(b)?;
                check_string_operand(c)?;
                check_pattern(b)
            },
            SymExpr::StrAt(a, b) => {
                a.validate_string_operations()?;
                b.validate_string_operations()?;
                check_string_operand(a)?;
                check_negative(b, "Character index ")
            },
            SymExpr::StrIndexOf(a, b, c) => {
                a.validate_string_operations()?;
                b.validate_string_operations()?;
                c.validate_string_operations()?;
                check_string_operand(a)?;
                check_string_operand(b)?;
                check_negative(c, "Index offset ")
            },
        }
    }

    /// Checks that every string constant of the expression is ASCII; the
    /// error names the first other character and its position.
    pub fn validate_ascii(&self) -> (r: SymExResult<()>)
        ensures
            check_result(r, ascii_error(self@)),
        decreases self,
    {
        match self {
            SymExpr::Constant(ConstValue::String(s)) => {
                let cs = chars_of(s.as_str());
                let mut k: usize = 0;
                while k < cs.len()
                    invariant
                        k <= cs@.len(),
                        cs@ == s@,
                        self@ == Expr::Const(CVal::Str(s@)),
                        first_non_ascii(s@, 0) == first_non_ascii(s@, k as int),
                    decreases cs@.len() - k,
                {
                    if (cs[k] as u32) >= 128 {
                        assert(first_non_ascii(s@, k as int) == Some(k as int));
                        assert(cs@[k as int] == s@[k as int]);
                        return Err(SymExError::NonAsciiCharacter { character: cs[k], position: k });
                    }
                    k = k + 1;
                }
                Ok(())
            },
            SymExpr::Variable(_) | SymExpr::Constant(_) => Ok(()),
            SymExpr::UnaryOp(_, a) => a.validate_ascii(),
            SymExpr::BinaryOp(_, a, b) | SymExpr::StrContains(a, b) | SymExpr::StrPrefixOf(a, b)
            | SymExpr::StrSuffixOf(a, b) | SymExpr::StrAt(a, b) => {
                a.validate_ascii()?;
                b.validate_ascii()
            },
            SymExpr::Conditional(a, b, c) | SymExpr::StrSubstring(a, b, c) | SymExpr::StrReplace(
                a,
                b,
                c,
            ) | SymExpr::StrReplaceAll(a, b, c) | SymExpr::StrIndexOf(a, b, c) => {
                a.validate_ascii()?;
                b.validate_ascii()?;
                c.validate_ascii()
            },
        }
    }
}

} // verus!
