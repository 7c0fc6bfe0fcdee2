//! SMT-LIB rendering of constants and expressions, the variables of an
//! expression, their declarations and a complete script.
//!
//! Finite floating-point constants are rendered by the caller's float
//! formatting and are outside what these functions take; NaN and the
//! infinities have fixed SMT-LIB spellings and are rendered here.
use vstd::prelude::*;
use crate::expressions::{binop_smt, unop_smt, BinOp, CVal, ConstValue, Expr, SymExpr};
use crate::floatbits::{f32_class, f32_is_inf, f32_is_nan, f32_sign, f64_class, f64_is_inf, f64_is_nan, f64_sign};
use crate::fmt::{decimal_int, decimal_nat, push_decimal, push_decimal_signed};
use crate::text::{
    insert_sorted_unique, occurs_at, push_chars, push_text, seq_contains_sub, str_lt, string_from_chars,
    strictly_sorted, views_of,
};

verus! {

/// A finite float constant.
pub open spec fn finite_float(c: CVal) -> bool {
    match c {
        CVal::F64(b) => !f64_is_nan(b) && !f64_is_inf(b),
        CVal::F32(b) => !f32_is_nan(b) && !f32_is_inf(b),
        _ => false,
    }
}

/// No constant of the expression is a finite float.
pub open spec fn no_finite_floats(e: Expr) -> bool
    decreases e,
{
    match e {
        Expr::Var(_) => true,
        Expr::Const(c) => !finite_float(c),
        Expr::Bin(_, a, b) | Expr::Contains(a, b) | Expr::PrefixOf(a, b) | Expr::SuffixOf(a, b)
        | Expr::At(a, b) => no_finite_floats(*a) && no_finite_floats(*b),
        Expr::Un(_, a) => no_finite_floats(*a),
        Expr::Cond(a, b, c) | Expr::Substr(a, b, c) | Expr::Replace(a, b, c) | Expr::ReplaceAll(
            a,
            b,
            c,
        ) | Expr::IndexOf(a, b, c) => no_finite_floats(*a) && no_finite_floats(*b) && no_finite_floats(
            *c,
        ),
    }
}

/// A character inside an SMT-LIB string literal: backslash and double quote
/// are escaped with a backslash.
pub open spec fn escape_char(c: char) -> Seq<char> {
    if c == '\\' {
        seq!['\\', '\\']
    } else if c == '"' {
        seq!['\\', '"']
    } else {
        seq![c]
    }
}

/// The characters of a string inside an SMT-LIB string literal.
pub open spec fn escape_smt(s: Seq<char>) -> Seq<char>
    decreases s.len(),
{
    if s.len() == 0 {
        seq![]
    } else {
        escape_smt(s.drop_last()) + escape_char(s.last())
    }
}

/// SMT-LIB rendering of a constant (finite floats excluded).
pub open spec fn cval_smt(c: CVal) -> Seq<char> {
    match c {
        CVal::U64(v) => decimal_nat(v as nat),
        CVal::I64(v) => decimal_int(v as int),
        CVal::U8(v) => decimal_nat(v as nat),
        CVal::U32(v) => decimal_nat(v as nat),
        CVal::I32(v) => decimal_int(v as int),
        CVal::Bool(b) => if b {
            "true"@
        } else {
            "false"@
        },
        CVal::F64(b) => if f64_is_nan(b) {
            "(_ NaN 11 53)"@
        } else if !f64_sign(b) {
            "(_ +oo 11 53)"@
        } else {
            "(_ -oo 11 53)"@
        },
        CVal::F32(b) => if f32_is_nan(b) {
            "(_ NaN 8 24)"@
        } else if !f32_sign(b) {
            "(_ +oo 8 24)"@
        } else {
            "(_ -oo 8 24)"@
        },
        CVal::Str(s) => seq!['"'] + escape_smt(s) + seq!['"'],
    }
}

/// `(head a b)`.
pub open spec fn app2(head: Seq<char>, a: Seq<char>, b: Seq<char>) -> Seq<char> {
    seq!['('] + head + seq![' '] + a + seq![' '] + b + seq![')']
}

/// `(head a b c)`.
pub open spec fn app3(head: Seq<char>, a: Seq<char>, b: Seq<char>, c: Seq<char>) -> Seq<char> {
    seq!['('] + head + seq![' '] + a + seq![' '] + b + seq![' '] + c + seq![')']
}

/// SMT-LIB rendering of an expression.
pub open spec fn smt_of(e: Expr) -> Seq<char>
    decreases e,
{
    match e {
        Expr::Var(n) => n,
        Expr::Const(c) => cval_smt(c),
        Expr::Bin(op, a, b) => app2(binop_smt(op), smt_of(*a), smt_of(*b)),
        Expr::Un(op, a) => seq!['('] + unop_smt(op) + seq![' '] + smt_of(*a) + seq![')'],
        Expr::Cond(a, b, c) => app3("ite"@, smt_of(*a), smt_of(*b), smt_of(*c)),
        Expr::Substr(a, b, c) => app3("str.substr"@, smt_of(*a), smt_of(*b), smt_of(*c)),
        Expr::Contains(a, b) => app2("str.contains"@, smt_of(*a), smt_of(*b)),
        Expr::PrefixOf(a, b) => app2("str.prefixof"@, smt_of(*a), smt_of(*b)),
        Expr::SuffixOf(a, b) => app2("str.suffixof"@, smt_of(*a), smt_of(*b)),
        Expr::Replace(a, b, c) => app3("str.replace"@, smt_of(*a), smt_of(*b), smt_of(*c)),
        Expr::ReplaceAll(a, b, c) => app3("str.replace_all"@, smt_of(*a), smt_of(*b), smt_of(*c)),
        Expr::At(a, b) => app2("str.at"@, smt_of(*a), smt_of(*b)),
        Expr::IndexOf(a, b, c) => app3("str.indexof"@, smt_of(*a), smt_of(*b), smt_of(*c)),
    }
}

/// The names of the variables of an expression.
pub open spec fn vars_of(e: Expr) -> Set<Seq<char>>
    decreases e,
{
    match e {
        Expr::Var(n) => set![n],
        Expr::Const(_) => Set::empty(),
        Expr::Bin(_, a, b) | Expr::Contains(a, b) | Expr::PrefixOf(a, b) | Expr::SuffixOf(a, b)
        | Expr::At(a, b) => vars_of(*a).union(vars_of(*b)),
        Expr::Un(_, a) => vars_of(*a),
        Expr::Cond(a, b, c) | Expr::Substr(a, b, c) | Expr::Replace(a, b, c) | Expr::ReplaceAll(
            a,
            b,
            c,
        ) | Expr::IndexOf(a, b, c) => vars_of(*a).union(vars_of(*b)).union(vars_of(*c)),
    }
}

/// The declaration of an integer variable.
pub open spec fn declaration(name: Seq<char>) -> Seq<char> {
    "(declare-fun "@ + name + " () Int)"@
}

/// The declarations followed by a newline each.
pub open spec fn declaration_lines(names: Seq<Seq<char>>) -> Seq<char>
    decreases names.len(),
{
    if names.len() == 0 {
        seq![]
    } else {
        declaration_lines(names.drop_last()) + declaration(names.last()) + seq!['\n']
    }
}

/// The variables of an expression in increasing order.
pub open spec fn sorted_vars(names: Seq<Seq<char>>, e: Expr) -> bool {
    strictly_sorted(names) && names.to_set() == vars_of(e)
}

/// An SMT-LIB script asserting an expression over the integer variables
/// `names`.
pub open spec fn smt_script(names: Seq<Seq<char>>, e: Expr) -> Seq<char> {
    "(set-logic QF_LIA)\n"@ + declaration_lines(names) + "(assert "@ + smt_of(e) + ")\n"@
        + "(check-sat)\n"@ + "(get-model)\n"@
}

fn push_escaped(out: &mut Vec<char>, s: &[char])
    ensures
        final(out)@ == old(out)@ + escape_smt(s@),
{
    let ghost start = out@;
    let mut i: usize = 0;
    while i < s.len()
        invariant
            i <= s@.len(),
            out@ == start + escape_smt(s@.take(i as int)),
        decreases s@.len() - i,
    {
        let c = s[i];
        if c == '\\' {
            out.push('\\');
            out.push('\\');
        } else if c == '"' {
            out.push('\\');
            out.push('"');
        } else {
            out.push(c);
        }
        assert(s@.take(i + 1).drop_last() == s@.take(i as int));
        assert(out@ =~= start + escape_smt(s@.take(i + 1)));
        i = i + 1;
    }
    assert(s@.take(s@.len() as int) == s@);
}

impl ConstValue {
    /// Appends the SMT-LIB rendering of a constant that is not a finite
    /// float.
    pub fn push_smt_lib(&self, out: &mut Vec<char>)
        requires
            !finite_float(self@),
        ensures
            final(out)@ == old(out)@ + cval_smt(self@),
    {
        match self {
            ConstValue::U64(v) => push_decimal(out, *v),
            ConstValue::I64(v) => push_decimal_signed(out, *v),
            ConstValue::U8(v) => push_decimal(out, *v as u64),
            ConstValue::U32(v) => push_decimal(out, *v as u64),
            ConstValue::I32(v) => push_decimal_signed(out, *v as i64),
            ConstValue::Bool(b) => {
                if *b {
                    push_text(out, "true");
                } else {
                    push_text(out, "false");
                }
            },
            ConstValue::F64(b) => {
                let (nan, _, neg, _) = f64_class(*b);
                if nan {
                    push_text(out, "(_ NaN 11 53)");
                } else if !neg {
                    push_text(out, "(_ +oo 11 53)");
                } else {
                    push_text(out, "(_ -oo 11 53)");
                }
            },
            ConstValue::F32(b) => {
                let (nan, _, neg, _) = f32_class(*b);
                if nan {
                    push_text(out, "(_ NaN 8 24)");
                } else if !neg {
                    push_text(out, "(_ +oo 8 24)");
                } else {
                    push_text(out, "(_ -oo 8 24)");
                }
            },
            ConstValue::String(s) => {
                let cs = crate::text::chars_of(s.as_str());
                out.push('"');
                push_escaped(out, &cs);
                out.push('"');
                assert(final(out)@ =~= old(out)@ + cval_smt(self@));
            },
        }
    }

    /// SMT-LIB rendering of a constant that is not a finite float: decimal
    /// integers, `true`/`false`, the NaN and infinity literals of the float
    /// sorts, and quoted strings with `\` and `"` escaped.
    pub fn to_smt_lib(&self) -> (r: String)
        requires
            !finite_float(self@),
        ensures
            r@ == cval_smt(self@),
    {
        let mut out: Vec<char> = Vec::new();
        self.push_smt_lib(&mut out);
        assert(out@ =~= cval_smt(self@));
        string_from_chars(&out)
    }
}

impl SymExpr {
    /// Appends the SMT-LIB rendering of the expression.
    #[verifier::rlimit(40)]
    pub fn push_smt_lib(&self, out: &mut Vec<char>)
        requires
            no_finite_floats(self@),
        ensures
            final(out)@ == old(out)@ + smt_of(self@),
        decreases self,
    {
        let ghost start = out@;
        match self {
            SymExpr::Variable(name) => {
                push_text(out, name.as_str());
                assert(out@ =~= start + smt_of(self@));
            },
            SymExpr::Constant(c) => {
                c.push_smt_lib(out);
                assert(out@ =~= start + smt_of(self@));
            },
            SymExpr::BinaryOp(op, a, b) => {
                out.push('(');
                push_text(out, op.to_smt_lib());
                out.push(' ');
                a.push_smt_lib(out);
                out.push(' ');
                b.push_smt_lib(out);
                out.push(')');
                assert(out@ =~= start + smt_of(self@));
            },
            SymExpr::UnaryOp(op, a) => {
                out.push('(');
                push_text(out, op.to_smt_lib());
                out.push(' ');
                a.push_smt_lib(out);
                out.push(')');
                assert(out@ =~= start + smt_of(self@));
            },
            SymExpr::Conditional(a, b, c) => {
                out.push('(');
                push_text(out, "ite");
                out.push(' ');
                a.push_smt_lib(out);
                out.push(' ');
                b.push_smt_lib(out);
                out.push(' ');
                c.push_smt_lib(out);
                out.push(')');
                assert(out@ =~= start + smt_of(self@));
            },
            SymExpr::StrSubstring(a, b, c) => {
                out.push('(');
                push_text(out, "str.substr");
                out.push(' ');
                a.push_smt_lib(out);
                out.push(' ');
                b.push_smt_lib(out);
                out.push(' ');
                c.push_smt_lib(out);
                out.push(')');
                assert(out@ =~= start + smt_of(self@));
            },
            SymExpr::StrContains(a, b) => {
                out.push('(');
                push_text(out, "str.contains");
                out.push(' ');
                a.push_smt_lib(out);
                out.push(' ');
                b.push_smt_lib(out);
                out.push(')');
                assert(out@ =~= start + smt_of(self@));
            },
            SymExpr::StrPrefixOf(a, b) => {
                out.push('(');
                push_text(out, "str.prefixof");
                out.push(' ');
                a.push_smt_lib(out);
                out.push(' ');
                b.push_smt_lib(out);
                out.push(')');
                assert(out@ =~= start + smt_of(self@));
            },
            SymExpr::StrSuffixOf(a, b) => {
                out.push('(');
                push_text(out, "str.suffixof");
                out.push(' ');
                a.push_smt_lib(out);
                out.push(' ');
                b.push_smt_lib(out);
                out.push(')');
                assert(out@ =~= start + smt_of(self@));
            },
            SymExpr::StrReplace(a, b, c) => {
                out.push('(');
                push_text(out, "str.replace");
                out.push(' ');
                a.push_smt_lib(out);
                out.push(' ');
                b.push_smt_lib(out);
                out.push(' ');
                c.push_smt_lib(out);
                out.push(')');
                assert(out@ =~= start + smt_of(self@));
            },
            SymExpr::StrReplaceAll(a, b, c) => {
                out.push('(');
                push_text(out, "str.replace_all");
                out.push(' ');
                a.push_smt_lib(out);
                out.push(' ');
                b.push_smt_lib(out);
                out.push(' ');
                c.push_smt_lib(out);
                out.push(')');
                assert(out@ =~= start + smt_of(self@));
            },
            SymExpr::StrAt(a, b) => {
                out.push('(');
                push_text(out, "str.at");
                out.push(' ');
                a.push_smt_lib(out);
                out.push(' ');
                b.push_smt_lib(out);
                out.push(')');
                assert(out@ =~= start + smt_of(self@));
            },
            SymExpr::StrIndexOf(a, b, c) => {
                out.push('(');
                push_text(out, "str.indexof");
                out.push(' ');
                a.push_smt_lib(out);
                out.push(' ');
                b.push_smt_lib(out);
                out.push(' ');
                c.push_smt_lib(out);
                out.push(')');
                assert(out@ =~= start + smt_of(self@));
            },
        }
    }

    /// SMT-LIB rendering of the expression: `(op a b)` for operations, `ite`
    /// for conditionals, the `str.` functions for string operations.
    pub fn to_smt_lib(&self) -> (r: String)
        requires
            no_finite_floats(self@),
        ensures
            r@ == smt_of(self@),
    {
        let mut out: Vec<char> = Vec::new();
        self.push_smt_lib(&mut out);
        assert(out@ =~= smt_of(self@));
        string_from_chars(&out)
    }

    /// Adds the variables of the expression to a strictly sorted list of
    /// names.
    pub fn collect_variables(&self, vars: &mut Vec<String>)
        requires
            strictly_sorted(views_of(old(vars)@)),
        ensures
            strictly_sorted(views_of(final(vars)@)),
            views_of(final(vars)@).to_set() == views_of(old(vars)@).to_set().union(vars_of(self@)),
        decreases self,
    {
        let ghost start = views_of(vars@).to_set();
        match self {
            SymExpr::Variable(name) => {
                insert_sorted_unique(vars, name.clone());
                assert(views_of(vars@).to_set() =~= start.union(vars_of(self@)));
            },
            SymExpr::Constant(_) => {
                assert(views_of(vars@).to_set() =~= start.union(vars_of(self@)));
            },
            SymExpr::UnaryOp(_, a) => {
                a.collect_variables(vars);
            },
            SymExpr::BinaryOp(_, a, b) | SymExpr::StrContains(a, b) | SymExpr::StrPrefixOf(a, b)
            | SymExpr::StrSuffixOf(a, b) | SymExpr::StrAt(a, b) => {
                a.collect_variables(vars);
                b.collect_variables(vars);
                assert(views_of(vars@).to_set() =~= start.union(vars_of(self@)));
            },
            SymExpr::Conditional(a, b, c) | SymExpr::StrSubstring(a, b, c) | SymExpr::StrReplace(
                a,
                b,
                c,
            ) | SymExpr::StrReplaceAll(a, b, c) | SymExpr::StrIndexOf(a, b, c) => {
                a.collect_variables(vars);
                b.collect_variables(vars);
                c.collect_variables(vars);
                assert(views_of(vars@).to_set() =~= start.union(vars_of(self@)));
            },
        }
    }

    /// The names of the variables of the expression, sorted, each once.
    pub fn get_variables(&self) -> (r: Vec<String>)
        ensures
            sorted_vars(views_of(r@), self@),
    {
        let mut vars: Vec<String> = Vec::new();
        assert(views_of(vars@).to_set() =~= Set::empty());
        self.collect_variables(&mut vars);
        assert(views_of(vars@).to_set() =~= vars_of(self@));
        vars
    }

    /// A declaration `(declare-fun x () Int)` for each variable, in the order
    /// of [`SymExpr::get_variables`].
    pub fn get_smt_declarations(&self) -> (r: Vec<String>)
        ensures
            exists|names: Seq<Seq<char>>|
                #[trigger] sorted_vars(names, self@) && views_of(r@) == names.map_values(
                    |n: Seq<char>| declaration(n),
                ),
    {
        let vars = self.get_variables();
        let ghost names = views_of(vars@);
        let mut decls: Vec<String> = Vec::new();
        let mut i: usize = 0;
        while i < vars.len()
            invariant
                i <= vars@.len(),
                names == views_of(vars@),
                decls@.len() == i,
                views_of(decls@) == names.take(i as int).map_values(|n: Seq<char>| declaration(n)),
            decreases vars@.len() - i,
        {
            let mut out: Vec<char> = Vec::new();
            push_text(&mut out, "(declare-fun ");
            push_text(&mut out, vars[i].as_str());
            push_text(&mut out, " () Int)");
            let d = string_from_chars(&out);
            assert(names[i as int] == vars@[i as int]@);
            assert(d@ == declaration(names[i as int]));
            let ghost prev = decls@;
            decls.push(d);
            assert forall|k: int| 0 <= k < i + 1 implies #[trigger] views_of(decls@)[k] == names.take(
                i + 1,
            ).map_values(|n: Seq<char>| declaration(n))[k] by {
                if k < i {
                    assert(decls@[k] == prev[k]);
                    assert(views_of(prev)[k] == names.take(i as int).map_values(
                        |n: Seq<char>| declaration(n),
                    )[k]);
                }
            }
            assert(views_of(decls@) =~= names.take(i + 1).map_values(|n: Seq<char>| declaration(n)));
            i = i + 1;
        }
        assert(names.take(names.len() as int) == names);
        decls
    }

    /// An SMT-LIB script for the expression: the `QF_LIA` logic, a
    /// declaration per variable, the assertion, `(check-sat)` and
    /// `(get-model)`, one per line.
    pub fn to_smt_script(&self) -> (r: String)
        requires
            no_finite_floats(self@),
        ensures
            exists|names: Seq<Seq<char>>|
                #[trigger] sorted_vars(names, self@) && r@ == smt_script(names, self@),
    {
        let vars = self.get_variables();
        let ghost names = views_of(vars@);
        let mut out: Vec<char> = Vec::new();
        push_text(&mut out, "(set-logic QF_LIA)\n");
        let ghost head = out@;
        let mut i: usize = 0;
        while i < vars.len()
            invariant
                i <= vars@.len(),
                names == views_of(vars@),
                out@ == head + declaration_lines(names.take(i as int)),
            decreases vars@.len() - i,
        {
            push_text(&mut out, "(declare-fun ");
            push_text(&mut out, vars[i].as_str());
            push_text(&mut out, " () Int)");
            out.push('\n');
            assert(names.take(i + 1).drop_last() == names.take(i as int));
            assert(names[i as int] == vars@[i as int]@);
            assert(out@ =~= head + declaration_lines(names.take(i + 1)));
            i = i + 1;
        }
        assert(names.take(names.len() as int) == names);
        push_text(&mut out, "(assert ");
        self.push_smt_lib(&mut out);
        push_text(&mut out, ")\n");
        push_text(&mut out, "(check-sat)\n");
        push_text(&mut out, "(get-model)\n");
        assert(out@ =~= smt_script(names, self@));
        string_from_chars(&out)
    }
}

// ---------------------------------------------------------------------------
// Properties of the rendering
// ---------------------------------------------------------------------------

proof fn lemma_occurs_in_middle(a: Seq<char>, b: Seq<char>, c: Seq<char>, p: Seq<char>)
    requires
        seq_contains_sub(b, p),
    ensures
        seq_contains_sub(a + b + c, p),
{
    let i = choose|i: int| occurs_at(b, p, i);
    let s = a + b + c;
    assert(s.subrange(a.len() + i, a.len() + i + p.len()) =~= b.subrange(i, i + p.len()));
    assert(occurs_at(s, p, a.len() + i));
}

proof fn lemma_occurs_whole(s: Seq<char>)
    ensures
        seq_contains_sub(s, s),
{
    assert(s.subrange(0, s.len() as int) =~= s);
    assert(occurs_at(s, s, 0));
}

/// Every variable of an expression occurs in its SMT-LIB rendering.
pub proof fn lemma_variables_rendered(e: Expr, v: Seq<char>)
    requires
        vars_of(e).contains(v),
    ensures
        seq_contains_sub(smt_of(e), v),
    decreases e,
{
    match e {
        Expr::Var(n) => {
            lemma_occurs_whole(n);
        },
        Expr::Const(_) => {},
        Expr::Un(op, a) => {
            lemma_variables_rendered(*a, v);
            lemma_occurs_in_middle(seq!['('] + unop_smt(op) + seq![' '], smt_of(*a), seq![')'], v);
            assert(smt_of(e) =~= seq!['('] + unop_smt(op) + seq![' '] + smt_of(*a) + seq![')']);
        },
        Expr::Bin(_, a, b) | Expr::Contains(a, b) | Expr::PrefixOf(a, b) | Expr::SuffixOf(a, b)
        | Expr::At(a, b) => {
            let head = match e {
                Expr::Bin(op, _, _) => binop_smt(op),
                Expr::Contains(_, _) => "str.contains"@,
                Expr::PrefixOf(_, _) => "str.prefixof"@,
                Expr::SuffixOf(_, _) => "str.suffixof"@,
                _ => "str.at"@,
            };
            assert(smt_of(e) == app2(head, smt_of(*a), smt_of(*b)));
            if vars_of(*a).contains(v) {
                lemma_variables_rendered(*a, v);
                lemma_occurs_in_middle(
                    seq!['('] + head + seq![' '],
                    smt_of(*a),
                    seq![' '] + smt_of(*b) + seq![')'],
                    v,
                );
                assert(app2(head, smt_of(*a), smt_of(*b)) =~= seq!['('] + head + seq![' '] + smt_of(*a)
                    + (seq![' '] + smt_of(*b) + seq![')']));
            } else {
                lemma_variables_rendered(*b, v);
                lemma_occurs_in_middle(
                    seq!['('] + head + seq![' '] + smt_of(*a) + seq![' '],
                    smt_of(*b),
                    seq![')'],
                    v,
                );
            }
        },
        Expr::Cond(a, b, c) | Expr::Substr(a, b, c) | Expr::Replace(a, b, c) | Expr::ReplaceAll(
            a,
            b,
            c,
        ) | Expr::IndexOf(a, b, c) => {
            let head = match e {
                Expr::Cond(_, _, _) => "ite"@,
                Expr::Substr(_, _, _) => "str.substr"@,
                Expr::Replace(_, _, _) => "str.replace"@,
                Expr::ReplaceAll(_, _, _) => "str.replace_all"@,
                _ => "str.indexof"@,
            };
            assert(smt_of(e) == app3(head, smt_of(*a), smt_of(*b), smt_of(*c)));
            if vars_of(*a).contains(v) {
                lemma_variables_rendered(*a, v);
                lemma_occurs_in_middle(
                    seq!['('] + head + seq![' '],
                    smt_of(*a),
                    seq![' '] + smt_of(*b) + seq![' '] + smt_of(*c) + seq![')'],
                    v,
                );
                assert(app3(head, smt_of(*a), smt_of(*b), smt_of(*c)) =~= seq!['('] + head + seq![' ']
                    + smt_of(*a) + (seq![' '] + smt_of(*b) + seq![' '] + smt_of(*c) + seq![')']));
            } else if vars_of(*b).contains(v) {
                lemma_variables_rendered(*b, v);
                lemma_occurs_in_middle(
                    seq!['('] + head + seq![' '] + smt_of(*a) + seq![' '],
                    smt_of(*b),
                    seq![' '] + smt_of(*c) + seq![')'],
                    v,
                );
                assert(app3(head, smt_of(*a), smt_of(*b), smt_of(*c)) =~= seq!['('] + head + seq![' ']
                    + smt_of(*a) + seq![' '] + smt_of(*b) + (seq![' '] + smt_of(*c) + seq![')']));
            } else {
                lemma_variables_rendered(*c, v);
                lemma_occurs_in_middle(
                    seq!['('] + head + seq![' '] + smt_of(*a) + seq![' '] + smt_of(*b) + seq![' '],
                    smt_of(*c),
                    seq![')'],
                    v,
                );
            }
        },
    }
}

/// A binary operation on two constants renders as `(op a b)`: it starts
/// with `(`, ends with `)`, and holds the operation and both constants.
pub proof fn lemma_binary_rendering(op: BinOp, a: CVal, b: CVal)
    ensures
        ({
            let r = smt_of(Expr::Bin(op, Box::new(Expr::Const(a)), Box::new(Expr::Const(b))));
            &&& r[0] == '('
            &&& r.last() == ')'
            &&& seq_contains_sub(r, binop_smt(op))
            &&& seq_contains_sub(r, cval_smt(a))
            &&& seq_contains_sub(r, cval_smt(b))
        }),
{
    let (h, x, y) = (binop_smt(op), cval_smt(a), cval_smt(b));
    let e = Expr::Bin(op, Box::new(Expr::Const(a)), Box::new(Expr::Const(b)));
    assert(smt_of(Expr::Const(a)) == x);
    assert(smt_of(Expr::Const(b)) == y);
    let r = app2(h, x, y);
    assert(smt_of(e) == r);
    assert(r[0] == '(');
    assert(r.last() == ')');
    lemma_occurs_whole(h);
    lemma_occurs_whole(x);
    lemma_occurs_whole(y);
    lemma_occurs_in_middle(seq!['('], h, seq![' '] + x + seq![' '] + y + seq![')'], h);
    assert(r =~= seq!['('] + h + (seq![' '] + x + seq![' '] + y + seq![')']));
    lemma_occurs_in_middle(seq!['('] + h + seq![' '], x, seq![' '] + y + seq![')'], x);
    assert(r =~= seq!['('] + h + seq![' '] + x + (seq![' '] + y + seq![')']));
    lemma_occurs_in_middle(seq!['('] + h + seq![' '] + x + seq![' '], y, seq![')'], y);
}

/// A script holds the logic line, the assertion, `(check-sat)` and
/// `(get-model)`.
pub proof fn lemma_script_complete(names: Seq<Seq<char>>, e: Expr)
    ensures
        seq_contains_sub(smt_script(names, e), "(set-logic"@),
        seq_contains_sub(smt_script(names, e), "(assert"@),
        seq_contains_sub(smt_script(names, e), "(check-sat)"@),
        seq_contains_sub(smt_script(names, e), "(get-model)"@),
{
    let d = declaration_lines(names);
    let body = smt_of(e);
    let logic = "(set-logic QF_LIA)\n"@;
    let asrt = "(assert "@;
    let close = ")\n"@;
    let check = "(check-sat)\n"@;
    let model = "(get-model)\n"@;
    let s = smt_script(names, e);
    assert(s == logic + d + asrt + body + close + check + model);
    reveal_strlit("(set-logic QF_LIA)\n");
    reveal_strlit("(set-logic");
    reveal_strlit("(assert ");
    reveal_strlit("(assert");
    reveal_strlit("(check-sat)\n");
    reveal_strlit("(check-sat)");
    reveal_strlit("(get-model)\n");
    reveal_strlit("(get-model)");
    assert(s.subrange(0, 10) =~= "(set-logic"@);
    assert(occurs_at(s, "(set-logic"@, 0));
    let p1: int = (logic.len() + d.len()) as int;
    assert(s.subrange(p1, p1 + 7) =~= "(assert"@);
    assert(occurs_at(s, "(assert"@, p1));
    let p2: int = p1 + asrt.len() + body.len() + close.len();
    assert(s.subrange(p2, p2 + 11) =~= "(check-sat)"@);
    assert(occurs_at(s, "(check-sat)"@, p2));
    let p3: int = p2 + check.len();
    assert(s.subrange(p3, p3 + 11) =~= "(get-model)"@);
    assert(occurs_at(s, "(get-model)"@, p3));
}

/// Declarations name their variable: two names with one declaration are one name.
pub proof fn lemma_declaration_injective(a: Seq<char>, b: Seq<char>)
    requires
        declaration(a) == declaration(b),
    ensures
        a == b,
{
    reveal_strlit("(declare-fun ");
    reveal_strlit(" () Int)");
    let pre: int = "(declare-fun "@.len() as int;
    assert(" () Int)"@.len() == 8);
    assert(declaration(a).len() == pre + a.len() + 8);
    assert(declaration(b).len() == pre + b.len() + 8);
    assert(a.len() == b.len());
    assert(a =~= declaration(a).subrange(pre, pre + a.len()));
    assert(b =~= declaration(b).subrange(pre, pre + b.len()));
}

/// The declarations of a list of names.
pub open spec fn declarations_of(names: Seq<Seq<char>>) -> Seq<Seq<char>> {
    names.map_values(|n: Seq<char>| declaration(n))
}

/// The declarations of an expression's variables declare each variable
/// exactly once and nothing else.
pub proof fn lemma_declarations_complete(names: Seq<Seq<char>>, e: Expr, v: Seq<char>)
    requires
        sorted_vars(names, e),
    ensures
        vars_of(e).contains(v) ==> exists|k: int|
            0 <= k < names.len() && declarations_of(names)[k] == declaration(v) && forall|j: int|
                0 <= j < names.len() && #[trigger] declarations_of(names)[j] == declaration(v) ==> j == k,
        forall|j: int| 0 <= j < names.len() ==> vars_of(e).contains(#[trigger] names[j]),
{
    let ds = declarations_of(names);
    assert forall|j: int| 0 <= j < names.len() implies vars_of(e).contains(#[trigger] names[j]) by {
        assert(names.to_set().contains(names[j]));
    }
    if vars_of(e).contains(v) {
        assert(names.to_set().contains(v));
        let k = choose|k: int| 0 <= k < names.len() && names[k] == v;
        assert(ds[k] == declaration(v));
        assert forall|j: int| 0 <= j < names.len() && ds[j] == declaration(v) implies j == k by {
            lemma_declaration_injective(names[j], v);
            if j != k {
                if j < k {
                    assert(str_lt(names[j], names[k]));
                } else {
                    assert(str_lt(names[k], names[j]));
                }
                crate::text::lemma_bytes_lt_irreflexive(crate::text::utf8_of(v));
            }
        }
    }
}

} // verus!
