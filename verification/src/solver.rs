//! Satisfiability results, models, and the solver-independent part of
//! solving: constraint checks, the bookkeeping of asserted constraints and
//! backtracking levels, the sort of each variable, and the assembly of a
//! model from the values a solver reports.
use vstd::prelude::*;
use crate::error::{ErrorV, SymExError, SymExResult};
use crate::expressions::{depth_of, nodes_of, BinOp, CVal, ConstValue, Expr, SymExpr, UnOp};
use crate::lower::{lower_bool, lower_bool_term, BoolT, BoolTerm, LowerErr, LowerError};
use crate::name_map::NameMap;
use crate::smt::vars_of;
use crate::validate::check_result;
use crate::text::{insert_sorted_unique, strictly_sorted, views_of};
use crate::value_map::ValueMap;

verus! {

/// Result of a satisfiability query.
#[derive(Debug, Clone, Copy, PartialEq, Eq, Structural)]
pub enum SatResult {
    /// The constraints are satisfiable.
    Sat,
    /// The constraints are unsatisfiable.
    Unsat,
    /// The solver could not decide (timeout, resource limits).
    Unknown,
}

/// Values assigned to variables by a solver.
#[derive(Debug)]
pub struct Model {
    /// Variable names to values.
    pub assignments: ValueMap,
}

impl View for Model {
    type V = Map<Seq<char>, CVal>;

    open spec fn view(&self) -> Map<Seq<char>, CVal> {
        self.assignments@
    }
}

/// The integer an integer constant holds (floats, booleans and strings have
/// none).
pub open spec fn int_of(c: CVal) -> Option<int> {
    match c {
        CVal::I64(v) => Some(v as int),
        CVal::I32(v) => Some(v as int),
        CVal::U64(v) => Some(v as int),
        CVal::U32(v) => Some(v as int),
        CVal::U8(v) => Some(v as int),
        _ => None,
    }
}

/// The value of a variable in a model, if it has one.
pub open spec fn lookup(m: Map<Seq<char>, CVal>, name: Seq<char>) -> Option<CVal> {
    if m.contains_key(name) {
        Some(m[name])
    } else {
        None
    }
}

/// The integer value of a variable in a model.
pub open spec fn int_lookup(m: Map<Seq<char>, CVal>, name: Seq<char>) -> Option<int> {
    match lookup(m, name) {
        Some(c) => int_of(c),
        None => None,
    }
}

fn int_value_of(c: &ConstValue) -> (r: Option<i128>)
    ensures
        match int_of(c@) {
            Some(v) => r == Some(v as i128),
            None => r is None,
        },
{
    match c {
        ConstValue::I64(v) => Some(*v as i128),
        ConstValue::I32(v) => Some(*v as i128),
        ConstValue::U64(v) => Some(*v as i128),
        ConstValue::U32(v) => Some(*v as i128),
        ConstValue::U8(v) => Some(*v as i128),
        _ => None,
    }
}

impl Model {
    /// An empty model.
    pub fn new() -> (r: Self)
        ensures
            r.assignments.wf(),
            r@ == Map::<Seq<char>, CVal>::empty(),
    {
        Model { assignments: ValueMap::new() }
    }

    /// The value assigned to a variable.
    pub fn get_value(&self, var_name: &str) -> (r: Option<&ConstValue>)
        requires
            self.assignments.wf(),
        ensures
            match lookup(self@, var_name@) {
                Some(c) => r matches Some(v) && v@ == c,
                None => r is None,
            },
    {
        self.assignments.get(var_name)
    }

    fn int_value(&self, var_name: &str) -> (r: Option<i128>)
        requires
            self.assignments.wf(),
        ensures
            match int_lookup(self@, var_name@) {
                Some(v) => r == Some(v as i128),
                None => r is None,
            },
    {
        match self.assignments.get(var_name) {
            Some(c) => int_value_of(c),
            None => None,
        }
    }

    /// The value of an integer variable as `i64` (converted like `as`).
    pub fn get_int_value(&self, var_name: &str) -> (r: Option<i64>)
        requires
            self.assignments.wf(),
        ensures
            match int_lookup(self@, var_name@) {
                Some(v) => r == Some(v as i64),
                None => r is None,
            },
    {
        match self.int_value(var_name) {
            Some(v) => Some(v as i64),
            None => None,
        }
    }

    /// The value of a boolean variable.
    pub fn get_bool_value(&self, var_name: &str) -> (r: Option<bool>)
        requires
            self.assignments.wf(),
        ensures
            match lookup(self@, var_name@) {
                Some(CVal::Bool(b)) => r == Some(b),
                _ => r is None,
            },
    {
        match self.assignments.get(var_name) {
            Some(ConstValue::Bool(b)) => Some(*b),
            _ => None,
        }
    }

    /// The value of a string variable.
    pub fn get_string_value(&self, var_name: &str) -> (r: Option<&str>)
        requires
            self.assignments.wf(),
        ensures
            match lookup(self@, var_name@) {
                Some(CVal::Str(s)) => r matches Some(x) && x@ == s,
                _ => r is None,
            },
    {
        match self.assignments.get(var_name) {
            Some(ConstValue::String(s)) => Some(s.as_str()),
            _ => None,
        }
    }

    /// The value of a string variable, owned.
    pub fn get_string(&self, var_name: &str) -> (r: Option<String>)
        requires
            self.assignments.wf(),
        ensures
            match lookup(self@, var_name@) {
                Some(CVal::Str(s)) => r matches Some(x) && x@ == s,
                _ => r is None,
            },
    {
        match self.get_string_value(var_name) {
            Some(s) => Some(s.to_string()),
            None => None,
        }
    }

    /// The value of an integer variable as `u64` (converted like `as`).
    pub fn get_u64(&self, var_name: &str) -> (r: Option<u64>)
        requires
            self.assignments.wf(),
        ensures
            match int_lookup(self@, var_name@) {
                Some(v) => r == Some(v as u64),
                None => r is None,
            },
    {
        match self.int_value(var_name) {
            Some(v) => Some(v as u64),
            None => None,
        }
    }

    /// The value of an integer variable as `u32` (converted like `as`).
    pub fn get_u32(&self, var_name: &str) -> (r: Option<u32>)
        requires
            self.assignments.wf(),
        ensures
            match int_lookup(self@, var_name@) {
                Some(v) => r == Some(v as u32),
                None => r is None,
            },
    {
        match self.int_value(var_name) {
            Some(v) => Some(v as u32),
            None => None,
        }
    }

    /// The value of an integer variable as `i32` (converted like `as`).
    pub fn get_i32(&self, var_name: &str) -> (r: Option<i32>)
        requires
            self.assignments.wf(),
        ensures
            match int_lookup(self@, var_name@) {
                Some(v) => r == Some(v as i32),
                None => r is None,
            },
    {
        match self.int_value(var_name) {
            Some(v) => Some(v as i32),
            None => None,
        }
    }

    /// The value of an integer variable as `i64` (converted like `as`).
    pub fn get_i64(&self, var_name: &str) -> (r: Option<i64>)
        requires
            self.assignments.wf(),
        ensures
            match int_lookup(self@, var_name@) {
                Some(v) => r == Some(v as i64),
                None => r is None,
            },
    {
        self.get_int_value(var_name)
    }

    /// The value of an integer variable as `u8` (converted like `as`).
    pub fn get_u8(&self, var_name: &str) -> (r: Option<u8>)
        requires
            self.assignments.wf(),
        ensures
            match int_lookup(self@, var_name@) {
                Some(v) => r == Some(v as u8),
                None => r is None,
            },
    {
        match self.int_value(var_name) {
            Some(v) => Some(v as u8),
            None => None,
        }
    }

    /// The names of the assigned variables, sorted.
    pub fn get_variables(&self) -> (r: Vec<String>)
        requires
            self.assignments.wf(),
        ensures
            strictly_sorted(views_of(r@)),
            views_of(r@).to_set() == self@.dom(),
    {
        let entries = self.assignments.entries();
        let mut names: Vec<String> = Vec::new();
        let mut i: usize = 0;
        proof {
            self.assignments.lemma_domain();
        }
        while i < entries.len()
            invariant
                i <= entries@.len(),
                entries@ == self.assignments.entries_view(),
                strictly_sorted(views_of(names@)),
                views_of(names@).to_set() == Set::new(
                    |k: Seq<char>| exists|j: int| 0 <= j < i && (#[trigger] entries@[j]).0@ == k,
                ),
            decreases entries@.len() - i,
        {
            let ghost before = views_of(names@).to_set();
            insert_sorted_unique(&mut names, entries[i].0.clone());
            assert(views_of(names@).to_set() =~= Set::new(
                |k: Seq<char>| exists|j: int| 0 <= j < i + 1 && (#[trigger] entries@[j]).0@ == k,
            )) by {
                assert forall|k: Seq<char>| #[trigger] views_of(names@).to_set().contains(k) <==> (
                exists|j: int| 0 <= j < i + 1 && (#[trigger] entries@[j]).0@ == k) by {
                    if k == entries@[i as int].0@ {
                    } else if views_of(names@).to_set().contains(k) {
                        assert(before.contains(k));
                        let j = choose|j: int| 0 <= j < i && (#[trigger] entries@[j]).0@ == k;
                        assert(0 <= j < i + 1 && entries@[j].0@ == k);
                    } else if exists|j: int| 0 <= j < i + 1 && (#[trigger] entries@[j]).0@ == k {
                        let j = choose|j: int| 0 <= j < i + 1 && (#[trigger] entries@[j]).0@ == k;
                        assert(j < i);
                        assert(before.contains(k));
                    }
                }
            }
            i = i + 1;
        }
        assert(views_of(names@).to_set() =~= self@.dom());
        names
    }

    /// A copy of the model.
    pub fn copy(&self) -> (r: Model)
        ensures
            r@ == self@,
            r.assignments.wf() == self.assignments.wf(),
    {
        Model { assignments: self.assignments.copy() }
    }

    /// Whether a variable is assigned.
    pub fn contains_variable(&self, var_name: &str) -> (r: bool)
        requires
            self.assignments.wf(),
        ensures
            r == self@.contains_key(var_name@),
    {
        self.assignments.get(var_name).is_some()
    }

    /// The number of assigned variables.
    pub fn size(&self) -> (r: usize)
        requires
            self.assignments.wf(),
        ensures
            r == self@.len(),
    {
        proof {
            self.assignments.lemma_domain();
        }
        self.assignments.len()
    }

    /// Whether no variable is assigned.
    pub fn is_empty(&self) -> (r: bool)
        requires
            self.assignments.wf(),
        ensures
            r == (self@.len() == 0),
    {
        proof {
            self.assignments.lemma_domain();
        }
        self.assignments.is_empty()
    }
}

impl Default for Model {
    fn default() -> (r: Self)
        ensures
            r.assignments.wf(),
            r@ == Map::<Seq<char>, CVal>::empty(),
    {
        Model::new()
    }
}

// ---------------------------------------------------------------------------
// Sorts of variables
// ---------------------------------------------------------------------------

/// The sort a variable's use shows; variables of no recorded sort are read
/// as integers.
#[derive(Debug, Clone, Copy, PartialEq, Eq, Structural)]
pub enum VarSort {
    String,
    Bool,
}

/// Variable names to sorts.
pub type SortMap = NameMap<VarSort>;

/// Records `sort` for `x` if it is a variable.
pub open spec fn mark(m: Map<Seq<char>, VarSort>, x: Expr, sort: VarSort) -> Map<Seq<char>, VarSort> {
    match x {
        Expr::Var(n) => m.insert(n, sort),
        _ => m,
    }
}

/// What the operands of an equality show: a variable compared with a
/// string or boolean constant has that constant's sort.
pub open spec fn mark_equality(m: Map<Seq<char>, VarSort>, l: Expr, r: Expr) -> Map<Seq<char>, VarSort> {
    match (l, r) {
        (Expr::Var(n), Expr::Const(CVal::Str(_))) | (Expr::Const(CVal::Str(_)), Expr::Var(n)) => m.insert(
            n,
            VarSort::String,
        ),
        (Expr::Var(n), Expr::Const(CVal::Bool(_))) | (Expr::Const(CVal::Bool(_)), Expr::Var(n)) => m.insert(
            n,
            VarSort::Bool,
        ),
        _ => m,
    }
}

/// The sorts recorded while walking an expression, node before children,
/// children left to right: operands of string operations are strings,
/// operands of `&`, `|`, `^` and `!` are booleans, and equality with a
/// constant gives the constant's sort.
pub open spec fn infer(e: Expr, m: Map<Seq<char>, VarSort>) -> Map<Seq<char>, VarSort>
    decreases e,
{
    match e {
        Expr::Var(_) | Expr::Const(_) => m,
        Expr::Bin(op, l, r) => {
            let m1 = if op == BinOp::StrConcat || op == BinOp::StrLexLt || op == BinOp::StrLexLe {
                mark(mark(m, *l, VarSort::String), *r, VarSort::String)
            } else if op == BinOp::Eq || op == BinOp::Ne {
                mark_equality(m, *l, *r)
            } else if op == BinOp::BitAnd || op == BinOp::BitOr || op == BinOp::BitXor {
                mark(mark(m, *l, VarSort::Bool), *r, VarSort::Bool)
            } else {
                m
            };
            infer(*r, infer(*l, m1))
        },
        Expr::Un(op, x) => {
            let m1 = if op == UnOp::Not {
                mark(m, *x, VarSort::Bool)
            } else if op == UnOp::StrLen {
                mark(m, *x, VarSort::String)
            } else {
                m
            };
            infer(*x, m1)
        },
        Expr::Cond(c, t, f) => infer(*f, infer(*t, infer(*c, m))),
        Expr::Substr(s, a, b) => infer(*b, infer(*a, infer(*s, mark(m, *s, VarSort::String)))),
        Expr::Contains(a, b) | Expr::PrefixOf(a, b) | Expr::SuffixOf(a, b) => infer(
            *b,
            infer(*a, mark(mark(m, *a, VarSort::String), *b, VarSort::String)),
        ),
        Expr::Replace(s, p, r) | Expr::ReplaceAll(s, p, r) => infer(
            *r,
            infer(
                *p,
                infer(
                    *s,
                    mark(mark(mark(m, *s, VarSort::String), *p, VarSort::String), *r, VarSort::String),
                ),
            ),
        ),
        Expr::At(s, i) => infer(*i, infer(*s, mark(m, *s, VarSort::String))),
        Expr::IndexOf(h, n, o) => infer(
            *o,
            infer(*n, infer(*h, mark(mark(m, *h, VarSort::String), *n, VarSort::String))),
        ),
    }
}

/// The sorts recorded over a list of constraints, in order.
pub open spec fn infer_all(cs: Seq<Expr>, m: Map<Seq<char>, VarSort>) -> Map<Seq<char>, VarSort>
    decreases cs.len(),
{
    if cs.len() == 0 {
        m
    } else {
        infer_all(cs.drop_first(), infer(cs[0], m))
    }
}

fn mark_var(types: &mut SortMap, x: &SymExpr, sort: VarSort)
    ensures
        final(types)@ == mark(old(types)@, x@, sort),
{
    match x {
        SymExpr::Variable(n) => types.insert(n.clone(), sort),
        _ => {},
    }
}

/// Records in `types` the sorts that the uses of variables in `expr` show.
pub fn infer_variable_types(expr: &SymExpr, types: &mut SortMap)
    ensures
        final(types)@ == infer(expr@, old(types)@),
    decreases expr,
{
    match expr {
        SymExpr::Variable(_) | SymExpr::Constant(_) => {},
        SymExpr::BinaryOp(op, l, r) => {
            match op {
                BinOp::StrConcat | BinOp::StrLexLt | BinOp::StrLexLe => {
                    mark_var(types, l, VarSort::String);
                    mark_var(types, r, VarSort::String);
                },
                BinOp::Eq | BinOp::Ne => {
                    match (&**l, &**r) {
                        (SymExpr::Variable(n), SymExpr::Constant(ConstValue::String(_)))
                        | (SymExpr::Constant(ConstValue::String(_)), SymExpr::Variable(n)) => {
                            types.insert(n.clone(), VarSort::String);
                        },
                        (SymExpr::Variable(n), SymExpr::Constant(ConstValue::Bool(_)))
                        | (SymExpr::Constant(ConstValue::Bool(_)), SymExpr::Variable(n)) => {
                            types.insert(n.clone(), VarSort::Bool);
                        },
                        _ => {},
                    }
                },
                BinOp::BitAnd | BinOp::BitOr | BinOp::BitXor => {
                    mark_var(types, l, VarSort::Bool);
                    mark_var(types, r, VarSort::Bool);
                },
                _ => {},
            }
            infer_variable_types(l, types);
            infer_variable_types(r, types);
        },
        SymExpr::UnaryOp(op, x) => {
            match op {
                UnOp::Not => mark_var(types, x, VarSort::Bool),
                UnOp::StrLen => mark_var(types, x, VarSort::String),
                _ => {},
            }
            infer_variable_types(x, types);
        },
        SymExpr::Conditional(c, t, f) => {
            infer_variable_types(c, types);
            infer_variable_types(t, types);
            infer_variable_types(f, types);
        },
        SymExpr::StrSubstring(s, a, b) => {
            mark_var(types, s, VarSort::String);
            infer_variable_types(s, types);
            infer_variable_types(a, types);
            infer_variable_types(b, types);
        },
        SymExpr::StrContains(a, b) | SymExpr::StrPrefixOf(a, b) | SymExpr::StrSuffixOf(a, b) => {
            mark_var(types, a, VarSort::String);
            mark_var(types, b, VarSort::String);
            infer_variable_types(a, types);
            infer_variable_types(b, types);
        },
        SymExpr::StrReplace(s, p, r) | SymExpr::StrReplaceAll(s, p, r) => {
            mark_var(types, s, VarSort::String);
            mark_var(types, p, VarSort::String);
            mark_var(types, r, VarSort::String);
            infer_variable_types(s, types);
            infer_variable_types(p, types);
            infer_variable_types(r, types);
        },
        SymExpr::StrAt(s, i) => {
            mark_var(types, s, VarSort::String);
            infer_variable_types(s, types);
            infer_variable_types(i, types);
        },
        SymExpr::StrIndexOf(h, n, o) => {
            mark_var(types, h, VarSort::String);
            mark_var(types, n, VarSort::String);
            infer_variable_types(h, types);
            infer_variable_types(n, types);
            infer_variable_types(o, types);
        },
    }
}

// ---------------------------------------------------------------------------
// Constraint checks
// ---------------------------------------------------------------------------

/// Whether an expression holds a variable or a constant somewhere.
pub open spec fn has_content(e: Expr) -> bool
    decreases e,
{
    match e {
        Expr::Var(_) | Expr::Const(_) => true,
        Expr::Un(_, a) => has_content(*a),
        Expr::Bin(_, a, b) | Expr::Contains(a, b) | Expr::PrefixOf(a, b) | Expr::SuffixOf(a, b)
        | Expr::At(a, b) => has_content(*a) || has_content(*b),
        Expr::Cond(a, b, c) | Expr::Substr(a, b, c) | Expr::Replace(a, b, c) | Expr::ReplaceAll(
            a,
            b,
            c,
        ) | Expr::IndexOf(a, b, c) => has_content(*a) || has_content(*b) || has_content(*c),
    }
}

/// Every expression holds a variable or a constant: its leaves are such.
pub proof fn lemma_has_content(e: Expr)
    ensures
        has_content(e),
    decreases e,
{
    match e {
        Expr::Var(_) | Expr::Const(_) => {},
        Expr::Un(_, a) => lemma_has_content(*a),
        Expr::Bin(_, a, _) | Expr::Contains(a, _) | Expr::PrefixOf(a, _) | Expr::SuffixOf(a, _)
        | Expr::At(a, _) => lemma_has_content(*a),
        Expr::Cond(a, _, _) | Expr::Substr(a, _, _) | Expr::Replace(a, _, _) | Expr::ReplaceAll(
            a,
            _,
            _,
        ) | Expr::IndexOf(a, _, _) => lemma_has_content(*a),
    }
}

/// The error a solver reports for a constraint before solving, if any.
pub open spec fn solver_constraint_error(e: Expr) -> Option<ErrorV> {
    if !has_content(e) {
        Some(ErrorV::MalformedExpression("Expression contains no variables or constants"@))
    } else if depth_of(e) > 100 {
        Some(ErrorV::ResourceExhaustion("Expression depth exceeds maximum limit (100)"@))
    } else if nodes_of(e) > 10000 {
        Some(ErrorV::ResourceExhaustion("Expression complexity exceeds maximum limit (10000 nodes)"@))
    } else {
        None
    }
}

fn content_of(e: &SymExpr) -> (r: bool)
    ensures
        r == has_content(e@),
    decreases e,
{
    match e {
        SymExpr::Variable(_) | SymExpr::Constant(_) => true,
        SymExpr::UnaryOp(_, a) => content_of(a),
        SymExpr::BinaryOp(_, a, b) | SymExpr::StrContains(a, b) | SymExpr::StrPrefixOf(a, b)
        | SymExpr::StrSuffixOf(a, b) | SymExpr::StrAt(a, b) => content_of(a) || content_of(b),
        SymExpr::Conditional(a, b, c) | SymExpr::StrSubstring(a, b, c) | SymExpr::StrReplace(
            a,
            b,
            c,
        ) | SymExpr::StrReplaceAll(a, b, c) | SymExpr::StrIndexOf(a, b, c) => content_of(a)
            || content_of(b) || content_of(c),
    }
}

/// Checks a constraint before it reaches a solver: it must be no deeper
/// than 100 and have at most 10000 nodes.
pub fn validate_solver_constraint(e: &SymExpr) -> (r: SymExResult<()>)
    requires
        nodes_of(e@) <= usize::MAX,
    ensures
        check_result(r, solver_constraint_error(e@)),
{
    if !content_of(e) {
        return Err(SymExError::MalformedExpression(String::from_str("Expression contains no variables or constants")));
    }
    if e.depth() > 100 {
        return Err(SymExError::ResourceExhaustion(String::from_str("Expression depth exceeds maximum limit (100)")));
    }
    if e.node_count() > 10000 {
        return Err(
            SymExError::ResourceExhaustion(
                String::from_str("Expression complexity exceeds maximum limit (10000 nodes)"),
            ),
        );
    }
    Ok(())
}

/// The expressions a list of symbolic expressions stands for.
pub open spec fn exprs_of(v: Seq<SymExpr>) -> Seq<Expr> {
    v.map_values(|x: SymExpr| x@)
}

/// Each expression's node count fits in `usize`.
pub open spec fn all_fit(v: Seq<SymExpr>) -> bool {
    forall|i: int| 0 <= i < v.len() ==> nodes_of((#[trigger] v[i])@) <= usize::MAX
}

/// The variables of a list of expressions.
pub open spec fn vars_of_all(v: Seq<Expr>) -> Set<Seq<char>>
    decreases v.len(),
{
    if v.len() == 0 {
        Set::empty()
    } else {
        vars_of_all(v.drop_last()).union(vars_of(v.last()))
    }
}

/// The variables of a list of constraints, sorted, each once.
pub fn get_constraint_variables(constraints: &[SymExpr]) -> (r: Vec<String>)
    ensures
        strictly_sorted(views_of(r@)),
        views_of(r@).to_set() == vars_of_all(exprs_of(constraints@)),
{
    let mut vars: Vec<String> = Vec::new();
    let mut i: usize = 0;
    assert(views_of(vars@).to_set() =~= Set::empty());
    while i < constraints.len()
        invariant
            i <= constraints@.len(),
            strictly_sorted(views_of(vars@)),
            views_of(vars@).to_set() == vars_of_all(exprs_of(constraints@.take(i as int))),
        decreases constraints@.len() - i,
    {
        constraints[i].collect_variables(&mut vars);
        proof {
            let t = exprs_of(constraints@.take(i + 1));
            assert(t.drop_last() =~= exprs_of(constraints@.take(i as int)));
            assert(t.last() == constraints@[i as int]@);
        }
        i = i + 1;
    }
    assert(constraints@.take(constraints@.len() as int) =~= constraints@);
    vars
}

/// Copies a list of expressions.
pub fn clone_exprs(v: &[SymExpr]) -> (r: Vec<SymExpr>)
    ensures
        exprs_of(r@) == exprs_of(v@),
        r@.len() == v@.len(),
        forall|i: int| 0 <= i < v@.len() ==> (#[trigger] r@[i])@ == v@[i]@,
{
    let mut out: Vec<SymExpr> = Vec::new();
    let mut i: usize = 0;
    while i < v.len()
        invariant
            i <= v@.len(),
            out@.len() == i,
            forall|k: int| 0 <= k < i ==> (#[trigger] out@[k])@ == v@[k]@,
        decreases v@.len() - i,
    {
        out.push(v[i].clone());
        i = i + 1;
    }
    assert(exprs_of(out@) =~= exprs_of(v@));
    out
}

// ---------------------------------------------------------------------------
// Models from solver values
// ---------------------------------------------------------------------------

/// What a solver's model gives for one variable read in each sort.
pub struct ExtractedValue {
    pub as_int: Option<i64>,
    pub as_bool: Option<bool>,
    pub as_string: Option<String>,
}

/// The value kept for a variable: the one of its recorded sort (integer if
/// none is recorded), else the first of integer, boolean, string that the
/// model gives.
pub open spec fn chosen_value(
    sort: Option<VarSort>,
    i: Option<i64>,
    b: Option<bool>,
    s: Option<Seq<char>>,
) -> Option<CVal> {
    let preferred = match sort {
        Some(VarSort::String) => match s {
            Some(x) => Some(CVal::Str(x)),
            None => None,
        },
        Some(VarSort::Bool) => match b {
            Some(x) => Some(CVal::Bool(x)),
            None => None,
        },
        None => match i {
            Some(x) => Some(CVal::I64(x)),
            None => None,
        },
    };
    if preferred is Some {
        preferred
    } else if i is Some {
        Some(CVal::I64(i->0))
    } else if b is Some {
        Some(CVal::Bool(b->0))
    } else if s is Some {
        Some(CVal::Str(s->0))
    } else {
        None
    }
}

pub open spec fn chosen_for(sorts: Map<Seq<char>, VarSort>, name: Seq<char>, v: ExtractedValue) -> Option<CVal> {
    chosen_value(
        if sorts.contains_key(name) { Some(sorts[name]) } else { None },
        v.as_int,
        v.as_bool,
        match v.as_string {
            Some(x) => Some(x@),
            None => None,
        },
    )
}

/// The model built from the first `n` variables.
pub open spec fn assembled(
    vars: Seq<String>,
    sorts: Map<Seq<char>, VarSort>,
    values: Seq<ExtractedValue>,
    n: nat,
) -> Map<Seq<char>, CVal>
    decreases n,
{
    if n == 0 {
        Map::empty()
    } else {
        let prev = assembled(vars, sorts, values, (n - 1) as nat);
        match chosen_for(sorts, vars[n - 1]@, values[n - 1]) {
            Some(c) => prev.insert(vars[n - 1]@, c),
            None => prev,
        }
    }
}

fn choose_value(sort: Option<VarSort>, v: &ExtractedValue) -> (r: Option<ConstValue>)
    ensures
        match chosen_value(sort, v.as_int, v.as_bool, match v.as_string { Some(x) => Some(x@), None => None }) {
            Some(c) => r matches Some(x) && x@ == c,
            None => r is None,
        },
{
    let preferred: Option<ConstValue> = match sort {
        Some(VarSort::String) => match &v.as_string {
            Some(x) => Some(ConstValue::String(x.clone())),
            None => None,
        },
        Some(VarSort::Bool) => match v.as_bool {
            Some(x) => Some(ConstValue::Bool(x)),
            None => None,
        },
        None => match v.as_int {
            Some(x) => Some(ConstValue::I64(x)),
            None => None,
        },
    };
    if preferred.is_some() {
        return preferred;
    }
    match (v.as_int, v.as_bool, &v.as_string) {
        (Some(x), _, _) => Some(ConstValue::I64(x)),
        (None, Some(x), _) => Some(ConstValue::Bool(x)),
        (None, None, Some(x)) => Some(ConstValue::String(x.clone())),
        _ => None,
    }
}

/// Builds a model from what a solver gives for each variable.
pub fn assemble_model(vars: &[String], sorts: &SortMap, values: &[ExtractedValue]) -> (r: Model)
    requires
        vars@.len() == values@.len(),
    ensures
        r.assignments.wf(),
        r@ == assembled(vars@, sorts@, values@, vars@.len() as nat),
{
    let mut m = Model::new();
    let mut i: usize = 0;
    while i < vars.len()
        invariant
            i <= vars@.len(),
            vars@.len() == values@.len(),
            m.assignments.wf(),
            m@ == assembled(vars@, sorts@, values@, i as nat),
        decreases vars@.len() - i,
    {
        let sort = match sorts.get(vars[i].as_str()) {
            Some(x) => Some(*x),
            None => None,
        };
        match choose_value(sort, &values[i]) {
            Some(c) => m.assignments.insert(vars[i].clone(), c),
            None => {},
        }
        i = i + 1;
    }
    m
}

// ---------------------------------------------------------------------------
// Solver bookkeeping
// ---------------------------------------------------------------------------

/// What a satisfiability check asks of the solver after the checks that need
/// no solver.
#[derive(Debug)]
pub enum CheckQuery {
    /// Nothing is asserted and nothing is asked: satisfiable.
    Trivial,
    /// The lowered asserted constraints followed by the lowered asked ones.
    Query(Vec<BoolTerm>),
}

/// Why a satisfiability check fails before the solver runs.
#[derive(Debug)]
pub enum CheckFailure {
    /// Asked constraint `index` fails the checks before solving.
    Invalid { index: usize, error: SymExError },
    /// Asserted constraint `index` does not lower.
    StoredUnlowerable { index: usize, cause: LowerError },
    /// Asked constraint `index` does not lower.
    Unlowerable { index: usize, cause: LowerError },
}

/// What a model query asks of the solver: the lowered constraints, the
/// variables to read back, and the sort recorded for each.
#[derive(Debug)]
pub struct ModelQuery {
    pub terms: Vec<BoolTerm>,
    pub variables: Vec<String>,
    pub sorts: SortMap,
}

/// The state of a solver session: a timeout, the asserted constraints, the
/// saved constraint lists of the backtracking levels, and the constraints of
/// the last check.
#[derive(Debug)]
pub struct SolverState {
    timeout_ms: Option<u32>,
    assertion_level: usize,
    asserted_constraints: Vec<SymExpr>,
    constraint_stack: Vec<Vec<SymExpr>>,
    last_checked_constraints: Vec<SymExpr>,
}

/// The lowerings of a list of constraints, when all lower.
pub open spec fn lowered_all(v: Seq<Expr>) -> bool {
    forall|i: int| 0 <= i < v.len() ==> (#[trigger] lower_bool(v[i])) is Ok
}

/// The first constraint of a list that does not lower, if any.
pub open spec fn first_unlowerable(v: Seq<Expr>) -> Option<int> {
    if lowered_all(v) {
        None
    } else {
        Some(choose|i: int| 0 <= i < v.len() && lower_bool(v[i]) is Err && forall|j: int| 0 <= j < i ==> (#[trigger] lower_bool(v[j])) is Ok)
    }
}

/// The first constraint that fails the checks before solving, if any.
pub open spec fn first_invalid(v: Seq<Expr>) -> Option<int> {
    if forall|i: int| 0 <= i < v.len() ==> (#[trigger] solver_constraint_error(v[i])) is None {
        None
    } else {
        Some(choose|i: int| 0 <= i < v.len() && solver_constraint_error(v[i]) is Some && forall|j: int| 0 <= j < i ==> (#[trigger] solver_constraint_error(v[j])) is None)
    }
}

proof fn lemma_first_index<A>(v: Seq<A>, p: spec_fn(A) -> bool, i: int)
    requires
        0 <= i < v.len(),
        !p(v[i]),
        forall|j: int| 0 <= j < i ==> p(#[trigger] v[j]),
    ensures
        forall|k: int| 0 <= k < v.len() && !p(v[k]) && (forall|j: int| 0 <= j < k ==> p(#[trigger] v[j])) ==> k == i,
{
    assert forall|k: int| 0 <= k < v.len() && !p(v[k]) && (forall|j: int| 0 <= j < k ==> p(#[trigger] v[j])) implies k == i by {
        if k < i {
            assert(p(v[k]));
        } else if k > i {
            assert(p(v[i]));
        }
    }
}

fn lower_each(v: &[SymExpr], terms: &mut Vec<BoolTerm>) -> (r: Result<(), (usize, LowerError)>)
    ensures
        match r {
            Ok(_) => lowered_all(exprs_of(v@)) && final(terms)@.len() == old(terms)@.len() + v@.len()
                && (forall|k: int| 0 <= k < old(terms)@.len() ==> (#[trigger] final(terms)@[k]) == old(terms)@[k])
                && (forall|k: int| 0 <= k < v@.len() ==> lower_bool(v@[k]@) == Ok::<BoolT, LowerErr>(
                    (#[trigger] final(terms)@[old(terms)@.len() + k])@)),
            Err((i, e)) => i < v@.len() && first_unlowerable(exprs_of(v@)) == Some(i as int) && lower_bool(v@[i as int]@)
                == Err::<BoolT, LowerErr>(e@),
        },
{
    let ghost start = terms@;
    let mut i: usize = 0;
    while i < v.len()
        invariant
            i <= v@.len(),
            terms@.len() == start.len() + i,
            forall|k: int| 0 <= k < start.len() ==> (#[trigger] terms@[k]) == start[k],
            forall|k: int| 0 <= k < i ==> lower_bool(v@[k]@) == Ok::<BoolT, LowerErr>(
                (#[trigger] terms@[start.len() + k])@),
        decreases v@.len() - i,
    {
        match lower_bool_term(&v[i]) {
            Ok(t) => terms.push(t),
            Err(e) => {
                proof {
                    let ev = exprs_of(v@);
                    assert forall|j: int| 0 <= j < i implies (#[trigger] lower_bool(ev[j])) is Ok by {
                        assert(lower_bool(v@[j]@) == Ok::<BoolT, LowerErr>(terms@[start.len() + j]@));
                    }
                    assert(ev[i as int] == v@[i as int]@);
                    assert(lower_bool(ev[i as int]) is Err);
                    assert(!lowered_all(ev));
                    lemma_first_index(ev, |x: Expr| lower_bool(x) is Ok, i as int);
                }
                return Err((i, e));
            },
        }
        i = i + 1;
    }
    proof {
        let ev = exprs_of(v@);
        assert forall|j: int| 0 <= j < ev.len() implies (#[trigger] lower_bool(ev[j])) is Ok by {
            assert(lower_bool(v@[j]@) == Ok::<BoolT, LowerErr>(terms@[start.len() + j]@));
        }
    }
    Ok(())
}

impl SolverState {
    pub closed spec fn timeout(&self) -> Option<u32> {
        self.timeout_ms
    }

    pub closed spec fn level(&self) -> nat {
        self.assertion_level as nat
    }

    /// The asserted constraints.
    pub closed spec fn asserted(&self) -> Seq<Expr> {
        exprs_of(self.asserted_constraints@)
    }

    /// The saved constraint lists, oldest first.
    pub closed spec fn saved(&self) -> Seq<Seq<Expr>> {
        self.constraint_stack@.map_values(|v: Vec<SymExpr>| exprs_of(v@))
    }

    /// The constraints of the last check.
    pub closed spec fn last_checked(&self) -> Seq<Expr> {
        exprs_of(self.last_checked_constraints@)
    }

    /// Every held constraint's node count fits in `usize`.
    pub closed spec fn fits(&self) -> bool {
        &&& all_fit(self.asserted_constraints@)
        &&& all_fit(self.last_checked_constraints@)
        &&& forall|i: int| 0 <= i < self.constraint_stack@.len() ==> all_fit(
            (#[trigger] self.constraint_stack@[i])@,
        )
    }

    /// A fresh session with an optional timeout in milliseconds.
    pub fn new(timeout_ms: Option<u32>) -> (r: Self)
        ensures
            r.timeout() == timeout_ms,
            r.level() == 0,
            r.asserted() == Seq::<Expr>::empty(),
            r.saved() == Seq::<Seq<Expr>>::empty(),
            r.last_checked() == Seq::<Expr>::empty(),
            r.fits(),
    {
        let r = SolverState {
            timeout_ms,
            assertion_level: 0,
            asserted_constraints: Vec::new(),
            constraint_stack: Vec::new(),
            last_checked_constraints: Vec::new(),
        };
        assert(r.asserted() =~= Seq::<Expr>::empty());
        assert(r.saved() =~= Seq::<Seq<Expr>>::empty());
        assert(r.last_checked() =~= Seq::<Expr>::empty());
        r
    }

    /// Sets the timeout.
    pub fn set_timeout(&mut self, timeout_ms: Option<u32>)
        ensures
            final(self).timeout() == timeout_ms,
            final(self).level() == old(self).level(),
            final(self).asserted() == old(self).asserted(),
            final(self).saved() == old(self).saved(),
            final(self).last_checked() == old(self).last_checked(),
            final(self).fits() == old(self).fits(),
    {
        self.timeout_ms = timeout_ms;
    }

    /// The timeout.
    pub fn get_timeout(&self) -> (r: Option<u32>)
        ensures
            r == self.timeout(),
    {
        self.timeout_ms
    }

    /// The number of open backtracking levels.
    pub fn get_assertion_level(&self) -> (r: usize)
        ensures
            r == self.level(),
    {
        self.assertion_level
    }

    /// The number of asserted constraints.
    pub fn get_constraint_count(&self) -> (r: usize)
        ensures
            r == self.asserted().len(),
    {
        self.asserted_constraints.len()
    }

    /// A copy of the asserted constraints.
    pub fn get_asserted_constraints(&self) -> (r: Vec<SymExpr>)
        ensures
            exprs_of(r@) == self.asserted(),
    {
        clone_exprs(&self.asserted_constraints)
    }

    /// Opens a backtracking level, saving the asserted constraints.
    pub fn push(&mut self)
        requires
            old(self).level() < usize::MAX,
        ensures
            level_opened(*old(self), *final(self)),
            final(self).level() == old(self).level() + 1,
            final(self).saved() == old(self).saved().push(old(self).asserted()),
            final(self).asserted() == old(self).asserted(),
            final(self).last_checked() == old(self).last_checked(),
            final(self).timeout() == old(self).timeout(),
            old(self).fits() ==> final(self).fits(),
    {
        let copy = clone_exprs(&self.asserted_constraints);
        let ghost c = copy@;
        self.constraint_stack.push(copy);
        self.assertion_level = self.assertion_level + 1;
        assert(self.saved() =~= old(self).saved().push(old(self).asserted()));
        proof {
            if old(self).fits() {
                assert forall|i: int| 0 <= i < c.len() implies nodes_of((#[trigger] c[i])@) <= usize::MAX by {
                    assert(c[i]@ == old(self).asserted_constraints@[i]@);
                }
                assert forall|i: int| 0 <= i < self.constraint_stack@.len() implies all_fit(
                    (#[trigger] self.constraint_stack@[i])@,
                ) by {
                    if i < old(self).constraint_stack@.len() {
                        assert(self.constraint_stack@[i] == old(self).constraint_stack@[i]);
                    } else {
                        assert(self.constraint_stack@[i]@ == c);
                    }
                }
            }
        }
    }

    /// Closes a backtracking level, restoring the constraints saved when it
    /// was opened. Fails with `StackUnderflow` when no level is open, and
    /// reports corruption when no list is saved or when, after closing, more
    /// than 1000 levels remain open.
    pub fn pop(&mut self) -> (r: SymExResult<()>)
        requires
            old(self).fits(),
        ensures
            final(self).fits(),
            old(self).level() == 0 ==> (r matches Err(SymExError::StackUnderflow) && *final(self)
                == *old(self)),
            old(self).level() > 0 && old(self).saved().len() == 0 ==> (r matches Err(
                SymExError::StateCorruption(m),
            ) && m@ == "Constraint stack is empty but assertion level > 0"@ && *final(self) == *old(self)),
            old(self).level() > 0 && old(self).saved().len() > 0 ==> {
                &&& level_closed(*old(self), *final(self))
                &&& final(self).level() == old(self).level() - 1
                &&& final(self).asserted() == old(self).saved().last()
                &&& final(self).saved() == old(self).saved().drop_last()
                &&& final(self).last_checked() == old(self).last_checked()
                &&& final(self).timeout() == old(self).timeout()
                &&& (final(self).level() > 1000 ==> (r matches Err(SymExError::StateCorruption(m))
                    && m@ == "Assertion level exceeds reasonable bounds"@))
                &&& (final(self).level() <= 1000 ==> r is Ok)
            },
    {
        if self.assertion_level == 0 {
            return Err(SymExError::StackUnderflow);
        }
        if self.constraint_stack.len() == 0 {
            return Err(
                SymExError::StateCorruption(
                    String::from_str("Constraint stack is empty but assertion level > 0"),
                ),
            );
        }
        let previous = self.constraint_stack.pop().unwrap();
        self.asserted_constraints = previous;
        self.assertion_level = self.assertion_level - 1;
        assert(self.saved() =~= old(self).saved().drop_last());
        if self.assertion_level > 1000 {
            return Err(SymExError::StateCorruption(String::from_str("Assertion level exceeds reasonable bounds")));
        }
        Ok(())
    }

    /// Asserts a constraint: it must pass the checks before solving and
    /// lower as a boolean; then it joins the asserted constraints.
    pub fn assert_constraint(&mut self, constraint: SymExpr) -> (r: Result<(), LowerError>)
        requires
            nodes_of(constraint@) <= usize::MAX,
        ensures
            match solver_constraint_error(constraint@) {
                Some(e) => r matches Err(LowerError::Error(x)) && x@ == e,
                None => match lower_bool(constraint@) {
                    Err(e) => r matches Err(x) && x@ == e,
                    Ok(_) => r is Ok,
                },
            },
            r is Ok ==> final(self).asserted() == old(self).asserted().push(constraint@),
            r is Err ==> final(self).asserted() == old(self).asserted(),
            final(self).level() == old(self).level(),
            final(self).saved() == old(self).saved(),
            final(self).last_checked() == old(self).last_checked(),
            final(self).timeout() == old(self).timeout(),
            old(self).fits() ==> final(self).fits(),
    {
        match validate_solver_constraint(&constraint) {
            Ok(_) => {},
            Err(e) => {
                return Err(LowerError::Error(e));
            },
        }
        match lower_bool_term(&constraint) {
            Ok(_) => {},
            Err(e) => {
                return Err(e);
            },
        }
        self.asserted_constraints.push(constraint);
        assert(self.asserted() =~= old(self).asserted().push(constraint@));
        Ok(())
    }

    /// Clears the session, keeping its timeout.
    pub fn reset(&mut self)
        ensures
            final(self).timeout() == old(self).timeout(),
            final(self).level() == 0,
            final(self).asserted() == Seq::<Expr>::empty(),
            final(self).saved() == Seq::<Seq<Expr>>::empty(),
            final(self).last_checked() == Seq::<Expr>::empty(),
            final(self).fits(),
    {
        self.assertion_level = 0;
        self.asserted_constraints = Vec::new();
        self.constraint_stack = Vec::new();
        self.last_checked_constraints = Vec::new();
        assert(self.asserted() =~= Seq::<Expr>::empty());
        assert(self.saved() =~= Seq::<Seq<Expr>>::empty());
        assert(self.last_checked() =~= Seq::<Expr>::empty());
    }

    /// Reacts to an error: a corrupted state is reset, resource exhaustion
    /// is answered with advice to reset, other errors need nothing.
    pub fn attempt_error_recovery(&mut self, error: &SymExError) -> (r: SymExResult<()>)
        ensures
            error is StateCorruption ==> r is Ok && final(self).level() == 0 && final(self).asserted()
                == Seq::<Expr>::empty() && final(self).saved() == Seq::<Seq<Expr>>::empty()
                && final(self).last_checked() == Seq::<Expr>::empty() && final(self).timeout()
                == old(self).timeout() && final(self).fits(),
            error is ResourceExhaustion ==> (r matches Err(SymExError::SolverError(m)) && m@
                == "Resource exhaustion detected. Consider calling reset() to clear solver state."@)
                && *final(self) == *old(self),
            !(error is StateCorruption) && !(error is ResourceExhaustion) ==> r is Ok && *final(self)
                == *old(self),
    {
        match error {
            SymExError::ResourceExhaustion(_) => Err(
                SymExError::SolverError(
                    String::from_str("Resource exhaustion detected. Consider calling reset() to clear solver state."),
                ),
            ),
            SymExError::StateCorruption(_) => {
                self.reset();
                Ok(())
            },
            _ => Ok(()),
        }
    }

    /// Readies a satisfiability check of `constraints` against the asserted
    /// ones: records them as the last checked, checks each, and lowers the
    /// asserted constraints and then the asked ones. With nothing asserted
    /// and nothing asked the answer is satisfiable without a solver.
    #[verifier::rlimit(60)]
    pub fn prepare_check(&mut self, constraints: &[SymExpr]) -> (r: Result<CheckQuery, CheckFailure>)
        requires
            old(self).fits(),
            all_fit(constraints@),
        ensures
            final(self).fits(),
            final(self).last_checked() == exprs_of(constraints@),
            final(self).asserted() == old(self).asserted(),
            final(self).saved() == old(self).saved(),
            final(self).level() == old(self).level(),
            final(self).timeout() == old(self).timeout(),
            match first_invalid(exprs_of(constraints@)) {
                Some(i) => r matches Err(CheckFailure::Invalid { index, error }) && index == i
                    && solver_constraint_error(constraints@[i]@) == Some(error@),
                None => match first_unlowerable(old(self).asserted()) {
                    Some(i) => r matches Err(CheckFailure::StoredUnlowerable { index, cause }) && index
                        == i && lower_bool(old(self).asserted()[i]) == Err::<BoolT, LowerErr>(cause@),
                    None => match first_unlowerable(exprs_of(constraints@)) {
                        Some(i) => r matches Err(CheckFailure::Unlowerable { index, cause }) && index
                            == i && lower_bool(constraints@[i]@) == Err::<BoolT, LowerErr>(cause@),
                        None => if old(self).asserted().len() == 0 && constraints@.len() == 0 {
                            r matches Ok(CheckQuery::Trivial)
                        } else {
                            r matches Ok(CheckQuery::Query(ts)) && lowered_to(
                                old(self).asserted() + exprs_of(constraints@),
                                ts@,
                            )
                        },
                    },
                },
            },
    {
        self.last_checked_constraints = clone_exprs(constraints);
        proof {
            assert forall|i: int| 0 <= i < self.last_checked_constraints@.len() implies nodes_of(
                (#[trigger] self.last_checked_constraints@[i])@,
            ) <= usize::MAX by {
                assert(self.last_checked_constraints@[i]@ == constraints@[i]@);
            }
        }
        match validate_each(constraints) {
            Ok(_) => {},
            Err((index, error)) => {
                return Err(CheckFailure::Invalid { index, error });
            },
        }
        let mut terms: Vec<BoolTerm> = Vec::new();
        match lower_each(&self.asserted_constraints, &mut terms) {
            Ok(_) => {},
            Err((index, cause)) => {
                assert(self.asserted()[index as int] == self.asserted_constraints@[index as int]@);
                return Err(CheckFailure::StoredUnlowerable { index, cause });
            },
        }
        match lower_each(constraints, &mut terms) {
            Ok(_) => {},
            Err((index, cause)) => {
                return Err(CheckFailure::Unlowerable { index, cause });
            },
        }
        if self.asserted_constraints.len() == 0 && constraints.len() == 0 {
            return Ok(CheckQuery::Trivial);
        }
        proof {
            let all = self.asserted() + exprs_of(constraints@);
            let na = self.asserted_constraints@.len();
            assert forall|k: int| 0 <= k < all.len() implies lower_bool(#[trigger] all[k]) == Ok::<BoolT, LowerErr>(terms@[k]@) by {
                if k < na {
                    assert(all[k] == self.asserted_constraints@[k]@);
                    assert(lower_bool(self.asserted_constraints@[k]@) == Ok::<BoolT, LowerErr>(terms@[0 + k]@));
                } else {
                    let j = k - na;
                    assert(all[k] == constraints@[j]@);
                    assert(lower_bool(constraints@[j]@) == Ok::<BoolT, LowerErr>(terms@[na + j]@));
                }
            }
        }
        Ok(CheckQuery::Query(terms))
    }

    /// The constraints a model is asked for after a check: the asserted ones
    /// followed by the last checked ones.
    pub fn model_constraints(&self) -> (r: Vec<SymExpr>)
        ensures
            exprs_of(r@) == self.asserted() + self.last_checked(),
    {
        let mut all = clone_exprs(&self.asserted_constraints);
        let more = clone_exprs(&self.last_checked_constraints);
        let ghost a = all@;
        let mut i: usize = 0;
        while i < more.len()
            invariant
                i <= more@.len(),
                all@.len() == a.len() + i,
                forall|k: int| 0 <= k < a.len() ==> (#[trigger] all@[k]) == a[k],
                forall|k: int| 0 <= k < i ==> (#[trigger] all@[a.len() + k])@ == more@[k]@,
            decreases more@.len() - i,
        {
            all.push(more[i].clone());
            i = i + 1;
        }
        proof {
            let want = self.asserted() + self.last_checked();
            assert forall|k: int| 0 <= k < want.len() implies exprs_of(all@)[k] == want[k] by {
                if k < a.len() {
                    assert(all@[k] == a[k]);
                    assert(exprs_of(a)[k] == self.asserted()[k]);
                } else {
                    let j = k - a.len();
                    assert(all@[a.len() + j]@ == more@[j]@);
                    assert(exprs_of(more@)[k - a.len()] == self.last_checked()[k - a.len()]);
                }
            }
            assert(exprs_of(all@) =~= want);
        }
        all
    }
}

/// `b` is `a` with a backtracking level opened.
pub open spec fn level_opened(a: SolverState, b: SolverState) -> bool {
    &&& b.level() == a.level() + 1
    &&& b.saved() == a.saved().push(a.asserted())
    &&& b.asserted() == a.asserted()
    &&& b.last_checked() == a.last_checked()
    &&& b.timeout() == a.timeout()
}

/// `b` is `a` with its innermost backtracking level closed.
pub open spec fn level_closed(a: SolverState, b: SolverState) -> bool {
    &&& a.level() > 0
    &&& a.saved().len() > 0
    &&& b.level() == a.level() - 1
    &&& b.asserted() == a.saved().last()
    &&& b.saved() == a.saved().drop_last()
    &&& b.last_checked() == a.last_checked()
    &&& b.timeout() == a.timeout()
}

/// Closing a level undoes opening it: whatever was asserted in between,
/// the asserted constraints, the level and the saved lists are those from
/// before the level was opened.
pub proof fn lemma_pop_undoes_push(s0: SolverState, s1: SolverState, s2: SolverState, s3: SolverState)
    requires
        level_opened(s0, s1),
        s2.level() == s1.level(),
        s2.saved() == s1.saved(),
        level_closed(s2, s3),
    ensures
        s3.asserted() == s0.asserted(),
        s3.level() == s0.level(),
        s3.saved() == s0.saved(),
{
    assert(s1.saved().drop_last() =~= s0.saved());
}

/// `ts` are the boolean lowerings of `v`, one for one.
pub open spec fn lowered_to(v: Seq<Expr>, ts: Seq<BoolTerm>) -> bool {
    &&& ts.len() == v.len()
    &&& forall|k: int| 0 <= k < v.len() ==> lower_bool(#[trigger] v[k]) == Ok::<BoolT, LowerErr>(ts[k]@)
}

fn validate_each(v: &[SymExpr]) -> (r: Result<(), (usize, SymExError)>)
    requires
        all_fit(v@),
    ensures
        match r {
            Ok(_) => first_invalid(exprs_of(v@)) is None,
            Err((i, e)) => i < v@.len() && first_invalid(exprs_of(v@)) == Some(i as int) && solver_constraint_error(
                v@[i as int]@,
            ) == Some(e@),
        },
{
    let mut i: usize = 0;
    while i < v.len()
        invariant
            i <= v@.len(),
            all_fit(v@),
            forall|k: int| 0 <= k < i ==> (#[trigger] solver_constraint_error(v@[k]@)) is None,
        decreases v@.len() - i,
    {
        match validate_solver_constraint(&v[i]) {
            Ok(_) => {},
            Err(e) => {
                proof {
                    let ev = exprs_of(v@);
                    assert forall|j: int| 0 <= j < i implies (#[trigger] solver_constraint_error(ev[j])) is None by {
                        assert(ev[j] == v@[j]@);
                    }
                    assert(ev[i as int] == v@[i as int]@);
                    lemma_first_index(ev, |x: Expr| solver_constraint_error(x) is None, i as int);
                }
                return Err((i, e));
            },
        }
        i = i + 1;
    }
    proof {
        let ev = exprs_of(v@);
        assert forall|j: int| 0 <= j < ev.len() implies (#[trigger] solver_constraint_error(ev[j])) is None by {
            assert(ev[j] == v@[j]@);
        }
    }
    Ok(())
}

/// The sorts recorded over a list of constraints.
fn infer_each(v: &[SymExpr]) -> (r: SortMap)
    ensures
        r@ == infer_all(exprs_of(v@), Map::empty()),
{
    let mut types = SortMap::new();
    let mut i: usize = 0;
    assert(exprs_of(v@).skip(0) =~= exprs_of(v@));
    while i < v.len()
        invariant
            i <= v@.len(),
            infer_all(exprs_of(v@), Map::empty()) == infer_all(exprs_of(v@).skip(i as int), types@),
        decreases v@.len() - i,
    {
        let ghost before = types@;
        infer_variable_types(&v[i], &mut types);
        proof {
            let rest = exprs_of(v@).skip(i as int);
            assert(rest[0] == v@[i as int]@);
            assert(rest.drop_first() =~= exprs_of(v@).skip(i + 1));
        }
        i = i + 1;
    }
    proof {
        assert(exprs_of(v@).skip(v@.len() as int) =~= Seq::<Expr>::empty());
    }
    types
}

/// Readies a model query for `constraints`: their boolean lowerings, their
/// variables in order, and the sort each variable's uses show.
pub fn model_query(constraints: &[SymExpr]) -> (r: Result<ModelQuery, LowerError>)
    ensures
        match first_unlowerable(exprs_of(constraints@)) {
            Some(i) => r matches Err(e) && lower_bool(constraints@[i]@) == Err::<BoolT, LowerErr>(e@),
            None => r matches Ok(q) && lowered_to(exprs_of(constraints@), q.terms@) && strictly_sorted(
                views_of(q.variables@),
            ) && views_of(q.variables@).to_set() == vars_of_all(exprs_of(constraints@))
                && q.sorts@ == infer_all(exprs_of(constraints@), Map::empty()),
        },
{
    let variables = get_constraint_variables(constraints);
    let sorts = infer_each(constraints);
    let mut terms: Vec<BoolTerm> = Vec::new();
    match lower_each(constraints, &mut terms) {
        Ok(_) => {},
        Err((_, cause)) => {
            return Err(cause);
        },
    }
    proof {
        let ev = exprs_of(constraints@);
        assert forall|k: int| 0 <= k < ev.len() implies lower_bool(#[trigger] ev[k]) == Ok::<BoolT, LowerErr>(terms@[k]@) by {
            assert(ev[k] == constraints@[k]@);
            assert(lower_bool(constraints@[k]@) == Ok::<BoolT, LowerErr>(terms@[0 + k]@));
        }
    }
    Ok(ModelQuery { terms, variables, sorts })
}

/// Whether a check's answer counts as satisfiable: unknown counts as not.
pub fn is_satisfiable_answer(r: SatResult) -> (b: bool)
    ensures
        b == (r == SatResult::Sat),
{
    r == SatResult::Sat
}

/// Whether a check's answer counts as unsatisfiable: unknown counts as not.
pub fn is_unsatisfiable_answer(r: SatResult) -> (b: bool)
    ensures
        b == (r == SatResult::Unsat),
{
    r == SatResult::Unsat
}

} // verus!
