//! The constraint and variable store of one run: registered symbolic
//! variables, path constraints, and caches of solver answers keyed by the
//! constraint list they answer.
use vstd::prelude::*;
use crate::error::{ErrorV, SymExError, SymExResult};
use crate::expressions::{depth_of, expr_eq, nodes_of, BinOp, CVal, ConstValue, Expr, SymExpr, UnOp};
use crate::fmt::{decimal_nat, push_decimal};
use crate::name_map::NameMap;
use crate::smt::vars_of;
use crate::solver::{exprs_of, Model, SatResult};
use crate::text::{push_text, str_lt, string_from_chars, strictly_sorted, views_of};
use crate::validate::{ascii_error, check_result, string_operations_error};

verus! {

/// What is known of a registered variable.
#[derive(Debug, Clone)]
pub struct TypeInfo {
    pub type_label: String,
    pub bit_width: Option<usize>,
    pub is_signed: bool,
    pub creation_site: Option<String>,
}

impl TypeInfo {
    /// The information of a string variable.
    pub fn string(creation_site: Option<String>) -> (r: Self)
        ensures
            r.type_label@ == "string"@,
            r.bit_width is None,
            !r.is_signed,
            r.creation_site == creation_site,
    {
        TypeInfo { type_label: String::from_str("string"), bit_width: None, is_signed: false, creation_site }
    }
}

/// Sizes and counters of the caches.
#[derive(Debug, Clone, Copy)]
pub struct CacheStats {
    pub sat_cache_size: usize,
    pub model_cache_size: usize,
    pub cache_hits: usize,
    pub cache_misses: usize,
}

/// A valid variable name: an ASCII letter or `_`, then ASCII letters,
/// digits and `_`.
pub open spec fn valid_variable_name(n: Seq<char>) -> bool {
    &&& n.len() > 0
    &&& (('a' <= n[0] <= 'z') || ('A' <= n[0] <= 'Z') || n[0] == '_')
    &&& forall|i: int| 1 <= i < n.len() ==> {
        let c = #[trigger] n[i];
        ('a' <= c <= 'z') || ('A' <= c <= 'Z') || ('0' <= c <= '9') || c == '_'
    }
}

/// The error adding a constraint meets, if any: a variable that is not
/// registered (the first in sorted order), excessive depth or size, an
/// invalid string operation, a non-ASCII string constant.
pub open spec fn constraint_error(e: Expr, registered: Set<Seq<char>>) -> Option<ErrorV> {
    let unbound = vars_of(e).filter(|v: Seq<char>| !registered.contains(v));
    if exists|v: Seq<char>| #[trigger] unbound.contains(v) {
        Some(ErrorV::UnboundVariable(least_name(unbound)))
    } else if depth_of(e) > 100 {
        Some(ErrorV::ResourceExhaustion("Constraint depth exceeds maximum limit (100)"@))
    } else if nodes_of(e) > 10000 {
        Some(ErrorV::ResourceExhaustion("Constraint complexity exceeds maximum limit (10000 nodes)"@))
    } else if string_operations_error(e) is Some {
        string_operations_error(e)
    } else {
        ascii_error(e)
    }
}

/// The least of a finite non-empty set of names in the order of `str`.
pub open spec fn least_name(s: Set<Seq<char>>) -> Seq<char> {
    choose|x: Seq<char>| s.contains(x) && forall|y: Seq<char>| #[trigger] s.contains(y) && y != x ==> str_lt(x, y)
}

/// A cache: constraint lists with an answer each, no list twice.
pub open spec fn distinct_keys<T>(entries: Seq<(Seq<Expr>, T)>) -> bool {
    forall|i: int, j: int| 0 <= i < j < entries.len() ==> (#[trigger] entries[i]).0 != (#[trigger] entries[j]).0
}

/// The symbolic variables and path constraints of a run, with caches of
/// solver answers.
#[derive(Debug)]
pub struct SymExManager {
    variable_counter: usize,
    path_constraints: Vec<SymExpr>,
    variable_registry: NameMap<TypeInfo>,
    sat_cache: Vec<(Vec<SymExpr>, SatResult)>,
    model_cache: Vec<(Vec<SymExpr>, Option<Model>)>,
    cache_hits: usize,
    cache_misses: usize,
}

pub open spec fn sat_view(e: (Vec<SymExpr>, SatResult)) -> (Seq<Expr>, SatResult) {
    (exprs_of(e.0@), e.1)
}

pub open spec fn model_view(e: (Vec<SymExpr>, Option<Model>)) -> (Seq<Expr>, Option<Map<Seq<char>, CVal>>) {
    (
        exprs_of(e.0@),
        match e.1 {
            Some(m) => Some(m@),
            None => None,
        },
    )
}

impl SymExManager {
    pub closed spec fn counter(&self) -> usize {
        self.variable_counter
    }

    pub closed spec fn constraints(&self) -> Seq<Expr> {
        exprs_of(self.path_constraints@)
    }

    pub closed spec fn registry(&self) -> Map<Seq<char>, TypeInfo> {
        self.variable_registry@
    }

    pub closed spec fn sat_entries(&self) -> Seq<(Seq<Expr>, SatResult)> {
        self.sat_cache@.map_values(|e: (Vec<SymExpr>, SatResult)| sat_view(e))
    }

    pub closed spec fn model_entries(&self) -> Seq<(Seq<Expr>, Option<Map<Seq<char>, CVal>>)> {
        self.model_cache@.map_values(|e: (Vec<SymExpr>, Option<Model>)| model_view(e))
    }

    pub closed spec fn hits(&self) -> usize {
        self.cache_hits
    }

    pub closed spec fn misses(&self) -> usize {
        self.cache_misses
    }

    /// The caches hold each constraint list once and well-formed models.
    pub closed spec fn wf(&self) -> bool {
        &&& distinct_keys(self.sat_entries())
        &&& distinct_keys(self.model_entries())
        &&& forall|i: int| 0 <= i < self.model_cache@.len() ==> match (#[trigger] self.model_cache@[i]).1 {
            Some(m) => m.assignments.wf(),
            None => true,
        }
    }

    /// An empty store.
    pub fn new() -> (r: Self)
        ensures
            r.wf(),
            r.counter() == 0,
            r.constraints() == Seq::<Expr>::empty(),
            r.registry() == Map::<Seq<char>, TypeInfo>::empty(),
            r.sat_entries().len() == 0,
            r.model_entries().len() == 0,
            r.hits() == 0,
            r.misses() == 0,
    {
        let r = SymExManager {
            variable_counter: 0,
            path_constraints: Vec::new(),
            variable_registry: NameMap::new(),
            sat_cache: Vec::new(),
            model_cache: Vec::new(),
            cache_hits: 0,
            cache_misses: 0,
        };
        assert(r.constraints() =~= Seq::<Expr>::empty());
        r
    }

    /// A fresh variable name: the type name, `_`, and a counter that then
    /// moves on (wrapping at the end of its range).
    pub fn fresh_variable(&mut self, kind: &str) -> (r: String)
        ensures
            r@ == kind@ + "_"@ + decimal_nat(old(self).counter() as nat),
            final(self).counter() == old(self).counter().wrapping_add(1),
            final(self).constraints() == old(self).constraints(),
            final(self).registry() == old(self).registry(),
            final(self).sat_entries() == old(self).sat_entries(),
            final(self).model_entries() == old(self).model_entries(),
            final(self).hits() == old(self).hits(),
            final(self).misses() == old(self).misses(),
            final(self).wf() == old(self).wf(),
    {
        let id = self.variable_counter;
        self.variable_counter = self.variable_counter.wrapping_add(1);
        let mut out: Vec<char> = Vec::new();
        push_text(&mut out, kind);
        push_text(&mut out, "_");
        push_decimal(&mut out, id as u64);
        string_from_chars(&out)
    }
}

/// Whether `name` is a valid variable name.
pub fn is_valid_variable_name(name: &str) -> (r: bool)
    ensures
        r == valid_variable_name(name@),
{
    let cs = crate::text::chars_of(name);
    if cs.len() == 0 {
        return false;
    }
    let first = cs[0];
    if !(('a' <= first && first <= 'z') || ('A' <= first && first <= 'Z') || first == '_') {
        return false;
    }
    let mut i: usize = 1;
    while i < cs.len()
        invariant
            1 <= i <= cs@.len(),
            cs@ == name@,
            forall|k: int| 1 <= k < i ==> {
                let c = #[trigger] cs@[k];
                ('a' <= c <= 'z') || ('A' <= c <= 'Z') || ('0' <= c <= '9') || c == '_'
            },
        decreases cs@.len() - i,
    {
        let c = cs[i];
        if !(('a' <= c && c <= 'z') || ('A' <= c && c <= 'Z') || ('0' <= c && c <= '9') || c == '_') {
            return false;
        }
        i = i + 1;
    }
    true
}

/// Why registering `name` fails, if it does: an invalid name, or a name
/// already registered.
pub open spec fn registration_error(registered: Set<Seq<char>>, name: Seq<char>) -> Option<ErrorV> {
    if !valid_variable_name(name) {
        Some(ErrorV::InvalidOperation("Invalid variable name: "@ + name))
    } else if registered.contains(name) {
        Some(ErrorV::DuplicateVariable(name))
    } else {
        None
    }
}

/// A name registered once cannot be registered again: the second
/// registration fails with `DuplicateVariable`.
pub proof fn lemma_second_registration_fails(registry: Map<Seq<char>, TypeInfo>, name: Seq<char>, info: TypeInfo)
    requires
        registration_error(registry.dom(), name) is None,
    ensures
        registration_error(registry.insert(name, info).dom(), name) == Some(ErrorV::DuplicateVariable(name)),
{
}

/// Storing an answer for a constraint list and looking the list up finds
/// that answer, unless a constraint of the list holds a NaN constant (such a
/// list never matches itself).
pub proof fn lemma_stored_answer_found<T>(entries: Seq<(Seq<Expr>, T)>, k: Seq<Expr>, v: T)
    requires
        distinct_keys(entries),
        lists_match(k, k),
    ensures
        cache_hit(cache_store(entries, k, v), k) matches Some(i) && cache_store(entries, k, v)[i].1 == v,
{
    let n = cache_store(entries, k, v);
    lemma_store_distinct(entries, k, v);
    match find_entry(entries, k) {
        Some(i) => {
            lemma_find_unique(n, k, i);
        },
        None => {
            lemma_find_unique(n, k, entries.len() as int);
        },
    }
}

proof fn lemma_least_name(s: Set<Seq<char>>, x: Seq<char>)
    requires
        s.contains(x),
        forall|y: Seq<char>| #[trigger] s.contains(y) && y != x ==> str_lt(x, y),
    ensures
        least_name(s) == x,
{
    let l = least_name(s);
    assert(s.contains(l) && forall|y: Seq<char>| #[trigger] s.contains(y) && y != l ==> str_lt(l, y));
    if l != x {
        assert(str_lt(x, l));
        assert(str_lt(l, x));
        crate::text::lemma_bytes_lt_asymmetric(crate::text::utf8_of(x), crate::text::utf8_of(l));
    }
}

impl SymExManager {
    /// Registers a variable. Fails with `InvalidOperation` for an invalid
    /// name and with `DuplicateVariable` for a registered one.
    pub fn register_variable(&mut self, name: String, type_info: TypeInfo) -> (r: SymExResult<()>)
        ensures
            check_result(r, registration_error(old(self).registry().dom(), name@)),
            r is Ok ==> final(self).registry() == old(self).registry().insert(name@, type_info),
            r is Err ==> final(self).registry() == old(self).registry(),
            final(self).counter() == old(self).counter(),
            final(self).constraints() == old(self).constraints(),
            final(self).sat_entries() == old(self).sat_entries(),
            final(self).model_entries() == old(self).model_entries(),
            final(self).hits() == old(self).hits(),
            final(self).misses() == old(self).misses(),
            final(self).wf() == old(self).wf(),
    {
        if !is_valid_variable_name(name.as_str()) {
            let mut m: Vec<char> = Vec::new();
            push_text(&mut m, "Invalid variable name: ");
            push_text(&mut m, name.as_str());
            return Err(SymExError::InvalidOperation(string_from_chars(&m)));
        }
        if self.variable_registry.contains(name.as_str()) {
            return Err(SymExError::DuplicateVariable(name));
        }
        self.variable_registry.insert(name, type_info);
        Ok(())
    }

    /// Registers a string variable.
    pub fn register_string_variable(&mut self, name: String) -> (r: SymExResult<()>)
        ensures
            check_result(r, registration_error(old(self).registry().dom(), name@)),
            r is Ok ==> final(self).registry().dom() == old(self).registry().dom().insert(name@)
                && final(self).registry()[name@].type_label@ == "string"@ && final(self).registry()[name@].bit_width is None
                && !final(self).registry()[name@].is_signed && final(self).registry()[name@].creation_site is None,
            r is Ok ==> forall|k: Seq<char>| k != name@ && #[trigger] old(self).registry().contains_key(k)
                ==> final(self).registry()[k] == old(self).registry()[k],
            r is Err ==> final(self).registry() == old(self).registry(),
            final(self).counter() == old(self).counter(),
            final(self).constraints() == old(self).constraints(),
            final(self).sat_entries() == old(self).sat_entries(),
            final(self).model_entries() == old(self).model_entries(),
            final(self).hits() == old(self).hits(),
            final(self).misses() == old(self).misses(),
            final(self).wf() == old(self).wf(),
    {
        self.register_variable(name, TypeInfo::string(None))
    }

    /// What is known of a registered variable.
    pub fn get_variable_info(&self, name: &str) -> (r: Option<&TypeInfo>)
        ensures
            match r {
                Some(t) => self.registry().contains_key(name@) && *t == self.registry()[name@],
                None => !self.registry().contains_key(name@),
            },
    {
        self.variable_registry.get(name)
    }

    /// The registered variable names, sorted.
    pub fn get_registered_variables(&self) -> (r: Vec<String>)
        ensures
            strictly_sorted(views_of(r@)),
            views_of(r@).to_set() == self.registry().dom(),
    {
        self.variable_registry.sorted_names()
    }

    /// The path constraints.
    pub fn get_constraints(&self) -> (r: &[SymExpr])
        ensures
            exprs_of(r@) == self.constraints(),
    {
        self.path_constraints.as_slice()
    }

    /// Empties both caches and zeroes their counters.
    pub fn clear_cache(&mut self)
        ensures
            final(self).sat_entries().len() == 0,
            final(self).model_entries().len() == 0,
            final(self).hits() == 0,
            final(self).misses() == 0,
            final(self).wf(),
            final(self).counter() == old(self).counter(),
            final(self).constraints() == old(self).constraints(),
            final(self).registry() == old(self).registry(),
    {
        self.sat_cache = Vec::new();
        self.model_cache = Vec::new();
        self.cache_hits = 0;
        self.cache_misses = 0;
    }

    /// Removes every path constraint and clears the caches.
    pub fn clear_constraints(&mut self)
        ensures
            final(self).constraints() == Seq::<Expr>::empty(),
            final(self).sat_entries().len() == 0,
            final(self).model_entries().len() == 0,
            final(self).hits() == 0,
            final(self).misses() == 0,
            final(self).wf(),
            final(self).counter() == old(self).counter(),
            final(self).registry() == old(self).registry(),
    {
        self.path_constraints = Vec::new();
        assert(self.constraints() =~= Seq::<Expr>::empty());
        self.clear_cache();
    }

    /// The cache sizes and counters.
    pub fn get_cache_stats(&self) -> (r: CacheStats)
        ensures
            r.sat_cache_size == self.sat_entries().len(),
            r.model_cache_size == self.model_entries().len(),
            r.cache_hits == self.hits(),
            r.cache_misses == self.misses(),
    {
        CacheStats {
            sat_cache_size: self.sat_cache.len(),
            model_cache_size: self.model_cache.len(),
            cache_hits: self.cache_hits,
            cache_misses: self.cache_misses,
        }
    }

    /// Forgets everything: counter, constraints, variables and caches.
    pub fn reset(&mut self)
        ensures
            final(self).counter() == 0,
            final(self).constraints() == Seq::<Expr>::empty(),
            final(self).registry() == Map::<Seq<char>, TypeInfo>::empty(),
            final(self).sat_entries().len() == 0,
            final(self).model_entries().len() == 0,
            final(self).hits() == 0,
            final(self).misses() == 0,
            final(self).wf(),
    {
        self.variable_counter = 0;
        self.path_constraints = Vec::new();
        assert(self.constraints() =~= Seq::<Expr>::empty());
        self.variable_registry.clear();
        self.clear_cache();
    }

    /// Checks a constraint before it joins the path: its variables must be
    /// registered, its depth and size bounded, its string operations and
    /// constants valid.
    fn validate_constraint(&self, constraint: &SymExpr) -> (r: SymExResult<()>)
        requires
            nodes_of(constraint@) <= usize::MAX,
        ensures
            check_result(r, constraint_error(constraint@, self.registry().dom())),
    {
        let vars = constraint.get_variables();
        let ghost reg = self.registry().dom();
        let ghost unbound = vars_of(constraint@).filter(|v: Seq<char>| !reg.contains(v));
        let mut i: usize = 0;
        while i < vars.len()
            invariant
                i <= vars@.len(),
                reg == self.registry().dom(),
                unbound == vars_of(constraint@).filter(|v: Seq<char>| !reg.contains(v)),
                strictly_sorted(views_of(vars@)),
                views_of(vars@).to_set() == vars_of(constraint@),
                forall|k: int| 0 <= k < i ==> reg.contains(#[trigger] views_of(vars@)[k]),
            decreases vars@.len() - i,
        {
            if !self.variable_registry.contains(vars[i].as_str()) {
                proof {
                    let x = vars@[i as int]@;
                    let vs = views_of(vars@);
                    assert(vs[i as int] == x);
                    assert(unbound.contains(x));
                    assert forall|y: Seq<char>| #[trigger] unbound.contains(y) && y != x implies str_lt(x, y) by {
                        assert(vs.to_set().contains(y));
                        let j = choose|j: int| 0 <= j < vs.len() && vs[j] == y;
                        if j < i {
                            assert(reg.contains(vs[j]));
                        } else if j == i {
                        } else {
                            assert(str_lt(vs[i as int], vs[j]));
                        }
                    }
                    lemma_least_name(unbound, x);
                }
                return Err(SymExError::UnboundVariable(vars[i].clone()));
            }
            i = i + 1;
        }
        proof {
            let vs = views_of(vars@);
            assert forall|v: Seq<char>| !(#[trigger] unbound.contains(v)) by {
                if unbound.contains(v) {
                    assert(vs.to_set().contains(v));
                    let j = choose|j: int| 0 <= j < vs.len() && vs[j] == v;
                    assert(reg.contains(vs[j]));
                }
            }
        }
        if constraint.depth() > 100 {
            return Err(SymExError::ResourceExhaustion(String::from_str("Constraint depth exceeds maximum limit (100)")));
        }
        if constraint.node_count() > 10000 {
            return Err(
                SymExError::ResourceExhaustion(
                    String::from_str("Constraint complexity exceeds maximum limit (10000 nodes)"),
                ),
            );
        }
        match constraint.validate_string_operations() {
            Ok(_) => {},
            Err(e) => {
                return Err(e);
            },
        }
        constraint.validate_ascii()
    }

    /// Adds a path constraint after checking it, and clears the caches.
    pub fn add_constraint(&mut self, constraint: SymExpr) -> (r: SymExResult<()>)
        requires
            nodes_of(constraint@) <= usize::MAX,
        ensures
            check_result(r, constraint_error(constraint@, old(self).registry().dom())),
            r is Ok ==> final(self).constraints() == old(self).constraints().push(constraint@)
                && final(self).sat_entries().len() == 0 && final(self).model_entries().len() == 0
                && final(self).hits() == 0 && final(self).misses() == 0 && final(self).wf(),
            r is Err ==> *final(self) == *old(self),
            final(self).registry() == old(self).registry(),
            final(self).counter() == old(self).counter(),
    {
        match self.validate_constraint(&constraint) {
            Ok(_) => {},
            Err(e) => {
                return Err(e);
            },
        }
        self.path_constraints.push(constraint);
        assert(self.constraints() =~= old(self).constraints().push(constraint@));
        self.clear_cache();
        Ok(())
    }
}

// ---------------------------------------------------------------------------
// Caches
// ---------------------------------------------------------------------------

/// The entry of a cache whose constraint list is `k`, if any.
pub open spec fn find_entry<T>(entries: Seq<(Seq<Expr>, T)>, k: Seq<Expr>) -> Option<int> {
    if exists|i: int| 0 <= i < entries.len() && (#[trigger] entries[i]).0 == k {
        Some(choose|i: int| 0 <= i < entries.len() && (#[trigger] entries[i]).0 == k)
    } else {
        None
    }
}

/// Two constraint lists of one length whose constraints are equal one for
/// one as `==` compares them (so never when a NaN constant occurs).
pub open spec fn lists_match(a: Seq<Expr>, b: Seq<Expr>) -> bool {
    a.len() == b.len() && forall|i: int| 0 <= i < a.len() ==> expr_eq(#[trigger] a[i], b[i])
}

/// The cache entry that answers `k`: the entry for `k`, if its list
/// matches `k`.
pub open spec fn cache_hit<T>(entries: Seq<(Seq<Expr>, T)>, k: Seq<Expr>) -> Option<int> {
    match find_entry(entries, k) {
        Some(i) => if lists_match(entries[i].0, k) {
            Some(i)
        } else {
            None
        },
        None => None,
    }
}

/// A cache with the answer for `k` stored: the entry for `k` replaced, or
/// a new entry at the end.
pub open spec fn cache_store<T>(entries: Seq<(Seq<Expr>, T)>, k: Seq<Expr>, v: T) -> Seq<(Seq<Expr>, T)> {
    match find_entry(entries, k) {
        Some(i) => entries.update(i, (k, v)),
        None => entries.push((k, v)),
    }
}

proof fn lemma_find_unique<T>(entries: Seq<(Seq<Expr>, T)>, k: Seq<Expr>, i: int)
    requires
        distinct_keys(entries),
        0 <= i < entries.len(),
        entries[i].0 == k,
    ensures
        find_entry(entries, k) == Some(i),
{
    let j = choose|j: int| 0 <= j < entries.len() && (#[trigger] entries[j]).0 == k;
    if j != i {
        if j < i {
            assert(entries[j].0 != entries[i].0);
        } else {
            assert(entries[i].0 != entries[j].0);
        }
    }
}

proof fn lemma_store_distinct<T>(entries: Seq<(Seq<Expr>, T)>, k: Seq<Expr>, v: T)
    requires
        distinct_keys(entries),
    ensures
        distinct_keys(cache_store(entries, k, v)),
{
    let n = cache_store(entries, k, v);
    match find_entry(entries, k) {
        Some(i) => {
            assert forall|a: int, b: int| 0 <= a < b < n.len() implies (#[trigger] n[a]).0 != (#[trigger] n[b]).0 by {
                if a == i {
                    assert(entries[b].0 != entries[i].0);
                } else if b == i {
                    assert(entries[a].0 != entries[i].0);
                } else {
                    assert(entries[a].0 != entries[b].0);
                }
            }
        },
        None => {
            assert forall|a: int, b: int| 0 <= a < b < n.len() implies (#[trigger] n[a]).0 != (#[trigger] n[b]).0 by {
                if b == entries.len() {
                    assert(entries[a].0 != k);
                } else {
                    assert(entries[a].0 != entries[b].0);
                }
            }
        },
    }
}

fn identical_values(a: &ConstValue, b: &ConstValue) -> (r: bool)
    ensures
        r == (a@ == b@),
{
    match (a, b) {
        (ConstValue::U64(x), ConstValue::U64(y)) => *x == *y,
        (ConstValue::I64(x), ConstValue::I64(y)) => *x == *y,
        (ConstValue::F64(x), ConstValue::F64(y)) => *x == *y,
        (ConstValue::Bool(x), ConstValue::Bool(y)) => *x == *y,
        (ConstValue::U8(x), ConstValue::U8(y)) => *x == *y,
        (ConstValue::U32(x), ConstValue::U32(y)) => *x == *y,
        (ConstValue::I32(x), ConstValue::I32(y)) => *x == *y,
        (ConstValue::F32(x), ConstValue::F32(y)) => *x == *y,
        (ConstValue::String(x), ConstValue::String(y)) => *x == *y,
        _ => false,
    }
}

/// Whether two expressions are the same tree (constants compared by their
/// bits).
pub fn identical(a: &SymExpr, b: &SymExpr) -> (r: bool)
    ensures
        r == (a@ == b@),
    decreases a,
{
    match (a, b) {
        (SymExpr::Variable(x), SymExpr::Variable(y)) => *x == *y,
        (SymExpr::Constant(x), SymExpr::Constant(y)) => identical_values(x, y),
        (SymExpr::BinaryOp(o1, a1, b1), SymExpr::BinaryOp(o2, a2, b2)) => *o1 == *o2 && identical(a1, a2)
            && identical(b1, b2),
        (SymExpr::UnaryOp(o1, a1), SymExpr::UnaryOp(o2, a2)) => *o1 == *o2 && identical(a1, a2),
        (SymExpr::Conditional(a1, b1, c1), SymExpr::Conditional(a2, b2, c2)) => identical(a1, a2)
            && identical(b1, b2) && identical(c1, c2),
        (SymExpr::StrSubstring(a1, b1, c1), SymExpr::StrSubstring(a2, b2, c2)) => identical(a1, a2)
            && identical(b1, b2) && identical(c1, c2),
        (SymExpr::StrContains(a1, b1), SymExpr::StrContains(a2, b2)) => identical(a1, a2) && identical(b1, b2),
        (SymExpr::StrPrefixOf(a1, b1), SymExpr::StrPrefixOf(a2, b2)) => identical(a1, a2) && identical(b1, b2),
        (SymExpr::StrSuffixOf(a1, b1), SymExpr::StrSuffixOf(a2, b2)) => identical(a1, a2) && identical(b1, b2),
        (SymExpr::StrReplace(a1, b1, c1), SymExpr::StrReplace(a2, b2, c2)) => identical(a1, a2)
            && identical(b1, b2) && identical(c1, c2),
        (SymExpr::StrReplaceAll(a1, b1, c1), SymExpr::StrReplaceAll(a2, b2, c2)) => identical(a1, a2)
            && identical(b1, b2) && identical(c1, c2),
        (SymExpr::StrAt(a1, b1), SymExpr::StrAt(a2, b2)) => identical(a1, a2) && identical(b1, b2),
        (SymExpr::StrIndexOf(a1, b1, c1), SymExpr::StrIndexOf(a2, b2, c2)) => identical(a1, a2)
            && identical(b1, b2) && identical(c1, c2),
        _ => false,
    }
}

fn identical_lists(a: &[SymExpr], b: &[SymExpr]) -> (r: bool)
    ensures
        r == (exprs_of(a@) == exprs_of(b@)),
{
    if a.len() != b.len() {
        assert(exprs_of(a@).len() != exprs_of(b@).len());
        return false;
    }
    let mut i: usize = 0;
    while i < a.len()
        invariant
            i <= a@.len(),
            a@.len() == b@.len(),
            forall|k: int| 0 <= k < i ==> (#[trigger] a@[k])@ == b@[k]@,
        decreases a@.len() - i,
    {
        if !identical(&a[i], &b[i]) {
            assert(exprs_of(a@)[i as int] != exprs_of(b@)[i as int]);
            return false;
        }
        i = i + 1;
    }
    assert(exprs_of(a@) =~= exprs_of(b@));
    true
}

fn matching_lists(a: &[SymExpr], b: &[SymExpr]) -> (r: bool)
    ensures
        r == lists_match(exprs_of(a@), exprs_of(b@)),
{
    if a.len() != b.len() {
        return false;
    }
    let mut i: usize = 0;
    while i < a.len()
        invariant
            i <= a@.len(),
            a@.len() == b@.len(),
            forall|k: int| 0 <= k < i ==> expr_eq(#[trigger] exprs_of(a@)[k], exprs_of(b@)[k]),
        decreases a@.len() - i,
    {
        if !a[i].equals(&b[i]) {
            assert(!expr_eq(exprs_of(a@)[i as int], exprs_of(b@)[i as int]));
            return false;
        }
        assert(expr_eq(exprs_of(a@)[i as int], exprs_of(b@)[i as int]));
        i = i + 1;
    }
    true
}

impl SymExManager {
    fn sat_index(&self, cs: &[SymExpr]) -> (r: Option<usize>)
        requires
            self.wf(),
        ensures
            match r {
                Some(i) => find_entry(self.sat_entries(), exprs_of(cs@)) == Some(i as int),
                None => find_entry(self.sat_entries(), exprs_of(cs@)) is None,
            },
    {
        let mut i: usize = 0;
        while i < self.sat_cache.len()
            invariant
                i <= self.sat_cache@.len(),
                self.wf(),
                forall|k: int| 0 <= k < i ==> (#[trigger] self.sat_entries()[k]).0 != exprs_of(cs@),
            decreases self.sat_cache@.len() - i,
        {
            if identical_lists(self.sat_cache[i].0.as_slice(), cs) {
                proof {
                    lemma_find_unique(self.sat_entries(), exprs_of(cs@), i as int);
                }
                return Some(i);
            }
            i = i + 1;
        }
        None
    }

    fn model_index(&self, cs: &[SymExpr]) -> (r: Option<usize>)
        requires
            self.wf(),
        ensures
            match r {
                Some(i) => find_entry(self.model_entries(), exprs_of(cs@)) == Some(i as int),
                None => find_entry(self.model_entries(), exprs_of(cs@)) is None,
            },
    {
        let mut i: usize = 0;
        while i < self.model_cache.len()
            invariant
                i <= self.model_cache@.len(),
                self.wf(),
                forall|k: int| 0 <= k < i ==> (#[trigger] self.model_entries()[k]).0 != exprs_of(cs@),
            decreases self.model_cache@.len() - i,
        {
            if identical_lists(self.model_cache[i].0.as_slice(), cs) {
                proof {
                    lemma_find_unique(self.model_entries(), exprs_of(cs@), i as int);
                }
                return Some(i);
            }
            i = i + 1;
        }
        None
    }

    /// Looks up the satisfiability of `cs` in the cache. A hit counts as a
    /// hit and answers whether the cached result is `Sat`; otherwise the
    /// lookup counts as a miss and answers `None`.
    pub fn lookup_sat(&mut self, cs: &[SymExpr]) -> (r: Option<bool>)
        requires
            old(self).wf(),
            old(self).hits() < usize::MAX,
            old(self).misses() < usize::MAX,
        ensures
            match cache_hit(old(self).sat_entries(), exprs_of(cs@)) {
                Some(i) => r == Some(old(self).sat_entries()[i].1 == SatResult::Sat) && final(self).hits()
                    == old(self).hits() + 1 && final(self).misses() == old(self).misses(),
                None => r is None && final(self).misses() == old(self).misses() + 1 && final(self).hits()
                    == old(self).hits(),
            },
            final(self).wf(),
            final(self).sat_entries() == old(self).sat_entries(),
            final(self).model_entries() == old(self).model_entries(),
            final(self).counter() == old(self).counter(),
            final(self).constraints() == old(self).constraints(),
            final(self).registry() == old(self).registry(),
    {
        match self.sat_index(cs) {
            Some(i) => {
                if matching_lists(self.sat_cache[i].0.as_slice(), cs) {
                    self.cache_hits = self.cache_hits + 1;
                    return Some(self.sat_cache[i].1 == SatResult::Sat);
                }
            },
            None => {},
        }
        self.cache_misses = self.cache_misses + 1;
        None
    }

    /// Stores the satisfiability of `cs`.
    pub fn store_sat(&mut self, cs: &[SymExpr], result: SatResult)
        requires
            old(self).wf(),
        ensures
            final(self).wf(),
            final(self).sat_entries() == cache_store(old(self).sat_entries(), exprs_of(cs@), result),
            final(self).model_entries() == old(self).model_entries(),
            final(self).hits() == old(self).hits(),
            final(self).misses() == old(self).misses(),
            final(self).counter() == old(self).counter(),
            final(self).constraints() == old(self).constraints(),
            final(self).registry() == old(self).registry(),
    {
        let key = crate::solver::clone_exprs(cs);
        let ghost old_entries = self.sat_entries();
        match self.sat_index(cs) {
            Some(i) => {
                self.sat_cache.set(i, (key, result));
            },
            None => {
                self.sat_cache.push((key, result));
            },
        }
        proof {
            assert(self.sat_entries() =~= cache_store(old_entries, exprs_of(cs@), result));
            lemma_store_distinct(old_entries, exprs_of(cs@), result);
        }
    }

    /// Looks up a model for `cs` in the cache; a hit counts as a hit.
    pub fn lookup_model(&mut self, cs: &[SymExpr]) -> (r: Option<Option<Model>>)
        requires
            old(self).wf(),
            old(self).hits() < usize::MAX,
        ensures
            match cache_hit(old(self).model_entries(), exprs_of(cs@)) {
                Some(i) => final(self).hits() == old(self).hits() + 1 && match old(self).model_entries()[i].1 {
                    Some(m) => r matches Some(Some(x)) && x@ == m && x.assignments.wf(),
                    None => r matches Some(None),
                },
                None => r is None && final(self).hits() == old(self).hits(),
            },
            final(self).wf(),
            final(self).misses() == old(self).misses(),
            final(self).sat_entries() == old(self).sat_entries(),
            final(self).model_entries() == old(self).model_entries(),
            final(self).counter() == old(self).counter(),
            final(self).constraints() == old(self).constraints(),
            final(self).registry() == old(self).registry(),
    {
        match self.model_index(cs) {
            Some(i) => {
                if matching_lists(self.model_cache[i].0.as_slice(), cs) {
                    self.cache_hits = self.cache_hits + 1;
                    let found = match &self.model_cache[i].1 {
                        Some(m) => Some(m.copy()),
                        None => None,
                    };
                    return Some(found);
                }
            },
            None => {},
        }
        None
    }

    /// Counts a cache miss.
    pub fn count_miss(&mut self)
        requires
            old(self).misses() < usize::MAX,
        ensures
            final(self).misses() == old(self).misses() + 1,
            final(self).hits() == old(self).hits(),
            final(self).wf() == old(self).wf(),
            final(self).sat_entries() == old(self).sat_entries(),
            final(self).model_entries() == old(self).model_entries(),
            final(self).counter() == old(self).counter(),
            final(self).constraints() == old(self).constraints(),
            final(self).registry() == old(self).registry(),
    {
        self.cache_misses = self.cache_misses + 1;
    }

    /// Stores the model (or its absence) for `cs`.
    pub fn store_model(&mut self, cs: &[SymExpr], model: Option<Model>)
        requires
            old(self).wf(),
            model matches Some(m) ==> m.assignments.wf(),
        ensures
            final(self).wf(),
            final(self).model_entries() == cache_store(
                old(self).model_entries(),
                exprs_of(cs@),
                match model {
                    Some(m) => Some(m@),
                    None => None,
                },
            ),
            final(self).sat_entries() == old(self).sat_entries(),
            final(self).hits() == old(self).hits(),
            final(self).misses() == old(self).misses(),
            final(self).counter() == old(self).counter(),
            final(self).constraints() == old(self).constraints(),
            final(self).registry() == old(self).registry(),
    {
        let key = crate::solver::clone_exprs(cs);
        let ghost old_entries = self.model_entries();
        let ghost old_cache = self.model_cache@;
        let ghost mv = match &model {
            Some(m) => Some(m@),
            None => None::<Map<Seq<char>, CVal>>,
        };
        match self.model_index(cs) {
            Some(i) => {
                self.model_cache.set(i, (key, model));
            },
            None => {
                self.model_cache.push((key, model));
            },
        }
        proof {
            assert(self.model_entries() =~= cache_store(old_entries, exprs_of(cs@), mv));
            lemma_store_distinct(old_entries, exprs_of(cs@), mv);
            assert forall|i: int| 0 <= i < self.model_cache@.len() implies match (#[trigger] self.model_cache@[i]).1 {
                Some(m) => m.assignments.wf(),
                None => true,
            } by {
                if i < old_cache.len() && self.model_cache@[i] == old_cache[i] {
                    assert(match old_cache[i].1 {
                        Some(m) => m.assignments.wf(),
                        None => true,
                    });
                }
            }
        }
    }
}

// ---------------------------------------------------------------------------
// Concrete evaluation of path constraints
// ---------------------------------------------------------------------------

/// The `u64` value of a numeric expression under a concrete assignment:
/// `Some(Some(v))` a value, `Some(None)` no value (an unassigned variable,
/// an operation outside integer arithmetic, a zero divisor, a shift of 64
/// or more), `None` when negating 2^63, whose signed negation overflows.
/// Operands are evaluated left to right; the first without a value decides.
pub open spec fn concrete_u64(e: Expr, env: Map<Seq<char>, u64>) -> Option<Option<u64>>
    decreases e,
{
    match e {
        Expr::Const(c) => Some(
            match c {
                CVal::U64(v) => Some(v),
                CVal::U32(v) => Some(v as u64),
                CVal::U8(v) => Some(v as u64),
                CVal::I64(v) => Some(v as u64),
                CVal::I32(v) => Some(v as u64),
                _ => None,
            },
        ),
        Expr::Var(n) => Some(if env.contains_key(n) { Some(env[n]) } else { None }),
        Expr::Bin(op, l, r) => match concrete_u64(*l, env) {
            None => None,
            Some(None) => Some(None),
            Some(Some(a)) => match concrete_u64(*r, env) {
                None => None,
                Some(None) => Some(None),
                Some(Some(b)) => Some(
                    match op {
                        BinOp::Add => Some(a.wrapping_add(b)),
                        BinOp::Sub => Some(a.wrapping_sub(b)),
                        BinOp::Mul => Some(a.wrapping_mul(b)),
                        BinOp::Div => if b != 0 { Some(a / b) } else { None },
                        BinOp::Mod => if b != 0 { Some(a % b) } else { None },
                        BinOp::BitAnd => Some(a & b),
                        BinOp::BitOr => Some(a | b),
                        BinOp::BitXor => Some(a ^ b),
                        BinOp::Shl => if b < 64 { Some(a.wrapping_shl(b as u32)) } else { None },
                        BinOp::Shr => if b < 64 { Some(a.wrapping_shr(b as u32)) } else { None },
                        _ => None,
                    },
                ),
            },
        },
        Expr::Un(op, x) => match concrete_u64(*x, env) {
            None => None,
            Some(None) => Some(None),
            Some(Some(v)) => if op == UnOp::Neg {
                if v == 0x8000_0000_0000_0000u64 {
                    None
                } else {
                    Some(Some(0u64.wrapping_sub(v)))
                }
            } else {
                Some(None)
            },
        },
        Expr::Cond(c, t, f) => match concrete_truth(*c, env) {
            None => None,
            Some(None) => Some(None),
            Some(Some(true)) => concrete_u64(*t, env),
            Some(Some(false)) => concrete_u64(*f, env),
        },
        _ => Some(None),
    }
}

/// The truth of a constraint under a concrete assignment: boolean
/// constants, comparisons of `u64` values, negation and conditionals.
pub open spec fn concrete_truth(e: Expr, env: Map<Seq<char>, u64>) -> Option<Option<bool>>
    decreases e,
{
    match e {
        Expr::Const(CVal::Bool(b)) => Some(Some(b)),
        Expr::Bin(op, l, r) => match concrete_u64(*l, env) {
            None => None,
            Some(None) => Some(None),
            Some(Some(a)) => match concrete_u64(*r, env) {
                None => None,
                Some(None) => Some(None),
                Some(Some(b)) => Some(
                    match op {
                        BinOp::Eq => Some(a == b),
                        BinOp::Ne => Some(a != b),
                        BinOp::Lt => Some(a < b),
                        BinOp::Le => Some(a <= b),
                        BinOp::Gt => Some(a > b),
                        BinOp::Ge => Some(a >= b),
                        _ => None,
                    },
                ),
            },
        },
        Expr::Un(UnOp::Not, x) => match concrete_truth(*x, env) {
            None => None,
            Some(None) => Some(None),
            Some(Some(b)) => Some(Some(!b)),
        },
        Expr::Cond(c, t, f) => match concrete_truth(*c, env) {
            None => None,
            Some(None) => Some(None),
            Some(Some(true)) => concrete_truth(*t, env),
            Some(Some(false)) => concrete_truth(*f, env),
        },
        _ => Some(None),
    }
}

/// The quick verdict on a list of constraints under a concrete assignment:
/// `Some(false)` at the first constraint that is false, `Some(None)` at the
/// first that has no truth value, `Some(true)` if all hold; `None` when the
/// walk meets an overflowing negation first.
pub open spec fn concrete_verdict(cs: Seq<Expr>, env: Map<Seq<char>, u64>) -> Option<Option<bool>>
    decreases cs.len(),
{
    if cs.len() == 0 {
        Some(Some(true))
    } else {
        match concrete_truth(cs[0], env) {
            None => None,
            Some(Some(true)) => concrete_verdict(cs.drop_first(), env),
            Some(Some(false)) => Some(Some(false)),
            Some(None) => Some(None),
        }
    }
}

fn evaluate_expr_to_u64(expr: &SymExpr, values: &NameMap<u64>) -> (r: Option<Option<u64>>)
    ensures
        r == concrete_u64(expr@, values@),
    decreases expr,
{
    match expr {
        SymExpr::Constant(c) => Some(
            match c {
                ConstValue::U64(v) => Some(*v),
                ConstValue::U32(v) => Some(*v as u64),
                ConstValue::U8(v) => Some(*v as u64),
                ConstValue::I64(v) => Some(#[verifier::truncate] (*v as u64)),
                ConstValue::I32(v) => Some(#[verifier::truncate] (*v as u64)),
                _ => None,
            },
        ),
        SymExpr::Variable(n) => Some(
            match values.get(n.as_str()) {
                Some(v) => Some(*v),
                None => None,
            },
        ),
        SymExpr::BinaryOp(op, l, r) => {
            let a = match evaluate_expr_to_u64(l, values) {
                None => {
                    return None;
                },
                Some(None) => {
                    return Some(None);
                },
                Some(Some(a)) => a,
            };
            let b = match evaluate_expr_to_u64(r, values) {
                None => {
                    return None;
                },
                Some(None) => {
                    return Some(None);
                },
                Some(Some(b)) => b,
            };
            Some(
                match op {
                    BinOp::Add => Some(a.wrapping_add(b)),
                    BinOp::Sub => Some(a.wrapping_sub(b)),
                    BinOp::Mul => Some(a.wrapping_mul(b)),
                    BinOp::Div => if b != 0 { Some(a / b) } else { None },
                    BinOp::Mod => if b != 0 { Some(a % b) } else { None },
                    BinOp::BitAnd => Some(a & b),
                    BinOp::BitOr => Some(a | b),
                    BinOp::BitXor => Some(a ^ b),
                    BinOp::Shl => if b < 64 { Some(a.wrapping_shl(b as u32)) } else { None },
                    BinOp::Shr => if b < 64 { Some(a.wrapping_shr(b as u32)) } else { None },
                    _ => None,
                },
            )
        },
        SymExpr::UnaryOp(op, x) => {
            let v = match evaluate_expr_to_u64(x, values) {
                None => {
                    return None;
                },
                Some(None) => {
                    return Some(None);
                },
                Some(Some(v)) => v,
            };
            match op {
                UnOp::Neg => if v == 0x8000_0000_0000_0000u64 {
                    None
                } else {
                    Some(Some(0u64.wrapping_sub(v)))
                },
                _ => Some(None),
            }
        },
        SymExpr::Conditional(c, t, f) => match evaluate_constraint_concrete(c, values) {
            None => None,
            Some(None) => Some(None),
            Some(Some(true)) => evaluate_expr_to_u64(t, values),
            Some(Some(false)) => evaluate_expr_to_u64(f, values),
        },
        _ => Some(None),
    }
}

fn evaluate_constraint_concrete(constraint: &SymExpr, values: &NameMap<u64>) -> (r: Option<Option<bool>>)
    ensures
        r == concrete_truth(constraint@, values@),
    decreases constraint,
{
    match constraint {
        SymExpr::Constant(ConstValue::Bool(b)) => Some(Some(*b)),
        SymExpr::BinaryOp(op, l, r) => {
            let a = match evaluate_expr_to_u64(l, values) {
                None => {
                    return None;
                },
                Some(None) => {
                    return Some(None);
                },
                Some(Some(a)) => a,
            };
            let b = match evaluate_expr_to_u64(r, values) {
                None => {
                    return None;
                },
                Some(None) => {
                    return Some(None);
                },
                Some(Some(b)) => b,
            };
            Some(
                match op {
                    BinOp::Eq => Some(a == b),
                    BinOp::Ne => Some(a != b),
                    BinOp::Lt => Some(a < b),
                    BinOp::Le => Some(a <= b),
                    BinOp::Gt => Some(a > b),
                    BinOp::Ge => Some(a >= b),
                    _ => None,
                },
            )
        },
        SymExpr::UnaryOp(UnOp::Not, x) => match evaluate_constraint_concrete(x, values) {
            None => None,
            Some(None) => Some(None),
            Some(Some(b)) => Some(Some(!b)),
        },
        SymExpr::Conditional(c, t, f) => match evaluate_constraint_concrete(c, values) {
            None => None,
            Some(None) => Some(None),
            Some(Some(true)) => evaluate_constraint_concrete(t, values),
            Some(Some(false)) => evaluate_constraint_concrete(f, values),
        },
        _ => Some(None),
    }
}

impl SymExManager {
    /// A quick check of the path constraints under concrete `u64` values:
    /// `Some(false)` if one is false, `None` if one cannot be decided this
    /// way, `Some(true)` if all hold.
    pub fn fast_check_satisfiable_with_concrete(&self, concrete_values: &NameMap<u64>) -> (r: Option<bool>)
        requires
            concrete_verdict(self.constraints(), concrete_values@) is Some,
        ensures
            Some(r) == concrete_verdict(self.constraints(), concrete_values@),
    {
        let mut i: usize = 0;
        assert(self.constraints().skip(0) =~= self.constraints());
        while i < self.path_constraints.len()
            invariant
                i <= self.path_constraints@.len(),
                concrete_verdict(self.constraints(), concrete_values@) is Some,
                concrete_verdict(self.constraints(), concrete_values@) == concrete_verdict(
                    self.constraints().skip(i as int),
                    concrete_values@,
                ),
            decreases self.path_constraints@.len() - i,
        {
            let ghost rest = self.constraints().skip(i as int);
            assert(rest[0] == self.path_constraints@[i as int]@);
            match evaluate_constraint_concrete(&self.path_constraints[i], concrete_values) {
                Some(Some(true)) => {},
                Some(Some(false)) => {
                    return Some(false);
                },
                _ => {
                    return None;
                },
            }
            assert(rest.drop_first() =~= self.constraints().skip(i + 1));
            i = i + 1;
        }
        Some(true)
    }
}

} // verus!
