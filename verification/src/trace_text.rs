//! Parts of the engine's state as text: the decisions taken, the branches
//! recorded and the alternatives to spawn of a run, and the variables a
//! manager has registered.
use vstd::prelude::*;
use crate::decision::Decision;
use crate::fmt::{decimal_nat, push_decimal};
use crate::manager::{SymExManager, TypeInfo};
use crate::runtime::{AlternativeDecision, BranchRecord};
use crate::text::{push_chars, push_text, strictly_sorted, string_from_chars, views_of};

verus! {

/// A decision as its debug text: `Bool(true)`, `Choice { arity: 3, index: 1 }`.
pub open spec fn decision_text(d: Decision) -> Seq<char> {
    match d {
        Decision::Bool(b) => "Bool("@ + (if b { "true"@ } else { "false"@ }) + ")"@,
        Decision::Choice { arity, index } => "Choice { arity: "@ + decimal_nat(arity as nat) + ", index: "@
            + decimal_nat(index as nat) + " }"@,
    }
}

/// The first `k` decisions, one numbered line each.
pub open spec fn decision_lines(ds: Seq<Decision>, k: nat) -> Seq<char>
    decreases k,
{
    if k == 0 || k > ds.len() {
        seq![]
    } else {
        decision_lines(ds, (k - 1) as nat) + "  ["@ + decimal_nat((k - 1) as nat) + "] "@ + decision_text(
            ds[k - 1],
        ) + "\n"@
    }
}

/// Names separated by `, `.
pub open spec fn joined(vs: Seq<Seq<char>>) -> Seq<char>
    decreases vs.len(),
{
    if vs.len() == 0 {
        seq![]
    } else if vs.len() == 1 {
        vs[0]
    } else {
        joined(vs.drop_last()) + ", "@ + vs.last()
    }
}

/// Line `i` of the branch trace.
pub open spec fn branch_line(b: BranchRecord, i: nat) -> Seq<char> {
    "  ["@ + decimal_nat(i) + "] "@ + b.site_file@ + ":"@ + decimal_nat(b.site_line as nat) + ":"@
        + decimal_nat(b.site_column as nat) + " - "@ + "chose "@ + (if b.chosen { "true"@ } else { "false"@ })
        + ", "@ + (if b.was_forced { "forced"@ } else { "concolic"@ }) + (if b.vars@.len() == 0 {
        Seq::<char>::empty()
    } else {
        ", vars: ["@ + joined(views_of(b.vars@)) + "]"@
    }) + "\n"@
}

/// The first `k` branch records, one numbered line each.
pub open spec fn branch_lines(bs: Seq<BranchRecord>, k: nat) -> Seq<char>
    decreases k,
{
    if k == 0 || k > bs.len() {
        seq![]
    } else {
        branch_lines(bs, (k - 1) as nat) + branch_line(bs[k - 1], (k - 1) as nat)
    }
}

/// The first `k` alternatives, one numbered line each.
pub open spec fn alternative_lines(alts: Seq<AlternativeDecision>, k: nat) -> Seq<char>
    decreases k,
{
    if k == 0 || k > alts.len() {
        seq![]
    } else {
        alternative_lines(alts, (k - 1) as nat) + "  ["@ + decimal_nat((k - 1) as nat)
            + "] At decision index "@ + decimal_nat(alts[k - 1].index as nat) + ": "@ + decision_text(
            alts[k - 1].decision,
        ) + "\n"@
    }
}

/// The three trace sections, each under its title, with a placeholder
/// line when it is empty.
pub open spec fn trace_text_spec(
    ds: Seq<Decision>,
    bs: Seq<BranchRecord>,
    alts: Seq<AlternativeDecision>,
) -> Seq<char> {
    "Decision Trace:\n---------------\n"@ + (if ds.len() == 0 {
        "  (no decisions taken)\n"@
    } else {
        decision_lines(ds, ds.len())
    }) + "\n"@ + "Branch Trace:\n-------------\n"@ + (if bs.len() == 0 {
        "  (no branches taken)\n"@
    } else {
        branch_lines(bs, bs.len())
    }) + "\n"@ + "Alternative Decisions (to spawn):\n----------------------------------\n"@ + (
    if alts.len() == 0 {
        "  (no alternatives)\n"@
    } else {
        alternative_lines(alts, alts.len())
    })
}

fn push_decision(out: &mut Vec<char>, d: Decision)
    ensures
        final(out)@ == old(out)@ + decision_text(d),
{
    match d {
        Decision::Bool(b) => {
            push_text(out, "Bool(");
            push_text(out, if b { "true" } else { "false" });
            push_text(out, ")");
        },
        Decision::Choice { arity, index } => {
            push_text(out, "Choice { arity: ");
            push_decimal(out, arity as u64);
            push_text(out, ", index: ");
            push_decimal(out, index as u64);
            push_text(out, " }");
        },
    }
}

fn push_joined(out: &mut Vec<char>, vs: &Vec<String>)
    ensures
        final(out)@ == old(out)@ + joined(views_of(vs@)),
{
    let ghost start = out@;
    let ghost all = views_of(vs@);
    let mut k: usize = 0;
    while k < vs.len()
        invariant
            k <= vs@.len(),
            all == views_of(vs@),
            all.len() == vs@.len(),
            out@ == start + joined(all.take(k as int)),
        decreases vs@.len() - k,
    {
        if k > 0 {
            push_text(out, ", ");
        }
        push_text(out, vs[k].as_str());
        proof {
            let t = all.take(k + 1);
            assert(t.drop_last() =~= all.take(k as int));
            assert(t.last() == vs@[k as int]@);
            if k == 0 {
                assert(joined(t) == t[0]);
                assert(joined(all.take(0)) =~= Seq::<char>::empty());
            }
        }
        k = k + 1;
    }
    assert(all.take(vs@.len() as int) =~= all);
}

fn push_branch_line(out: &mut Vec<char>, b: &BranchRecord, i: usize)
    ensures
        final(out)@ == old(out)@ + branch_line(*b, i as nat),
{
    let mut line: Vec<char> = Vec::new();
    push_text(&mut line, "  [");
    assert(line@ =~= "  ["@);
    push_decimal(&mut line, i as u64);
    push_text(&mut line, "] ");
    push_text(&mut line, b.site_file.as_str());
    push_text(&mut line, ":");
    push_decimal(&mut line, b.site_line as u64);
    push_text(&mut line, ":");
    push_decimal(&mut line, b.site_column as u64);
    push_text(&mut line, " - ");
    push_text(&mut line, "chose ");
    push_text(&mut line, if b.chosen { "true" } else { "false" });
    push_text(&mut line, ", ");
    push_text(&mut line, if b.was_forced { "forced" } else { "concolic" });
    let ghost head = line@;
    if b.vars.len() > 0 {
        let mut tail: Vec<char> = Vec::new();
        push_text(&mut tail, ", vars: [");
        assert(tail@ =~= ", vars: ["@);
        push_joined(&mut tail, &b.vars);
        push_text(&mut tail, "]");
        push_chars(&mut line, tail.as_slice());
    } else {
        assert(line@ =~= head + Seq::<char>::empty());
    }
    push_text(&mut line, "\n");
    assert(line@ == branch_line(*b, i as nat));
    push_chars(out, line.as_slice());
}

/// The decision, branch and alternative sections of a run's state, as
/// `trace_text_spec` lays them out.
pub fn format_trace(ds: &Vec<Decision>, bs: &Vec<BranchRecord>, alts: &Vec<AlternativeDecision>) -> (r: String)
    ensures
        r@ == trace_text_spec(ds@, bs@, alts@),
{
    let mut out: Vec<char> = Vec::new();
    push_text(&mut out, "Decision Trace:\n---------------\n");
    let ghost s0 = out@;
    if ds.len() == 0 {
        push_text(&mut out, "  (no decisions taken)\n");
    } else {
        let mut k: usize = 0;
        while k < ds.len()
            invariant
                k <= ds@.len(),
                out@ == s0 + decision_lines(ds@, k as nat),
            decreases ds@.len() - k,
        {
            push_text(&mut out, "  [");
            push_decimal(&mut out, k as u64);
            push_text(&mut out, "] ");
            push_decision(&mut out, ds[k]);
            push_text(&mut out, "\n");
            k = k + 1;
        }
    }
    push_text(&mut out, "\n");
    push_text(&mut out, "Branch Trace:\n-------------\n");
    let ghost s1 = out@;
    if bs.len() == 0 {
        push_text(&mut out, "  (no branches taken)\n");
    } else {
        let mut k: usize = 0;
        while k < bs.len()
            invariant
                k <= bs@.len(),
                out@ == s1 + branch_lines(bs@, k as nat),
            decreases bs@.len() - k,
        {
            push_branch_line(&mut out, &bs[k], k);
            k = k + 1;
        }
    }
    push_text(&mut out, "\n");
    push_text(&mut out, "Alternative Decisions (to spawn):\n----------------------------------\n");
    let ghost s2 = out@;
    if alts.len() == 0 {
        push_text(&mut out, "  (no alternatives)\n");
    } else {
        let mut k: usize = 0;
        while k < alts.len()
            invariant
                k <= alts@.len(),
                out@ == s2 + alternative_lines(alts@, k as nat),
            decreases alts@.len() - k,
        {
            push_text(&mut out, "  [");
            push_decimal(&mut out, k as u64);
            push_text(&mut out, "] At decision index ");
            push_decimal(&mut out, alts[k].index as u64);
            push_text(&mut out, ": ");
            push_decision(&mut out, alts[k].decision);
            push_text(&mut out, "\n");
            k = k + 1;
        }
    }
    let r = string_from_chars(out.as_slice());
    assert(r@ =~= trace_text_spec(ds@, bs@, alts@));
    r
}

/// The line of a registered variable: its name and kind, its width and
/// signedness when it has a width, and where it was created when known.
pub open spec fn variable_line(name: Seq<char>, info: TypeInfo) -> Seq<char> {
    "  "@ + name + ": "@ + info.type_label@ + (match info.bit_width {
        Some(w) => " ("@ + decimal_nat(w as nat) + " bits"@ + (if info.is_signed {
            ", signed"@
        } else {
            ", unsigned"@
        }) + ")"@,
        None => Seq::<char>::empty(),
    }) + (match info.creation_site {
        Some(site) => " [created at: "@ + site@ + "]"@,
        None => Seq::<char>::empty(),
    }) + "\n"@
}

/// The lines of the first `k` of the named variables.
pub open spec fn variable_lines(names: Seq<Seq<char>>, reg: Map<Seq<char>, TypeInfo>, k: nat) -> Seq<char>
    decreases k,
{
    if k == 0 || k > names.len() {
        seq![]
    } else {
        variable_lines(names, reg, (k - 1) as nat) + variable_line(names[k - 1], reg[names[k - 1]])
    }
}

/// The variables section, over the names in increasing order.
pub open spec fn variables_text_spec(names: Seq<Seq<char>>, reg: Map<Seq<char>, TypeInfo>) -> Seq<char> {
    "Symbolic Variables:\n-------------------\n"@ + if names.len() == 0 {
        "  (no variables registered)\n"@
    } else {
        variable_lines(names, reg, names.len())
    }
}

fn push_variable_line(out: &mut Vec<char>, name: &str, info: &TypeInfo)
    ensures
        final(out)@ == old(out)@ + variable_line(name@, *info),
{
    let mut line: Vec<char> = Vec::new();
    push_text(&mut line, "  ");
    assert(line@ =~= "  "@);
    push_text(&mut line, name);
    push_text(&mut line, ": ");
    push_text(&mut line, info.type_label.as_str());
    let ghost head = line@;
    match info.bit_width {
        Some(w) => {
            let mut part: Vec<char> = Vec::new();
            push_text(&mut part, " (");
            assert(part@ =~= " ("@);
            push_decimal(&mut part, w as u64);
            push_text(&mut part, " bits");
            push_text(&mut part, if info.is_signed { ", signed" } else { ", unsigned" });
            push_text(&mut part, ")");
            push_chars(&mut line, part.as_slice());
        },
        None => {
            assert(line@ =~= head + Seq::<char>::empty());
        },
    }
    let ghost mid = line@;
    match &info.creation_site {
        Some(site) => {
            let mut part: Vec<char> = Vec::new();
            push_text(&mut part, " [created at: ");
            assert(part@ =~= " [created at: "@);
            push_text(&mut part, site.as_str());
            push_text(&mut part, "]");
            push_chars(&mut line, part.as_slice());
        },
        None => {
            assert(line@ =~= mid + Seq::<char>::empty());
        },
    }
    push_text(&mut line, "\n");
    assert(line@ == variable_line(name@, *info));
    push_chars(out, line.as_slice());
}

/// The variables a manager has registered, in increasing order of name,
/// as `variables_text_spec` lays them out.
pub fn format_variables(mgr: &SymExManager) -> (r: String)
    ensures
        exists|names: Seq<Seq<char>>|
            #[trigger] strictly_sorted(names) && names.to_set() == mgr.registry().dom() && r@
                == variables_text_spec(names, mgr.registry()),
{
    let names = mgr.get_registered_variables();
    let ghost nv = views_of(names@);
    let mut out: Vec<char> = Vec::new();
    push_text(&mut out, "Symbolic Variables:\n-------------------\n");
    let ghost s0 = out@;
    if names.len() == 0 {
        push_text(&mut out, "  (no variables registered)\n");
    } else {
        let mut k: usize = 0;
        while k < names.len()
            invariant
                k <= names@.len(),
                nv == views_of(names@),
                nv.to_set() == mgr.registry().dom(),
                out@ == s0 + variable_lines(nv, mgr.registry(), k as nat),
            decreases names@.len() - k,
        {
            assert(nv[k as int] == names@[k as int]@);
            assert(nv.to_set().contains(nv[k as int]));
            match mgr.get_variable_info(names[k].as_str()) {
                Some(info) => {
                    push_variable_line(&mut out, names[k].as_str(), info);
                },
                None => {
                    assert(false);
                },
            }
            k = k + 1;
        }
    }
    let r = string_from_chars(out.as_slice());
    assert(r@ =~= variables_text_spec(nv, mgr.registry()));
    assert(strictly_sorted(nv));
    r
}

} // verus!
