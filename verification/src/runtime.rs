//! Per-run decision state of the symbolic execution runtime.
//!
//! During exploration every branch on a symbolic predicate, and every n-ary
//! choice, consumes one entry of a unified decision stream. Entries forced by
//! the work item being replayed are taken as they are; the others follow the
//! concrete (concolic) outcome and register their alternatives as new work.
//! Running out of budget aborts the run.
use vstd::prelude::*;
use crate::decision::Decision;
use crate::expressions::{ConstValue, CVal};
use crate::value_map::{ValueMap, entries_map};

verus! {

/// Whether comparisons record branches.
#[derive(Debug, Clone, Copy, PartialEq, Eq, Structural)]
pub enum RuntimeMode {
    /// No exploration: comparisons behave concretely.
    Concrete,
    /// Exploration: comparisons consume decisions and record branches.
    Explore,
}

/// Runtime settings for one run.
#[derive(Debug, Clone, Copy)]
pub struct RuntimeConfig {
    pub mode: RuntimeMode,
    /// Abort the run once this many alternatives are waiting to be spawned.
    pub max_new_branches_to_record: usize,
    /// Abort the run after this many decision points.
    pub max_total_branches: Option<usize>,
}

impl Default for RuntimeConfig {
    fn default() -> (r: Self)
        ensures
            r.mode == RuntimeMode::Concrete,
            r.max_new_branches_to_record == usize::MAX,
            r.max_total_branches is None,
    {
        RuntimeConfig {
            mode: RuntimeMode::Concrete,
            max_new_branches_to_record: usize::MAX,
            max_total_branches: None,
        }
    }
}

/// A recorded binary branch.
#[derive(Debug, Clone)]
pub struct BranchRecord {
    /// Index in the decision stream.
    pub decision_index: usize,
    /// Identifier of the branch site.
    pub site_id: u64,
    pub site_file: String,
    pub site_line: u32,
    pub site_column: u32,
    pub chosen: bool,
    pub was_forced: bool,
    pub predicate_hash: u64,
    pub vars: Vec<String>,
}

/// A recorded n-ary choice.
#[derive(Debug, Clone)]
pub struct ScheduleRecord {
    /// Index in the decision stream.
    pub decision_index: usize,
    pub site_id: u64,
    pub site_file: String,
    pub site_line: u32,
    pub site_column: u32,
    pub arity: u32,
    pub chosen_index: u32,
    pub was_forced: bool,
}

/// Why a run stopped early.
#[derive(Debug, Clone, Copy, PartialEq, Eq, Structural)]
pub enum RunAbort {
    BudgetReached,
    PathUnsat,
}

/// A decision not taken, to be explored as new work.
#[derive(Debug, Clone, Copy, PartialEq, Eq, Structural)]
pub struct AlternativeDecision {
    /// Index in the decision stream.
    pub index: usize,
    pub decision: Decision,
    pub fork_site_id: u64,
    pub fork_branch_index: Option<usize>,
}

/// The decision and trace state of one run.
pub struct RunState {
    pub config: RuntimeConfig,
    pub forced_decisions: Vec<Decision>,
    pub decision_index: usize,
    pub decisions: Vec<Decision>,
    pub branch_ordinal: usize,
    pub inputs: ValueMap,
    pub branches: Vec<BranchRecord>,
    pub schedules: Vec<ScheduleRecord>,
    pub spawn_alternatives: Vec<AlternativeDecision>,
}

/// The decision forced at `idx` for a binary branch, if any.
pub open spec fn forced_bool(forced: Seq<Decision>, idx: int) -> Option<bool> {
    if 0 <= idx < forced.len() {
        match forced[idx] {
            Decision::Bool(b) => Some(b),
            _ => None,
        }
    } else {
        None
    }
}

/// The choice forced at `idx` for an `arity`-way choice, if any.
pub open spec fn forced_choice(forced: Seq<Decision>, idx: int, arity: u32) -> Option<u32> {
    if 0 <= idx < forced.len() {
        match forced[idx] {
            Decision::Choice { arity: a, index } => if a == arity && index < arity {
                Some(index)
            } else {
                None
            },
            _ => None,
        }
    } else {
        None
    }
}

/// A concolic choice brought into `0..arity` (0 when `arity` is 0).
pub open spec fn clamp_choice(concolic: u32, arity: u32) -> u32 {
    let top = if arity == 0 { 0u32 } else { (arity - 1) as u32 };
    if concolic < top { concolic } else { top }
}

/// The alternatives of an `arity`-way choice that took `chosen`: every other
/// index, in increasing order.
pub open spec fn choice_alternatives(idx: usize, arity: u32, chosen: u32, site_id: u64) -> Seq<
    AlternativeDecision,
> {
    let n: nat = if chosen < arity { (arity - 1) as nat } else { arity as nat };
    Seq::new(
        n,
        |t: int|
            AlternativeDecision {
                index: idx,
                decision: Decision::Choice {
                    arity,
                    index: (if t < chosen { t } else { t + 1 }) as u32,
                },
                fork_site_id: site_id,
                fork_branch_index: None,
            },
    )
}

/// Every alternative names a decision that was taken, and differs from it.
pub open spec fn alternatives_fit(decisions: Seq<Decision>, alts: Seq<AlternativeDecision>) -> bool {
    forall|k: int|
        0 <= k < alts.len() ==> (#[trigger] alts[k]).index < decisions.len() && alts[k].decision
            != decisions[alts[k].index as int]
}

/// Alternatives for a new decision `x` at the end of the stream, each
/// different from `x`, keep the alternatives fitting.
proof fn lemma_fit_extend(d: Seq<Decision>, alts: Seq<AlternativeDecision>, x: Decision, more: Seq<AlternativeDecision>)
    requires
        alternatives_fit(d, alts),
        forall|k: int| 0 <= k < more.len() ==> (#[trigger] more[k]).index == d.len() && more[k].decision != x,
    ensures
        alternatives_fit(d.push(x), alts + more),
{
    let all = alts + more;
    assert forall|k: int| 0 <= k < all.len() implies (#[trigger] all[k]).index < d.push(x).len()
        && all[k].decision != d.push(x)[all[k].index as int] by {
        if k < alts.len() {
            assert(all[k] == alts[k]);
        } else {
            assert(all[k] == more[k - alts.len()]);
        }
    }
}

/// The alternatives of a choice, and any prefix of them, name the choice's
/// decision and differ from it.
proof fn lemma_choice_alternatives_differ(idx: usize, arity: u32, chosen: u32, site_id: u64, p: Seq<AlternativeDecision>)
    requires
        chosen < arity || arity == 0,
        p.len() <= choice_alternatives(idx, arity, chosen, site_id).len(),
        forall|k: int| 0 <= k < p.len() ==> p[k] == choice_alternatives(idx, arity, chosen, site_id)[k],
    ensures
        forall|k: int| 0 <= k < p.len() ==> (#[trigger] p[k]).index == idx && p[k].decision != (Decision::Choice {
            arity,
            index: chosen,
        }),
{
    let alts = choice_alternatives(idx, arity, chosen, site_id);
    assert forall|k: int| 0 <= k < p.len() implies (#[trigger] p[k]).index == idx && p[k].decision
        != (Decision::Choice { arity, index: chosen }) by {
        assert(p[k] == alts[k]);
        let v: int = if k < chosen { k } else { k + 1 };
        assert(v < arity);
        assert(v as u32 as int == v);
    }
}

impl RunState {
    /// The state's invariant between decisions: the decision index counts
    /// the decisions taken, and every alternative names one of them and
    /// differs from it.
    pub open spec fn wf(&self) -> bool {
        &&& self.decision_index == self.decisions@.len()
        &&& alternatives_fit(self.decisions@, self.spawn_alternatives@)
    }

    /// A state in concrete mode with nothing recorded.
    pub fn new() -> (r: Self)
        ensures
            r.config.mode == RuntimeMode::Concrete,
            r.config.max_new_branches_to_record == usize::MAX,
            r.config.max_total_branches is None,
            r.forced_decisions@.len() == 0,
            r.decision_index == 0,
            r.decisions@.len() == 0,
            r.branch_ordinal == 0,
            r.inputs.wf(),
            r.inputs@ == Map::<Seq<char>, CVal>::empty(),
            r.branches@.len() == 0,
            r.schedules@.len() == 0,
            r.spawn_alternatives@.len() == 0,
            r.wf(),
    {
        RunState {
            config: RuntimeConfig::default(),
            forced_decisions: Vec::new(),
            decision_index: 0,
            decisions: Vec::new(),
            branch_ordinal: 0,
            inputs: ValueMap::new(),
            branches: Vec::new(),
            schedules: Vec::new(),
            spawn_alternatives: Vec::new(),
        }
    }

    /// Starts a run that replays `forced_decisions` with the given inputs.
    pub fn reset_for_run(&mut self, forced_decisions: Vec<Decision>, inputs: ValueMap)
        ensures
            final(self).config == old(self).config,
            final(self).forced_decisions@ == forced_decisions@,
            final(self).decision_index == 0,
            final(self).decisions@.len() == 0,
            final(self).branch_ordinal == 0,
            final(self).inputs == inputs,
            final(self).branches@.len() == 0,
            final(self).schedules@.len() == 0,
            final(self).spawn_alternatives@.len() == 0,
            final(self).wf(),
    {
        self.decision_index = 0;
        self.branch_ordinal = 0;
        self.forced_decisions = forced_decisions;
        self.inputs = inputs;
        self.decisions = Vec::new();
        self.branches = Vec::new();
        self.schedules = Vec::new();
        self.spawn_alternatives = Vec::new();
    }

    /// The concolic value of an input.
    pub fn concolic_value(&self, name: &str) -> (r: Option<ConstValue>)
        requires
            self.inputs.wf(),
        ensures
            match r {
                Some(v) => self.inputs@.contains_key(name@) && self.inputs@[name@] == v@,
                None => !self.inputs@.contains_key(name@),
            },
    {
        match self.inputs.get(name) {
            Some(v) => Some(v.clone()),
            None => None,
        }
    }

    /// The concolic value of an integer input as a `u64` (signed values
    /// reinterpreted, narrower ones widened).
    pub fn concolic_value_for_var_u64(&self, name: &str) -> (r: Option<u64>)
        requires
            self.inputs.wf(),
        ensures
            r == (if self.inputs@.contains_key(name@) {
                match self.inputs@[name@] {
                    CVal::U64(v) => Some(v),
                    CVal::U32(v) => Some(v as u64),
                    CVal::U8(v) => Some(v as u64),
                    CVal::I64(v) => Some(v as u64),
                    CVal::I32(v) => Some(v as u64),
                    _ => None,
                }
            } else {
                None
            }),
    {
        match self.inputs.get(name) {
            Some(ConstValue::U64(v)) => Some(*v),
            Some(ConstValue::U32(v)) => Some(*v as u64),
            Some(ConstValue::U8(v)) => Some(*v as u64),
            Some(ConstValue::I64(v)) => Some(*v as u64),
            Some(ConstValue::I32(v)) => Some(*v as u64),
            _ => None,
        }
    }

    /// Sets the concolic value of an input.
    pub fn set_concolic_value(&mut self, name: String, value: ConstValue)
        requires
            old(self).inputs.wf(),
        ensures
            final(self).inputs.wf(),
            final(self).inputs@ == old(self).inputs@.insert(name@, value@),
    {
        self.inputs.insert(name, value);
    }

    /// Takes over every assignment of a model into the inputs.
    pub fn refresh_inputs_from_model(&mut self, model: &ValueMap)
        requires
            old(self).inputs.wf(),
        ensures
            final(self).inputs.wf(),
            final(self).inputs@ == old(self).inputs@.union_prefer_right(model@),
    {
        let entries = model.entries();
        let mut i: usize = 0;
        let ghost start = self.inputs@;
        while i < entries.len()
            invariant
                i <= entries@.len(),
                self.inputs.wf(),
                self.inputs@ == start.union_prefer_right(entries_map(entries@, i as nat)),
            decreases entries@.len() - i,
        {
            let name = entries[i].0.clone();
            let value = entries[i].1.clone();
            self.inputs.insert(name, value);
            assert(self.inputs@ =~= start.union_prefer_right(entries_map(entries@, (i + 1) as nat)));
            i = i + 1;
        }
    }

    /// The next decision for a binary branch. Outside exploration the
    /// concrete outcome is returned and nothing is recorded. Under
    /// exploration: past the decision budget the run aborts; a forced boolean
    /// decision at this point of the stream is followed, any other outcome is
    /// the concrete one; the decision and the branch are recorded, and an
    /// unforced branch registers its other outcome as an alternative, aborting
    /// the run when the alternatives are already at their limit.
    pub fn next_decision_for_branch(
        &mut self,
        site_id: u64,
        site_file: String,
        site_line: u32,
        site_column: u32,
        predicate_hash: u64,
        vars: Vec<String>,
        concolic_choice: bool,
    ) -> (r: Result<bool, RunAbort>)
        requires
            old(self).decision_index < usize::MAX,
            old(self).branch_ordinal < usize::MAX,
        ensures
            old(self).wf() && r is Ok ==> final(self).wf(),
            old(self).wf() ==> alternatives_fit(final(self).decisions@, final(self).spawn_alternatives@),
            ({
                let o = *old(self);
                let f = *final(self);
                let idx = o.decision_index;
                let (chosen, was_forced) = match forced_bool(o.forced_decisions@, idx as int) {
                    Some(b) => (b, true),
                    None => (concolic_choice, false),
                };
                if o.config.mode != RuntimeMode::Explore {
                    r == Ok::<bool, RunAbort>(concolic_choice) && f == o
                } else if o.config.max_total_branches matches Some(m) && idx >= m {
                    r == Err::<bool, RunAbort>(RunAbort::BudgetReached) && f == o
                } else {
                    &&& f.config == o.config
                    &&& f.forced_decisions == o.forced_decisions
                    &&& f.inputs == o.inputs
                    &&& f.schedules == o.schedules
                    &&& f.decisions@ == o.decisions@.push(Decision::Bool(chosen))
                    &&& f.branches@.len() == o.branches@.len() + 1
                    &&& forall|k: int| 0 <= k < o.branches@.len() ==> f.branches@[k] == o.branches@[k]
                    &&& f.branches@.last() == (BranchRecord {
                        decision_index: idx,
                        site_id,
                        site_file,
                        site_line,
                        site_column,
                        chosen,
                        was_forced,
                        predicate_hash,
                        vars,
                    })
                    &&& if !was_forced && o.spawn_alternatives@.len()
                        >= o.config.max_new_branches_to_record {
                        &&& r == Err::<bool, RunAbort>(RunAbort::BudgetReached)
                        &&& f.spawn_alternatives == o.spawn_alternatives
                        &&& f.decision_index == o.decision_index
                        &&& f.branch_ordinal == o.branch_ordinal
                    } else {
                        &&& r == Ok::<bool, RunAbort>(chosen)
                        &&& f.spawn_alternatives@ == if was_forced {
                            o.spawn_alternatives@
                        } else {
                            o.spawn_alternatives@.push(
                                AlternativeDecision {
                                    index: idx,
                                    decision: Decision::Bool(!chosen),
                                    fork_site_id: site_id,
                                    fork_branch_index: Some(o.branch_ordinal),
                                },
                            )
                        }
                        &&& f.decision_index == idx + 1
                        &&& f.branch_ordinal == o.branch_ordinal + 1
                    }
                }
            }),
    {
        if self.config.mode != RuntimeMode::Explore {
            return Ok(concolic_choice);
        }
        let idx = self.decision_index;
        match self.config.max_total_branches {
            Some(max) => {
                if idx >= max {
                    return Err(RunAbort::BudgetReached);
                }
            },
            None => {},
        }
        let (chosen, was_forced) = if idx < self.forced_decisions.len() {
            match self.forced_decisions[idx] {
                Decision::Bool(b) => (b, true),
                _ => (concolic_choice, false),
            }
        } else {
            (concolic_choice, false)
        };
        self.decisions.push(Decision::Bool(chosen));
        let branch_ord = self.branch_ordinal;
        self.branches.push(
            BranchRecord {
                decision_index: idx,
                site_id,
                site_file,
                site_line,
                site_column,
                chosen,
                was_forced,
                predicate_hash,
                vars,
            },
        );
        if !was_forced {
            if self.spawn_alternatives.len() < self.config.max_new_branches_to_record {
                self.spawn_alternatives.push(
                    AlternativeDecision {
                        index: idx,
                        decision: Decision::Bool(!chosen),
                        fork_site_id: site_id,
                        fork_branch_index: Some(branch_ord),
                    },
                );
            } else {
                proof {
                    if old(self).wf() {
                        lemma_fit_extend(
                            old(self).decisions@,
                            old(self).spawn_alternatives@,
                            Decision::Bool(chosen),
                            Seq::empty(),
                        );
                        assert(old(self).spawn_alternatives@ + Seq::<AlternativeDecision>::empty()
                            =~= self.spawn_alternatives@);
                    }
                }
                return Err(RunAbort::BudgetReached);
            }
        }
        proof {
            if old(self).wf() {
                let more = self.spawn_alternatives@.skip(old(self).spawn_alternatives@.len() as int);
                assert(old(self).spawn_alternatives@ + more =~= self.spawn_alternatives@);
                lemma_fit_extend(old(self).decisions@, old(self).spawn_alternatives@, Decision::Bool(chosen), more);
            }
        }
        self.decision_index = idx + 1;
        self.branch_ordinal = branch_ord + 1;
        Ok(chosen)
    }

    /// The next decision for an `arity`-way choice. Outside exploration the
    /// concrete index is returned and nothing is recorded. Under exploration:
    /// past the decision budget the run aborts; a forced choice of the same
    /// arity and in range is followed, otherwise the concrete index brought
    /// into range; the decision and the choice are recorded, and an unforced
    /// choice registers every other index as an alternative, aborting the run
    /// when the alternatives reach their limit.
    pub fn next_decision_for_choice(
        &mut self,
        site_id: u64,
        site_file: String,
        site_line: u32,
        site_column: u32,
        arity: u32,
        concolic_index: u32,
    ) -> (r: Result<u32, RunAbort>)
        requires
            old(self).decision_index < usize::MAX,
        ensures
            old(self).wf() && r is Ok ==> final(self).wf(),
            old(self).wf() ==> alternatives_fit(final(self).decisions@, final(self).spawn_alternatives@),
            ({
                let o = *old(self);
                let f = *final(self);
                let idx = o.decision_index;
                let (chosen, was_forced) = match forced_choice(o.forced_decisions@, idx as int, arity) {
                    Some(c) => (c, true),
                    None => (clamp_choice(concolic_index, arity), false),
                };
                let alts = choice_alternatives(idx, arity, chosen, site_id);
                let room: int = if o.spawn_alternatives@.len() < o.config.max_new_branches_to_record {
                    o.config.max_new_branches_to_record - o.spawn_alternatives@.len()
                } else {
                    0
                };
                if o.config.mode != RuntimeMode::Explore {
                    r == Ok::<u32, RunAbort>(concolic_index) && f == o
                } else if o.config.max_total_branches matches Some(m) && idx >= m {
                    r == Err::<u32, RunAbort>(RunAbort::BudgetReached) && f == o
                } else {
                    &&& f.config == o.config
                    &&& f.forced_decisions == o.forced_decisions
                    &&& f.inputs == o.inputs
                    &&& f.branches == o.branches
                    &&& f.branch_ordinal == o.branch_ordinal
                    &&& f.decisions@ == o.decisions@.push(Decision::Choice { arity, index: chosen })
                    &&& f.schedules@.len() == o.schedules@.len() + 1
                    &&& forall|k: int| 0 <= k < o.schedules@.len() ==> f.schedules@[k] == o.schedules@[k]
                    &&& f.schedules@.last() == (ScheduleRecord {
                        decision_index: idx,
                        site_id,
                        site_file,
                        site_line,
                        site_column,
                        arity,
                        chosen_index: chosen,
                        was_forced,
                    })
                    &&& if !was_forced && alts.len() > room {
                        &&& r == Err::<u32, RunAbort>(RunAbort::BudgetReached)
                        &&& f.spawn_alternatives@ == o.spawn_alternatives@ + alts.take(room)
                        &&& f.decision_index == idx
                    } else {
                        &&& r == Ok::<u32, RunAbort>(chosen)
                        &&& f.spawn_alternatives@ == if was_forced {
                            o.spawn_alternatives@
                        } else {
                            o.spawn_alternatives@ + alts
                        }
                        &&& f.decision_index == idx + 1
                    }
                }
            }),
    {
        if self.config.mode != RuntimeMode::Explore {
            return Ok(concolic_index);
        }
        let idx = self.decision_index;
        match self.config.max_total_branches {
            Some(max) => {
                if idx >= max {
                    return Err(RunAbort::BudgetReached);
                }
            },
            None => {},
        }
        let top: u32 = if arity == 0 { 0 } else { arity - 1 };
        let clamped: u32 = if concolic_index < top { concolic_index } else { top };
        let (chosen, was_forced) = if idx < self.forced_decisions.len() {
            match self.forced_decisions[idx] {
                Decision::Choice { arity: a, index } => {
                    if a == arity && index < arity {
                        (index, true)
                    } else {
                        (clamped, false)
                    }
                },
                _ => (clamped, false),
            }
        } else {
            (clamped, false)
        };
        self.decisions.push(Decision::Choice { arity, index: chosen });
        self.schedules.push(
            ScheduleRecord {
                decision_index: idx,
                site_id,
                site_file,
                site_line,
                site_column,
                arity,
                chosen_index: chosen,
                was_forced,
            },
        );
        if !was_forced {
            let ghost start = self.spawn_alternatives@;
            let ghost alts = choice_alternatives(idx, arity, chosen, site_id);
            let ghost room: int = if start.len() < self.config.max_new_branches_to_record {
                self.config.max_new_branches_to_record - start.len()
            } else {
                0
            };
            let ghost pre = *self;
            let mut j: u32 = 0;
            while j < arity
                invariant
                    j <= arity,
                    chosen < arity || arity == 0,
                    self.config == pre.config,
                    self.forced_decisions == pre.forced_decisions,
                    self.decisions == pre.decisions,
                    self.schedules == pre.schedules,
                    self.branches == pre.branches,
                    self.inputs == pre.inputs,
                    self.decision_index == pre.decision_index,
                    self.branch_ordinal == pre.branch_ordinal,
                    start == pre.spawn_alternatives@,
                    pre.config == old(self).config,
                    pre.forced_decisions == old(self).forced_decisions,
                    pre.inputs == old(self).inputs,
                    pre.branches == old(self).branches,
                    pre.branch_ordinal == old(self).branch_ordinal,
                    pre.decision_index == old(self).decision_index,
                    idx == old(self).decision_index,
                    start == old(self).spawn_alternatives@,
                    pre.decisions@ == old(self).decisions@.push(Decision::Choice { arity, index: chosen }),
                    pre.schedules@ == old(self).schedules@.push(ScheduleRecord {
                        decision_index: idx,
                        site_id,
                        site_file,
                        site_line,
                        site_column,
                        arity,
                        chosen_index: chosen,
                        was_forced,
                    }),
                    self.config.mode == RuntimeMode::Explore,
                    !(self.config.max_total_branches matches Some(m) && idx >= m),
                    !was_forced,
                    (chosen, was_forced) == (match forced_choice(old(self).forced_decisions@, idx as int, arity) {
                        Some(c) => (c, true),
                        None => (clamp_choice(concolic_index, arity), false),
                    }),
                    alts == choice_alternatives(idx, arity, chosen, site_id),
                    self.spawn_alternatives@ == start + alts.take(
                        if j <= chosen { j as int } else { j - 1 },
                    ),
                    (if j <= chosen { j as int } else { j - 1 }) <= room,
                    room == (if start.len() < self.config.max_new_branches_to_record {
                        self.config.max_new_branches_to_record - start.len()
                    } else {
                        0int
                    }),
                decreases arity - j,
            {
                if j != chosen {
                    if self.spawn_alternatives.len() < self.config.max_new_branches_to_record {
                        let ghost t: int = if j < chosen { j as int } else { j - 1 };
                        assert(alts[t] == AlternativeDecision {
                            index: idx,
                            decision: Decision::Choice { arity, index: j },
                            fork_site_id: site_id,
                            fork_branch_index: None,
                        });
                        self.spawn_alternatives.push(
                            AlternativeDecision {
                                index: idx,
                                decision: Decision::Choice { arity, index: j },
                                fork_site_id: site_id,
                                fork_branch_index: None,
                            },
                        );
                        assert(alts.take(t + 1) == alts.take(t).push(alts[t]));
                    } else {
                        assert((if j <= chosen { j as int } else { j - 1 }) == room);
                        assert(alts.len() > room);
                        assert(self.spawn_alternatives@ == start + alts.take(room));
                        proof {
                            if old(self).wf() {
                                lemma_choice_alternatives_differ(idx, arity, chosen, site_id, alts.take(room));
                                lemma_fit_extend(
                                    old(self).decisions@,
                                    old(self).spawn_alternatives@,
                                    Decision::Choice { arity, index: chosen },
                                    alts.take(room),
                                );
                            }
                        }
                        return Err(RunAbort::BudgetReached);
                    }
                }
                j = j + 1;
            }
            assert(alts.take(alts.len() as int) == alts);
        }
        proof {
            if old(self).wf() {
                let more = self.spawn_alternatives@.skip(old(self).spawn_alternatives@.len() as int);
                assert(old(self).spawn_alternatives@ + more =~= self.spawn_alternatives@);
                if !was_forced {
                    assert(more =~= choice_alternatives(idx, arity, chosen, site_id));
                    lemma_choice_alternatives_differ(idx, arity, chosen, site_id, more);
                }
                lemma_fit_extend(
                    old(self).decisions@,
                    old(self).spawn_alternatives@,
                    Decision::Choice { arity, index: chosen },
                    more,
                );
            }
        }
        self.decision_index = idx + 1;
        Ok(chosen)
    }
}

/// Reading an input after setting it gives the value set, and leaves the
/// other inputs as they were.
pub proof fn lemma_input_read_after_write(inputs: Map<Seq<char>, CVal>, name: Seq<char>, v: CVal, other: Seq<char>)
    ensures
        inputs.insert(name, v).contains_key(name),
        inputs.insert(name, v)[name] == v,
        other != name ==> (inputs.insert(name, v).contains_key(other) == inputs.contains_key(other)),
        other != name && inputs.contains_key(other) ==> inputs.insert(name, v)[other] == inputs[other],
{
}

/// Refreshing inputs from a model takes every value the model assigns and
/// keeps the inputs it does not assign.
pub proof fn lemma_refresh_prefers_model(inputs: Map<Seq<char>, CVal>, model: Map<Seq<char>, CVal>, name: Seq<char>)
    ensures
        model.contains_key(name) ==> inputs.union_prefer_right(model)[name] == model[name],
        !model.contains_key(name) && inputs.contains_key(name) ==> inputs.union_prefer_right(model)[name]
            == inputs[name],
        inputs.union_prefer_right(model).contains_key(name) == (inputs.contains_key(name) || model.contains_key(name)),
{
}

} // verus!
