//! Replay-based exploration.
//!
//! Work items are decision prefixes to replay. A run of the user's code
//! follows the forced prefix and then the concrete outcomes; every decision it
//! did not force yields an alternative, which becomes a child work item. The
//! explorer hands work to a scheduler, turns what a run left behind into a
//! [`RunResult`], and keeps the statistics of the exploration. Running the
//! user's code (and classifying completed paths with the solver) is the
//! caller's part: it asks [`Explorer::next_step`] for work, runs it, and
//! reports back with [`Explorer::finish_run`] and [`Explorer::record_run`].
use vstd::prelude::*;
use crate::decision::Decision;
use crate::runtime::{alternatives_fit, forced_bool, forced_choice, AlternativeDecision, BranchRecord, RunAbort, RuntimeConfig, RuntimeMode};
use crate::scheduler::{fresh_scheduler, learned, make_scheduler, popped, pushed, AnyScheduler, SchedulerKind};
use crate::value_map::ValueMap;

verus! {

/// Order of exploration of the built-in strategies.
#[derive(Debug, Clone, Copy, PartialEq, Eq, Structural)]
pub enum ExplorationStrategy {
    DepthFirst,
    BreadthFirst,
}

/// Limits on one run.
#[derive(Debug, Clone, Copy, PartialEq, Eq, Structural)]
pub struct RunBudget {
    pub max_new_branches_to_record: usize,
    pub max_total_branches: Option<usize>,
}

impl Default for RunBudget {
    fn default() -> (r: Self)
        ensures
            r == (RunBudget { max_new_branches_to_record: 1024, max_total_branches: None }),
    {
        RunBudget { max_new_branches_to_record: 1024, max_total_branches: None }
    }
}

/// Exploration settings.
#[derive(Debug, Clone, Copy, PartialEq, Eq, Structural)]
pub struct ExploreConfig {
    pub max_depth: usize,
    pub max_paths: Option<usize>,
    pub scheduler: SchedulerKind,
    pub budget: RunBudget,
    /// Whether completed paths are classified SAT or UNSAT by the solver.
    pub check_sat_on_complete: bool,
}

impl Default for ExploreConfig {
    fn default() -> (r: Self)
        ensures
            r == (ExploreConfig {
                max_depth: 100,
                max_paths: None,
                scheduler: SchedulerKind::Dfs,
                budget: RunBudget { max_new_branches_to_record: 1024, max_total_branches: None },
                check_sat_on_complete: true,
            }),
    {
        ExploreConfig {
            max_depth: 100,
            max_paths: None,
            scheduler: SchedulerKind::Dfs,
            budget: RunBudget::default(),
            check_sat_on_complete: true,
        }
    }
}

impl ExploreConfig {
    /// The default settings: depth 100, no path limit, depth-first, 1024 new
    /// branches per run, SAT classification on.
    pub fn new() -> (r: Self)
        ensures
            r == (ExploreConfig {
                max_depth: 100,
                max_paths: None,
                scheduler: SchedulerKind::Dfs,
                budget: RunBudget { max_new_branches_to_record: 1024, max_total_branches: None },
                check_sat_on_complete: true,
            }),
    {
        Self::default()
    }

    pub fn with_random_scheduler(self, seed: u64) -> (r: Self)
        ensures
            r == (ExploreConfig { scheduler: SchedulerKind::Random { seed }, ..self }),
    {
        ExploreConfig { scheduler: SchedulerKind::Random { seed }, ..self }
    }

    pub fn with_coverage_guided_scheduler(self) -> (r: Self)
        ensures
            r == (ExploreConfig { scheduler: SchedulerKind::CoverageGuided, ..self }),
    {
        ExploreConfig { scheduler: SchedulerKind::CoverageGuided, ..self }
    }

    pub fn with_max_depth(self, max_depth: usize) -> (r: Self)
        ensures
            r == (ExploreConfig { max_depth, ..self }),
    {
        ExploreConfig { max_depth, ..self }
    }

    pub fn with_max_paths(self, max_paths: usize) -> (r: Self)
        ensures
            r == (ExploreConfig { max_paths: Some(max_paths), ..self }),
    {
        ExploreConfig { max_paths: Some(max_paths), ..self }
    }

    /// Depth-first uses the depth-first scheduler, breadth-first the
    /// breadth-first one.
    pub fn with_strategy(self, strategy: ExplorationStrategy) -> (r: Self)
        ensures
            r == (ExploreConfig {
                scheduler: match strategy {
                    ExplorationStrategy::DepthFirst => SchedulerKind::Dfs,
                    ExplorationStrategy::BreadthFirst => SchedulerKind::Bfs,
                },
                ..self
            }),
    {
        let scheduler = match strategy {
            ExplorationStrategy::DepthFirst => SchedulerKind::Dfs,
            ExplorationStrategy::BreadthFirst => SchedulerKind::Bfs,
        };
        ExploreConfig { scheduler, ..self }
    }

    pub fn with_scheduler(self, scheduler: SchedulerKind) -> (r: Self)
        ensures
            r == (ExploreConfig { scheduler, ..self }),
    {
        ExploreConfig { scheduler, ..self }
    }

    pub fn with_budget(self, budget: RunBudget) -> (r: Self)
        ensures
            r == (ExploreConfig { budget, ..self }),
    {
        ExploreConfig { budget, ..self }
    }

    pub fn with_sat_check_on_complete(self, enabled: bool) -> (r: Self)
        ensures
            r == (ExploreConfig { check_sat_on_complete: enabled, ..self }),
    {
        ExploreConfig { check_sat_on_complete: enabled, ..self }
    }
}

/// Identifier of a work item.
pub type WorkId = u64;

/// A decision prefix to replay, with the inputs to start from.
#[derive(Debug)]
pub struct WorkItem {
    pub id: WorkId,
    pub parent: Option<WorkId>,
    pub forced: Vec<Decision>,
    pub inputs: ValueMap,
    pub fork_site_id: Option<u64>,
    pub fork_branch_index: Option<usize>,
}

impl WorkItem {
    /// A copy of the work item.
    pub fn duplicate(&self) -> (r: Self)
        ensures
            r.id == self.id,
            r.parent == self.parent,
            r.forced@ == self.forced@,
            r.inputs@ == self.inputs@,
            r.inputs.wf() == self.inputs.wf(),
            r.fork_site_id == self.fork_site_id,
            r.fork_branch_index == self.fork_branch_index,
    {
        WorkItem {
            id: self.id,
            parent: self.parent,
            forced: copy_decisions(&self.forced),
            inputs: self.inputs.copy(),
            fork_site_id: self.fork_site_id,
            fork_branch_index: self.fork_branch_index,
        }
    }
}

/// A copy of a list of decisions.
pub fn copy_decisions(d: &Vec<Decision>) -> (r: Vec<Decision>)
    ensures
        r@ == d@,
{
    let mut r: Vec<Decision> = Vec::new();
    let mut i: usize = 0;
    while i < d.len()
        invariant
            i <= d@.len(),
            r@ == d@.take(i as int),
        decreases d@.len() - i,
    {
        r.push(d[i]);
        assert(r@ == d@.take(i + 1));
        i = i + 1;
    }
    assert(d@.take(d@.len() as int) == d@);
    r
}

/// How a run ended.
#[derive(Debug, Clone, Copy, PartialEq, Eq, Structural)]
pub enum RunOutcome {
    Completed,
    AbortedBudget,
    AbortedUnsat,
    PanickedUser,
}

/// Branch counts of a run.
#[derive(Debug, Clone, Copy, PartialEq, Eq, Structural)]
pub struct RunStats {
    pub branches_seen: usize,
    pub forced_branches: usize,
    pub concolic_branches: usize,
}

/// What the user's code did when run.
#[derive(Debug)]
pub enum ExecOutcome {
    /// It returned normally.
    Returned,
    /// It returned an error, with its message.
    ReturnedError(String),
    /// The runtime aborted the run.
    Aborted(RunAbort),
    /// It panicked, with the panic's message.
    Panicked(String),
}

/// Everything known about one run.
#[derive(Debug)]
pub struct RunResult {
    pub work_id: WorkId,
    pub outcome: RunOutcome,
    /// Time spent running the user's code.
    pub duration_ms: u128,
    /// Message of a user error or panic.
    pub panic_message: Option<String>,
    pub backtrace: Option<String>,
    pub decisions_taken: Vec<Decision>,
    pub branches: Vec<BranchRecord>,
    pub spawned: Vec<WorkItem>,
    /// Inputs at the end of the run.
    pub final_inputs: ValueMap,
    pub is_sat: Option<bool>,
    pub stats: RunStats,
}

/// Totals of an exploration.
#[derive(Debug, Clone, Copy, PartialEq, Eq, Structural)]
pub struct ExplorationResult {
    pub paths_explored: usize,
    pub satisfiable_paths: usize,
    pub unsatisfiable_paths: usize,
    pub max_depth_reached: usize,
}

/// A run of the user's code that failed.
#[derive(Debug)]
pub struct BugCase {
    pub work: WorkItem,
    pub decisions_taken: Vec<Decision>,
    pub final_inputs: ValueMap,
    pub branches: Vec<BranchRecord>,
    pub panic_message: String,
    pub backtrace: Option<String>,
}

/// Outcome of a whole exploration.
#[derive(Debug)]
pub struct ExploreResult {
    pub exploration_result: ExplorationResult,
    /// Failures found.
    pub bugs: Vec<BugCase>,
    /// Runs executed, aborted and failed ones included.
    pub runs_executed: usize,
    /// Time spent in all runs.
    pub total_run_time_ms: u128,
    pub completed: bool,
    pub error: Option<String>,
}

/// The outcome of a run and whether the user's code succeeded.
pub open spec fn classify_spec(exec: ExecOutcome) -> (RunOutcome, bool) {
    match exec {
        ExecOutcome::Returned => (RunOutcome::Completed, true),
        ExecOutcome::ReturnedError(_) => (RunOutcome::PanickedUser, false),
        ExecOutcome::Aborted(RunAbort::BudgetReached) => (RunOutcome::AbortedBudget, true),
        ExecOutcome::Aborted(RunAbort::PathUnsat) => (RunOutcome::AbortedUnsat, true),
        ExecOutcome::Panicked(_) => (RunOutcome::PanickedUser, false),
    }
}

/// How runs are classified: only a normal return completes a path; an error
/// returned or a panic of the user's code is a failure of that code
/// (`PanickedUser`, not ok), which exploration records as a bug; an abort
/// by the runtime is neither a completed path nor a failure of the user's
/// code.
pub proof fn lemma_classification(exec: ExecOutcome)
    ensures
        (classify_spec(exec).0 == RunOutcome::Completed) <==> exec is Returned,
        (classify_spec(exec).0 == RunOutcome::PanickedUser) <==> (exec is Panicked || exec is ReturnedError),
        !classify_spec(exec).1 <==> (exec is Panicked || exec is ReturnedError),
        exec is Aborted ==> (classify_spec(exec).0 == RunOutcome::AbortedBudget <==> exec->Aborted_0
            == RunAbort::BudgetReached),
        exec is Aborted ==> (classify_spec(exec).0 == RunOutcome::AbortedUnsat <==> exec->Aborted_0
            == RunAbort::PathUnsat),
{
}

/// The decision prefix of a child: the decisions taken up to the
/// alternative's index, that one replaced by the alternative.
pub open spec fn child_prefix(taken: Seq<Decision>, alt: AlternativeDecision) -> Seq<Decision> {
    taken.take(alt.index + 1).update(alt.index as int, alt.decision)
}

/// The alternatives that fall within the decisions taken, in order.
pub open spec fn usable_alternatives(alts: Seq<AlternativeDecision>, taken_len: int, k: nat) -> Seq<
    AlternativeDecision,
>
    decreases k,
{
    if k == 0 || k > alts.len() {
        seq![]
    } else {
        usable_alternatives(alts, taken_len, (k - 1) as nat) + if alts[k - 1].index < taken_len {
            seq![alts[k - 1]]
        } else {
            seq![]
        }
    }
}

/// Number of forced branches among the first `k`.
pub open spec fn forced_count(branches: Seq<BranchRecord>, k: nat) -> nat
    decreases k,
{
    if k == 0 || k > branches.len() {
        0
    } else {
        forced_count(branches, (k - 1) as nat) + if branches[k - 1].was_forced {
            1nat
        } else {
            0nat
        }
    }
}

/// One child handed to the scheduler: pushed unless deeper than `max_depth`.
pub open spec fn child_step(a: AnyScheduler, b: AnyScheduler, item: WorkItem, max_depth: usize) -> bool {
    if item.forced@.len() <= max_depth {
        pushed(a, b, item)
    } else {
        a == b
    }
}

/// `states` runs from `a` to `b` through one child step per item, in order.
pub open spec fn pushed_children(
    a: AnyScheduler,
    b: AnyScheduler,
    items: Seq<WorkItem>,
    max_depth: usize,
    states: Seq<AnyScheduler>,
) -> bool {
    &&& states.len() == items.len() + 1
    &&& states[0] == a
    &&& states.last() == b
    &&& forall|i: int|
        0 <= i < items.len() ==> child_step(#[trigger] states[i], states[i + 1], items[i], max_depth)
}

/// What to do next in an exploration.
#[derive(Debug)]
pub enum NextStep {
    /// The exploration is over.
    Finished,
    /// The work taken was too deep and is dropped.
    Skipped,
    /// Run this work.
    Run(WorkItem),
}

/// Progress of an exploration.
#[derive(Debug)]
pub struct ExploreProgress {
    pub explored: usize,
    pub sat: usize,
    pub unsat: usize,
    pub max_depth: usize,
    pub bugs: Vec<BugCase>,
    pub runs_executed: usize,
    pub total_run_time_ms: u128,
}

impl ExploreProgress {
    /// No run yet: every count is zero and no bug was found.
    pub fn new() -> (r: Self)
        ensures
            r.explored == 0,
            r.sat == 0,
            r.unsat == 0,
            r.max_depth == 0,
            r.bugs@.len() == 0,
            r.runs_executed == 0,
            r.total_run_time_ms == 0,
    {
        ExploreProgress {
            explored: 0,
            sat: 0,
            unsat: 0,
            max_depth: 0,
            bugs: Vec::new(),
            runs_executed: 0,
            total_run_time_ms: 0,
        }
    }
}

impl WorkItem {
    /// The root work: identifier 0, no parent, nothing forced, no inputs.
    pub fn root() -> (r: Self)
        ensures
            r.id == 0,
            r.parent is None,
            r.forced@.len() == 0,
            r.inputs.wf(),
            r.inputs@ == Map::<Seq<char>, crate::expressions::CVal>::empty(),
            r.fork_site_id is None,
            r.fork_branch_index is None,
    {
        WorkItem { id: 0, parent: None, forced: Vec::new(), inputs: ValueMap::new(), fork_site_id: None, fork_branch_index: None }
    }
}

/// Explores the paths of the user's code, given a scheduler.
pub struct Explorer {
    cfg: ExploreConfig,
    next_id: WorkId,
    scheduler: AnyScheduler,
}

/// Every usable alternative among the first `k` names a decision taken, and
/// differs from it when all the alternatives fit the decisions.
proof fn lemma_usable_fit(alts: Seq<AlternativeDecision>, taken: Seq<Decision>, k: nat)
    requires
        k <= alts.len(),
    ensures
        forall|j: int|
            0 <= j < usable_alternatives(alts, taken.len() as int, k).len() ==> (#[trigger] usable_alternatives(
                alts,
                taken.len() as int,
                k,
            )[j]).index < taken.len() && (alternatives_fit(taken, alts) ==> usable_alternatives(
                alts,
                taken.len() as int,
                k,
            )[j].decision != taken[usable_alternatives(alts, taken.len() as int, k)[j].index as int]),
    decreases k,
{
    if k > 0 {
        lemma_usable_fit(alts, taken, (k - 1) as nat);
        let prev = usable_alternatives(alts, taken.len() as int, (k - 1) as nat);
        let cur = usable_alternatives(alts, taken.len() as int, k);
        assert forall|j: int| 0 <= j < cur.len() implies (#[trigger] cur[j]).index < taken.len()
            && (alternatives_fit(taken, alts) ==> cur[j].decision != taken[cur[j].index as int]) by {
            if j < prev.len() {
                assert(cur[j] == prev[j]);
            } else {
                assert(cur[j] == alts[k - 1]);
            }
        }
    }
}

/// Consecutive identifiers modulo 2^64 are distinct.
proof fn lemma_ids_distinct(start: int, j: int, k: int, n: int)
    requires
        0 <= start < 0x1_0000_0000_0000_0000,
        0 <= j < k < n,
        n <= 0x1_0000_0000_0000_0000,
    ensures
        (start + j) % 0x1_0000_0000_0000_0000 != (start + k) % 0x1_0000_0000_0000_0000,
{
    let m: int = 0x1_0000_0000_0000_0000;
    if start + j < m && start + k < m {
    } else if start + j >= m && start + k >= m {
        assert((start + j) % m == start + j - m) by (nonlinear_arith)
            requires m <= start + j < 2 * m, m == 0x1_0000_0000_0000_0000;
        assert((start + k) % m == start + k - m) by (nonlinear_arith)
            requires m <= start + k < 2 * m, m == 0x1_0000_0000_0000_0000;
    } else {
        assert((start + j) % m == start + j) by (nonlinear_arith)
            requires 0 <= start + j < m, m == 0x1_0000_0000_0000_0000;
        assert((start + k) % m == start + k - m) by (nonlinear_arith)
            requires m <= start + k < 2 * m, m == 0x1_0000_0000_0000_0000;
    }
}

impl Explorer {
    pub closed spec fn cfg_view(&self) -> ExploreConfig {
        self.cfg
    }

    pub closed spec fn next_id_view(&self) -> WorkId {
        self.next_id
    }

    pub closed spec fn scheduler_view(&self) -> AnyScheduler {
        self.scheduler
    }

    /// An explorer with the scheduler the settings name.
    pub fn new(cfg: ExploreConfig) -> (r: Self)
        ensures
            r.cfg_view() == cfg,
            r.next_id_view() == 1,
            fresh_scheduler(cfg.scheduler, r.scheduler_view()),
    {
        let scheduler = make_scheduler(cfg.scheduler);
        Explorer { cfg, next_id: 1, scheduler }
    }

    /// An explorer with a given scheduler.
    pub fn new_with_scheduler(cfg: ExploreConfig, scheduler: AnyScheduler) -> (r: Self)
        ensures
            r.cfg_view() == cfg,
            r.next_id_view() == 1,
            r.scheduler_view() == scheduler,
    {
        Explorer { cfg, next_id: 1, scheduler }
    }

    /// The settings.
    pub fn config(&self) -> (r: &ExploreConfig)
        ensures
            *r == self.cfg_view(),
    {
        &self.cfg
    }

    /// The runtime settings of a run under exploration.
    pub fn runtime_config(&self) -> (r: RuntimeConfig)
        ensures
            r.mode == RuntimeMode::Explore,
            r.max_new_branches_to_record == self.cfg_view().budget.max_new_branches_to_record,
            r.max_total_branches == self.cfg_view().budget.max_total_branches,
    {
        RuntimeConfig {
            mode: RuntimeMode::Explore,
            max_new_branches_to_record: self.cfg.budget.max_new_branches_to_record,
            max_total_branches: self.cfg.budget.max_total_branches,
        }
    }

    /// A fresh work identifier; identifiers wrap around.
    pub fn alloc_id(&mut self) -> (r: WorkId)
        ensures
            r == old(self).next_id_view(),
            final(self).next_id_view() == (old(self).next_id_view() + 1) % 0x1_0000_0000_0000_0000,
            final(self).cfg_view() == old(self).cfg_view(),
            final(self).scheduler_view() == old(self).scheduler_view(),
    {
        let id = self.next_id;
        self.next_id = self.next_id.wrapping_add(1);
        id
    }

    /// A child of `parent` that replays `forced`, starting from `inputs`.
    pub fn make_child(
        &mut self,
        parent: WorkId,
        forced: Vec<Decision>,
        inputs: &ValueMap,
        fork_site_id: Option<u64>,
        fork_branch_index: Option<usize>,
    ) -> (r: WorkItem)
        ensures
            r.id == old(self).next_id_view(),
            final(self).next_id_view() == (old(self).next_id_view() + 1) % 0x1_0000_0000_0000_0000,
            final(self).cfg_view() == old(self).cfg_view(),
            final(self).scheduler_view() == old(self).scheduler_view(),
            r.parent == Some(parent),
            r.forced@ == forced@,
            r.inputs@ == inputs@,
            r.inputs.wf() == inputs.wf(),
            r.fork_site_id == fork_site_id,
            r.fork_branch_index == fork_branch_index,
    {
        let id = self.alloc_id();
        WorkItem { id, parent: Some(parent), forced, inputs: inputs.copy(), fork_site_id, fork_branch_index }
    }

    /// The result of a work item whose prefix is deeper than allowed: it is
    /// not run, and counts as aborted for budget.
    pub fn too_deep_result(work: &WorkItem) -> (r: RunResult)
        ensures
            r.work_id == work.id,
            r.outcome == RunOutcome::AbortedBudget,
            r.duration_ms == 0,
            r.panic_message is None,
            r.backtrace is None,
            r.decisions_taken@.len() == 0,
            r.branches@.len() == 0,
            r.spawned@.len() == 0,
            r.final_inputs@ == Map::<Seq<char>, crate::expressions::CVal>::empty(),
            r.is_sat is None,
            r.stats == (RunStats { branches_seen: 0, forced_branches: 0, concolic_branches: 0 }),
    {
        RunResult {
            work_id: work.id,
            outcome: RunOutcome::AbortedBudget,
            duration_ms: 0,
            panic_message: None,
            backtrace: None,
            decisions_taken: Vec::new(),
            branches: Vec::new(),
            spawned: Vec::new(),
            final_inputs: ValueMap::new(),
            is_sat: None,
            stats: RunStats { branches_seen: 0, forced_branches: 0, concolic_branches: 0 },
        }
    }

    /// Whether a work item's prefix is deeper than allowed.
    pub fn too_deep(&self, work: &WorkItem) -> (r: bool)
        ensures
            r == (work.forced@.len() > self.cfg_view().max_depth),
    {
        work.forced.len() > self.cfg.max_depth
    }

    /// The outcome of a run and whether the user's code succeeded.
    pub fn classify(exec: &ExecOutcome) -> (r: (RunOutcome, bool))
        ensures
            r == classify_spec(*exec),
    {
        match exec {
            ExecOutcome::Returned => (RunOutcome::Completed, true),
            ExecOutcome::ReturnedError(_) => (RunOutcome::PanickedUser, false),
            ExecOutcome::Aborted(RunAbort::BudgetReached) => (RunOutcome::AbortedBudget, true),
            ExecOutcome::Aborted(RunAbort::PathUnsat) => (RunOutcome::AbortedUnsat, true),
            ExecOutcome::Panicked(_) => (RunOutcome::PanickedUser, false),
        }
    }

    /// Whether a completed path is to be classified by the solver.
    pub fn needs_sat_check(&self, exec: &ExecOutcome) -> (r: bool)
        ensures
            r == (classify_spec(*exec).1 && classify_spec(*exec).0 == RunOutcome::Completed
                && self.cfg_view().check_sat_on_complete),
    {
        let (outcome, user_ok) = Self::classify(exec);
        user_ok && outcome == RunOutcome::Completed && self.cfg.check_sat_on_complete
    }

    /// Children of a run: one per alternative that falls within the decisions
    /// taken, replaying the decisions up to it with it in place, from the
    /// run's final inputs.
    pub fn spawn_children(
        &mut self,
        work_id: WorkId,
        decisions_taken: &Vec<Decision>,
        alternatives: &Vec<AlternativeDecision>,
        inputs: &ValueMap,
    ) -> (r: Vec<WorkItem>)
        ensures
            final(self).cfg_view() == old(self).cfg_view(),
            final(self).scheduler_view() == old(self).scheduler_view(),
            ({
                let usable = usable_alternatives(
                    alternatives@,
                    decisions_taken@.len() as int,
                    alternatives@.len(),
                );
                &&& r@.len() == usable.len()
                &&& final(self).next_id_view() == (old(self).next_id_view() + usable.len())
                    % 0x1_0000_0000_0000_0000
                &&& forall|k: int|
                    0 <= k < r@.len() ==> {
                        &&& (#[trigger] r@[k]).id == (old(self).next_id_view() + k)
                            % 0x1_0000_0000_0000_0000
                        &&& r@[k].parent == Some(work_id)
                        &&& r@[k].forced@ == child_prefix(decisions_taken@, usable[k])
                        &&& r@[k].inputs@ == inputs@
                        &&& r@[k].fork_site_id == Some(usable[k].fork_site_id)
                        &&& r@[k].fork_branch_index == usable[k].fork_branch_index
                    }
            }),
    {
        let mut spawned: Vec<WorkItem> = Vec::new();
        let ghost start_id = self.next_id;
        let mut k: usize = 0;
        while k < alternatives.len()
            invariant
                k <= alternatives@.len(),
                self.cfg_view() == old(self).cfg_view(),
                self.scheduler_view() == old(self).scheduler_view(),
                start_id == old(self).next_id_view(),
                ({
                    let usable = usable_alternatives(
                        alternatives@,
                        decisions_taken@.len() as int,
                        k as nat,
                    );
                    &&& spawned@.len() == usable.len()
                    &&& self.next_id_view() == (start_id + usable.len()) % 0x1_0000_0000_0000_0000
                    &&& forall|t: int|
                        0 <= t < spawned@.len() ==> {
                            &&& (#[trigger] spawned@[t]).id == (start_id + t) % 0x1_0000_0000_0000_0000
                            &&& spawned@[t].parent == Some(work_id)
                            &&& spawned@[t].forced@ == child_prefix(decisions_taken@, usable[t])
                            &&& spawned@[t].inputs@ == inputs@
                            &&& spawned@[t].fork_site_id == Some(usable[t].fork_site_id)
                            &&& spawned@[t].fork_branch_index == usable[t].fork_branch_index
                        }
                }),
            decreases alternatives@.len() - k,
        {
            let alt = alternatives[k];
            let ghost usable = usable_alternatives(alternatives@, decisions_taken@.len() as int, k as nat);
            if alt.index < decisions_taken.len() {
                let mut forced: Vec<Decision> = Vec::new();
                let mut i: usize = 0;
                while i < decisions_taken.len() && i <= alt.index
                    invariant
                        alt.index < decisions_taken@.len(),
                        i <= alt.index + 1,
                        forced@ == decisions_taken@.take(i as int),
                    decreases alt.index + 1 - i,
                {
                    forced.push(decisions_taken[i]);
                    assert(forced@ == decisions_taken@.take(i + 1));
                    i = i + 1;
                }
                forced.set(alt.index, alt.decision);
                let child = self.make_child(work_id, forced, inputs, Some(alt.fork_site_id), alt.fork_branch_index);
                proof {
                    assert(((start_id + usable.len()) % 0x1_0000_0000_0000_0000 + 1)
                        % 0x1_0000_0000_0000_0000 == (start_id + usable.len() + 1)
                        % 0x1_0000_0000_0000_0000) by (nonlinear_arith);
                }
                spawned.push(child);
            }
            k = k + 1;
        }
        spawned
    }

    /// The result of a run from what it left behind: the outcome, the
    /// message of a user error or panic, children from the alternatives, and
    /// branch statistics.
    pub fn finish_run(
        &mut self,
        work: &WorkItem,
        exec: ExecOutcome,
        duration_ms: u128,
        backtrace: Option<String>,
        decisions_taken: Vec<Decision>,
        branches: Vec<BranchRecord>,
        alternatives: &Vec<AlternativeDecision>,
        final_inputs: ValueMap,
        is_sat: Option<bool>,
    ) -> (r: RunResult)
        requires
            (is_sat is Some) == (classify_spec(exec).1 && classify_spec(exec).0 == RunOutcome::Completed
                && old(self).cfg_view().check_sat_on_complete),
        ensures
            (r.is_sat is Some) == (r.outcome == RunOutcome::Completed && classify_spec(exec).1
                && final(self).cfg_view().check_sat_on_complete),
            forall|k: int|
                0 <= k < r.spawned@.len() ==> {
                    let f = (#[trigger] r.spawned@[k]).forced@;
                    &&& 1 <= f.len() <= decisions_taken@.len()
                    &&& f.take(f.len() - 1) == decisions_taken@.take(f.len() - 1)
                    &&& alternatives_fit(decisions_taken@, alternatives@) ==> f.last()
                        != decisions_taken@[f.len() - 1]
                    &&& r.spawned@[k].id == (old(self).next_id_view() + k) % 0x1_0000_0000_0000_0000
                },
            forall|j: int, k: int|
                0 <= j < k < r.spawned@.len() ==> (#[trigger] r.spawned@[j]).id != (#[trigger] r.spawned@[k]).id,
            final(self).cfg_view() == old(self).cfg_view(),
            final(self).scheduler_view() == old(self).scheduler_view(),
            r.work_id == work.id,
            r.outcome == classify_spec(exec).0,
            r.duration_ms == duration_ms,
            r.panic_message == match exec {
                ExecOutcome::ReturnedError(m) => Some(m),
                ExecOutcome::Panicked(m) => Some(m),
                _ => None::<String>,
            },
            r.backtrace == backtrace,
            r.decisions_taken@ == decisions_taken@,
            r.branches@ == branches@,
            r.final_inputs == final_inputs,
            r.is_sat == is_sat,
            r.spawned@.len() == usable_alternatives(
                alternatives@,
                decisions_taken@.len() as int,
                alternatives@.len(),
            ).len(),
            forall|k: int|
                0 <= k < r.spawned@.len() ==> (#[trigger] r.spawned@[k]).parent == Some(work.id)
                    && r.spawned@[k].forced@ == child_prefix(
                    decisions_taken@,
                    usable_alternatives(
                        alternatives@,
                        decisions_taken@.len() as int,
                        alternatives@.len(),
                    )[k],
                ) && r.spawned@[k].inputs@ == final_inputs@,
            r.stats.forced_branches == forced_count(branches@, branches@.len()),
            r.stats.concolic_branches == branches@.len() - forced_count(branches@, branches@.len()),
            r.stats.branches_seen == branches@.len(),
    {
        let (outcome, _user_ok) = Self::classify(&exec);
        let panic_message = match exec {
            ExecOutcome::ReturnedError(m) => Some(m),
            ExecOutcome::Panicked(m) => Some(m),
            _ => None,
        };
        let ghost start_id = self.next_id_view();
        let spawned = self.spawn_children(work.id, &decisions_taken, alternatives, &final_inputs);
        let n_spawned = spawned.len();
        proof {
            let usable = usable_alternatives(alternatives@, decisions_taken@.len() as int, alternatives@.len());
            lemma_usable_fit(alternatives@, decisions_taken@, alternatives@.len());
            assert forall|k: int| 0 <= k < spawned@.len() implies {
                let f = (#[trigger] spawned@[k]).forced@;
                &&& 1 <= f.len() <= decisions_taken@.len()
                &&& f.take(f.len() - 1) == decisions_taken@.take(f.len() - 1)
                &&& alternatives_fit(decisions_taken@, alternatives@) ==> f.last()
                    != decisions_taken@[f.len() - 1]
            } by {
                let a = usable[k];
                assert(a.index < decisions_taken@.len());
                let f = spawned@[k].forced@;
                assert(f == child_prefix(decisions_taken@, a));
                assert(f.len() == a.index + 1);
                assert(f.take(f.len() - 1) =~= decisions_taken@.take(f.len() - 1));
            }
            assert forall|j: int, k: int| 0 <= j < k < spawned@.len() implies (#[trigger] spawned@[j]).id
                != (#[trigger] spawned@[k]).id by {
                lemma_ids_distinct(start_id as int, j, k, n_spawned as int);
            }
        }
        let mut forced_branches: usize = 0;
        let mut i: usize = 0;
        while i < branches.len()
            invariant
                i <= branches@.len(),
                forced_branches == forced_count(branches@, i as nat),
                forced_branches <= i,
            decreases branches@.len() - i,
        {
            if branches[i].was_forced {
                forced_branches = forced_branches + 1;
            }
            i = i + 1;
        }
        let concolic_branches = branches.len() - forced_branches;
        RunResult {
            work_id: work.id,
            outcome,
            duration_ms,
            panic_message,
            backtrace,
            decisions_taken,
            branches,
            spawned,
            final_inputs,
            is_sat,
            stats: RunStats {
                branches_seen: concolic_branches + forced_branches,
                forced_branches,
                concolic_branches,
            },
        }
    }

    /// Starts an exploration: the root work (identifier 0, nothing forced,
    /// no inputs) is scheduled and all counts are zero.
    pub fn start(&mut self) -> (r: ExploreProgress)
        ensures
            final(self).cfg_view() == old(self).cfg_view(),
            final(self).next_id_view() == old(self).next_id_view(),
            exists|root: WorkItem|
                {
                    &&& #[trigger] pushed(old(self).scheduler_view(), final(self).scheduler_view(), root)
                    &&& root.id == 0
                    &&& root.parent is None
                    &&& root.forced@.len() == 0
                    &&& root.inputs@ == Map::<Seq<char>, crate::expressions::CVal>::empty()
                    &&& root.fork_site_id is None
                    &&& root.fork_branch_index is None
                },
            r.explored == 0 && r.sat == 0 && r.unsat == 0 && r.max_depth == 0,
            r.bugs@.len() == 0 && r.runs_executed == 0 && r.total_run_time_ms == 0,
    {
        let root = WorkItem {
            id: 0,
            parent: None,
            forced: Vec::new(),
            inputs: ValueMap::new(),
            fork_site_id: None,
            fork_branch_index: None,
        };
        let ghost rv = root;
        self.scheduler.push(root);
        assert(pushed(old(self).scheduler_view(), self.scheduler_view(), rv));
        ExploreProgress {
            explored: 0,
            sat: 0,
            unsat: 0,
            max_depth: 0,
            bugs: Vec::new(),
            runs_executed: 0,
            total_run_time_ms: 0,
        }
    }

    /// The next step of an exploration: the scheduler gives the next work;
    /// the exploration is over when there is none or the path limit is
    /// reached; work deeper than allowed is skipped.
    pub fn next_step(&mut self, progress: &ExploreProgress) -> (r: NextStep)
        ensures
            final(self).cfg_view() == old(self).cfg_view(),
            final(self).next_id_view() == old(self).next_id_view(),
            exists|w: Option<WorkItem>|
                {
                    &&& #[trigger] popped(old(self).scheduler_view(), final(self).scheduler_view(), w)
                    &&& match w {
                        None => r is Finished,
                        Some(work) => if old(self).cfg_view().max_paths matches Some(m)
                            && progress.explored >= m {
                            r is Finished
                        } else if work.forced@.len() > old(self).cfg_view().max_depth {
                            r is Skipped
                        } else {
                            r == NextStep::Run(work)
                        },
                    }
                },
    {
        let w = self.scheduler.pop();
        let ghost wv = w;
        assert(popped(old(self).scheduler_view(), self.scheduler_view(), wv));
        match w {
            None => NextStep::Finished,
            Some(work) => {
                match self.cfg.max_paths {
                    Some(m) => {
                        if progress.explored >= m {
                            return NextStep::Finished;
                        }
                    },
                    None => {},
                }
                if work.forced.len() > self.cfg.max_depth {
                    NextStep::Skipped
                } else {
                    NextStep::Run(work)
                }
            },
        }
    }

    /// Whether the number of completed paths has reached the configured
    /// limit.
    pub fn paths_exhausted(&self, progress: &ExploreProgress) -> (r: bool)
        ensures
            r == (self.cfg_view().max_paths matches Some(m) && progress.explored >= m),
    {
        match self.cfg.max_paths {
            Some(m) => progress.explored >= m,
            None => false,
        }
    }

    /// Takes a finished run into account: counts it, adds its time
    /// (saturating) and depth, lets the scheduler learn from it, schedules
    /// its children that are not too deep, records a failure of the user's
    /// code as a bug, and counts a completed path with its SAT class.
    pub fn record_run(&mut self, progress: &mut ExploreProgress, work: &WorkItem, rr: RunResult)
        requires
            old(progress).runs_executed < usize::MAX,
            old(progress).explored < usize::MAX,
            old(progress).sat < usize::MAX,
            old(progress).unsat < usize::MAX,
        ensures
            final(self).cfg_view() == old(self).cfg_view(),
            final(self).next_id_view() == old(self).next_id_view(),
            final(progress).runs_executed == old(progress).runs_executed + 1,
            final(progress).total_run_time_ms == (if old(progress).total_run_time_ms + rr.duration_ms
                > u128::MAX {
                u128::MAX as int
            } else {
                old(progress).total_run_time_ms + rr.duration_ms
            }),
            final(progress).max_depth == (if rr.decisions_taken@.len() > old(progress).max_depth {
                rr.decisions_taken@.len()
            } else {
                old(progress).max_depth as nat
            }),
            final(progress).explored == old(progress).explored + if rr.outcome == RunOutcome::Completed {
                1int
            } else {
                0int
            },
            final(progress).sat == old(progress).sat + if rr.outcome == RunOutcome::Completed
                && rr.is_sat == Some(true) {
                1int
            } else {
                0int
            },
            final(progress).unsat == old(progress).unsat + if rr.outcome == RunOutcome::Completed
                && rr.is_sat == Some(false) {
                1int
            } else {
                0int
            },
            (rr.outcome == RunOutcome::PanickedUser && rr.panic_message is Some) ==> {
                &&& final(progress).bugs@.len() == old(progress).bugs@.len() + 1
                &&& final(progress).bugs@.last().work.id == work.id
                &&& final(progress).bugs@.last().work.forced@ == work.forced@
                &&& Some(final(progress).bugs@.last().panic_message) == rr.panic_message
                &&& final(progress).bugs@.last().decisions_taken@ == rr.decisions_taken@
                &&& final(progress).bugs@.last().branches@ == rr.branches@
                &&& final(progress).bugs@.last().backtrace == rr.backtrace
            },
            !(rr.outcome == RunOutcome::PanickedUser && rr.panic_message is Some)
                ==> final(progress).bugs@ == old(progress).bugs@,
            exists|mid: AnyScheduler, states: Seq<AnyScheduler>|
                #[trigger] learned(old(self).scheduler_view(), mid, rr) && #[trigger] pushed_children(
                    mid,
                    final(self).scheduler_view(),
                    rr.spawned@,
                    old(self).cfg_view().max_depth,
                    states,
                ),
    {
        progress.runs_executed = progress.runs_executed + 1;
        progress.total_run_time_ms = progress.total_run_time_ms.saturating_add(rr.duration_ms);
        if rr.decisions_taken.len() > progress.max_depth {
            progress.max_depth = rr.decisions_taken.len();
        }
        self.scheduler.on_run_result(&rr);
        assert(learned(old(self).scheduler_view(), self.scheduler, rr));
        let RunResult {
            work_id: _,
            outcome,
            duration_ms: _,
            panic_message,
            backtrace,
            decisions_taken,
            branches,
            spawned,
            final_inputs,
            is_sat,
            stats: _,
        } = rr;
        let ghost learned_state = self.scheduler;
        let ghost children = spawned@;
        let ghost mut states: Seq<AnyScheduler> = seq![learned_state];
        let mut spawned = spawned;
        let ghost cfg = self.cfg;
        let ghost nid = self.next_id;
        let n = spawned.len();
        let mut k: usize = 0;
        while k < n
            invariant
                k <= n,
                n == children.len(),
                spawned@ == children.skip(k as int),
                self.cfg == cfg,
                self.next_id == nid,
                states.len() == k + 1,
                states[0] == learned_state,
                states.last() == self.scheduler,
                forall|i: int|
                    0 <= i < k ==> child_step(#[trigger] states[i], states[i + 1], children[i], cfg.max_depth),
            decreases n - k,
        {
            let child = spawned.remove(0);
            assert(child == children[k as int]);
            if child.forced.len() <= self.cfg.max_depth {
                self.scheduler.push(child);
            }
            proof {
                let prev = states;
                states = states.push(self.scheduler);
                assert(child_step(states[k as int], states[k + 1], children[k as int], cfg.max_depth));
                assert forall|i: int| 0 <= i < k + 1 implies child_step(
                    #[trigger] states[i],
                    states[i + 1],
                    children[i],
                    cfg.max_depth,
                ) by {
                    if i < k {
                        assert(states[i] == prev[i]);
                        assert(states[i + 1] == prev[i + 1]);
                    }
                }
            }
            assert(spawned@ == children.skip(k + 1));
            k = k + 1;
        }
        assert(pushed_children(learned_state, self.scheduler, children, cfg.max_depth, states));
        if outcome == RunOutcome::PanickedUser {
            match panic_message {
                Some(msg) => {
                    progress.bugs.push(
                        BugCase {
                            work: work.duplicate(),
                            decisions_taken,
                            final_inputs,
                            branches,
                            panic_message: msg,
                            backtrace,
                        },
                    );
                },
                None => {},
            }
        }
        if outcome == RunOutcome::Completed {
            progress.explored = progress.explored + 1;
            match is_sat {
                Some(true) => {
                    progress.sat = progress.sat + 1;
                },
                Some(false) => {
                    progress.unsat = progress.unsat + 1;
                },
                None => {},
            }
        }
    }

    /// The result of a finished exploration.
    pub fn finish(progress: ExploreProgress) -> (r: ExploreResult)
        ensures
            r.exploration_result == (ExplorationResult {
                paths_explored: progress.explored,
                satisfiable_paths: progress.sat,
                unsatisfiable_paths: progress.unsat,
                max_depth_reached: progress.max_depth,
            }),
            r.bugs == progress.bugs,
            r.runs_executed == progress.runs_executed,
            r.total_run_time_ms == progress.total_run_time_ms,
            r.completed,
            r.error is None,
    {
        ExploreResult {
            exploration_result: ExplorationResult {
                paths_explored: progress.explored,
                satisfiable_paths: progress.sat,
                unsatisfiable_paths: progress.unsat,
                max_depth_reached: progress.max_depth,
            },
            bugs: progress.bugs,
            runs_executed: progress.runs_executed,
            total_run_time_ms: progress.total_run_time_ms,
            completed: true,
            error: None,
        }
    }
}

/// A child replays its parent up to the fork and takes the alternative at
/// it: its forced prefix repeats the parent's decisions before the fork and
/// holds the alternative decision at the fork, so a replay of the child is
/// forced to the parent's outcomes before the fork, to the alternative at
/// it, and is forced no further.
pub proof fn lemma_child_replays_parent(taken: Seq<Decision>, alt: AlternativeDecision, i: int, arity: u32)
    requires
        alt.index < taken.len(),
    ensures
        child_prefix(taken, alt).len() == alt.index + 1,
        0 <= i < alt.index ==> child_prefix(taken, alt)[i] == taken[i],
        child_prefix(taken, alt)[alt.index as int] == alt.decision,
        0 <= i < alt.index ==> forced_bool(child_prefix(taken, alt), i) == forced_bool(taken, i)
            && forced_choice(child_prefix(taken, alt), i, arity) == forced_choice(taken, i, arity),
        forced_bool(child_prefix(taken, alt), alt.index as int) == match alt.decision {
            Decision::Bool(b) => Some(b),
            _ => None::<bool>,
        },
        i > alt.index ==> forced_bool(child_prefix(taken, alt), i) is None
            && forced_choice(child_prefix(taken, alt), i, arity) is None,
{
}

} // verus!
