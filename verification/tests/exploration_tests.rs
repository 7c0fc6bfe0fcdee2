use symexrs::trace_text::format_trace;
use symexrs::value_map::ValueMap;
use symexrs::decision::Decision;
use symexrs::engine::{copy_decisions, ExecOutcome, ExploreConfig, Explorer, NextStep, WorkItem};
use symexrs::scheduler::SchedulerKind;
use symexrs::runtime::{AlternativeDecision, RunState};

/// Explores a program with two binary branches whose concrete outcome is
/// `true`, and reports the decisions of each run.
fn run_two_completed_paths(cfg: ExploreConfig) -> Vec<Vec<bool>> {
    let mut ex = Explorer::new(cfg.with_max_paths(2).with_sat_check_on_complete(false));
    let mut progress = ex.start();
    let mut runs = Vec::new();
    loop {
        match ex.next_step(&progress) {
            NextStep::Finished => break,
            NextStep::Skipped => continue,
            NextStep::Run(work) => {
                let mut rs = RunState::new();
                rs.config = ex.runtime_config();
                rs.reset_for_run(copy_decisions(&work.forced), work.inputs.copy());
                let _ = rs.next_decision_for_branch(11, "prog.rs".to_string(), 3, 5, 0, vec!["x".to_string()], true);
                let _ = rs.next_decision_for_branch(12, "prog.rs".to_string(), 4, 5, 0, vec!["y".to_string()], true);
                runs.push(rs.decisions.iter().map(|d| d.as_bool().unwrap()).collect());
                let rr = ex.finish_run(
                    &work,
                    ExecOutcome::Returned,
                    0,
                    None,
                    copy_decisions(&rs.decisions),
                    rs.branches,
                    &rs.spawn_alternatives,
                    rs.inputs,
                    None,
                );
                ex.record_run(&mut progress, &work, rr);
            }
        }
    }
    let result = Explorer::finish(progress);
    assert_eq!(result.exploration_result.paths_explored, runs.len());
    runs
}

#[test]
fn dfs_scheduler_picks_deeper_alternative_first() {
    let runs = run_two_completed_paths(ExploreConfig::new().with_scheduler(SchedulerKind::Dfs));
    assert_eq!(runs, vec![vec![true, true], vec![true, false]]);
}

#[test]
fn bfs_scheduler_picks_shallow_alternative_first() {
    let runs = run_two_completed_paths(ExploreConfig::new().with_scheduler(SchedulerKind::Bfs));
    assert_eq!(runs, vec![vec![true, true], vec![false, true]]);
}

#[test]
fn random_scheduler_is_seeded_and_deterministic() {
    let runs = run_two_completed_paths(ExploreConfig::new().with_scheduler(SchedulerKind::Random { seed: 2 }));
    assert_eq!(runs, vec![vec![true, true], vec![true, false]]);
    let again = run_two_completed_paths(ExploreConfig::new().with_scheduler(SchedulerKind::Random { seed: 2 }));
    assert_eq!(runs, again);
}

#[test]
fn coverage_guided_prefers_deeper_when_no_novelty() {
    let runs = run_two_completed_paths(ExploreConfig::new().with_scheduler(SchedulerKind::CoverageGuided));
    assert_eq!(runs, vec![vec![true, true], vec![true, false]]);
}

#[test]
fn forced_prefix_is_replayed() {
    let mut rs = RunState::new();
    rs.config = Explorer::new(ExploreConfig::new()).runtime_config();
    rs.reset_for_run(vec![Decision::Bool(false)], symexrs::value_map::ValueMap::new());
    assert_eq!(rs.next_decision_for_branch(1, "a".to_string(), 1, 1, 0, vec![], true), Ok(false));
    assert_eq!(rs.next_decision_for_branch(2, "a".to_string(), 2, 1, 0, vec![], true), Ok(true));
    assert_eq!(rs.spawn_alternatives.len(), 1);
    assert_eq!(rs.spawn_alternatives[0].index, 1);
}

#[test]
fn trace_text_lists_decisions_branches_and_alternatives() {
    let empty = format_trace(&vec![], &vec![], &vec![]);
    assert_eq!(
        empty,
        "Decision Trace:\n---------------\n  (no decisions taken)\n\n\
         Branch Trace:\n-------------\n  (no branches taken)\n\n\
         Alternative Decisions (to spawn):\n----------------------------------\n  (no alternatives)\n"
    );
    let ex = Explorer::new(ExploreConfig::new());
    let mut rs = RunState::new();
    rs.config = ex.runtime_config();
    rs.reset_for_run(vec![], ValueMap::new());
    let _ = rs.next_decision_for_branch(11, "prog.rs".to_string(), 3, 5, 0, vec!["x".to_string(), "y".to_string()], true);
    let text = format_trace(&rs.decisions, &rs.branches, &rs.spawn_alternatives);
    assert!(text.contains("  [0] Bool(true)\n"));
    assert!(text.contains("  [0] prog.rs:3:5 - chose true, concolic, vars: [x, y]\n"));
    assert!(text.contains("  [0] At decision index 0: Bool(false)\n"));
    let choice = format_trace(&vec![Decision::Choice { arity: 3, index: 1 }], &vec![], &vec![]);
    assert!(choice.contains("  [0] Choice { arity: 3, index: 1 }\n"));
}

#[test]
fn alternatives_beyond_the_decisions_taken_are_skipped() {
    let mut ex = Explorer::new(ExploreConfig::new().with_sat_check_on_complete(false));
    let work = WorkItem::root();
    let alt = |index: usize, b: bool| AlternativeDecision {
        index,
        decision: Decision::Bool(b),
        fork_site_id: 7,
        fork_branch_index: None,
    };
    let alts = vec![alt(0, false), alt(5, false), alt(1, true)];
    let rr = ex.finish_run(
        &work,
        ExecOutcome::Returned,
        0,
        None,
        vec![Decision::Bool(true), Decision::Bool(false)],
        vec![],
        &alts,
        ValueMap::new(),
        None,
    );
    assert_eq!(rr.spawned.len(), 2);
    assert_eq!(rr.spawned[0].forced, vec![Decision::Bool(false)]);
    assert_eq!(rr.spawned[1].forced, vec![Decision::Bool(true), Decision::Bool(true)]);
}
