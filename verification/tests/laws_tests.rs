use symexrs::coverage::{CoverageStatus, CoverageTracker, RarityTracker};
use symexrs::decision::Decision;
use symexrs::engine::{copy_decisions, ExecOutcome, ExploreConfig, Explorer, NextStep};
use symexrs::expressions::{BinOp, ConstValue, SymExpr, UnOp};
use symexrs::runtime::RunState;
use symexrs::value_map::ValueMap;

fn var(n: &str) -> SymExpr {
    SymExpr::variable(n.to_string())
}

fn lit(v: i64) -> SymExpr {
    SymExpr::constant(ConstValue::I64(v))
}

#[test]
fn simplifying_twice_is_simplifying_once() {
    let exprs = vec![
        SymExpr::binary_op(BinOp::Add, var("x"), lit(0)),
        SymExpr::unary_op(UnOp::Not, SymExpr::unary_op(UnOp::Not, SymExpr::unary_op(UnOp::Not, var("b")))),
        SymExpr::binary_op(
            BinOp::Mul,
            SymExpr::binary_op(BinOp::Add, lit(2), lit(3)),
            SymExpr::binary_op(BinOp::Sub, var("y"), lit(0)),
        ),
        SymExpr::conditional(SymExpr::constant(ConstValue::Bool(true)), var("a"), var("b")),
        SymExpr::binary_op(BinOp::Mul, var("z"), lit(1)),
    ];
    for e in exprs {
        let once = e.simplify();
        let twice = once.simplify();
        assert_eq!(once, twice);
        assert!(once.is_simplified());
    }
}

#[test]
fn a_written_input_is_read_back_and_others_are_kept() {
    let mut rs = RunState::new();
    rs.set_concolic_value("a".to_string(), ConstValue::U64(1));
    rs.set_concolic_value("b".to_string(), ConstValue::U64(2));
    rs.set_concolic_value("a".to_string(), ConstValue::U64(3));
    assert_eq!(rs.concolic_value("a"), Some(ConstValue::U64(3)));
    assert_eq!(rs.concolic_value("b"), Some(ConstValue::U64(2)));
    assert_eq!(rs.concolic_value("c"), None);
}

#[test]
fn refreshing_from_a_model_prefers_the_model() {
    let mut rs = RunState::new();
    rs.set_concolic_value("a".to_string(), ConstValue::U64(1));
    rs.set_concolic_value("b".to_string(), ConstValue::Bool(false));
    let mut model = ValueMap::new();
    model.insert("b".to_string(), ConstValue::Bool(true));
    model.insert("c".to_string(), ConstValue::I32(-4));
    rs.refresh_inputs_from_model(&model);
    assert_eq!(rs.concolic_value("a"), Some(ConstValue::U64(1)));
    assert_eq!(rs.concolic_value("b"), Some(ConstValue::Bool(true)));
    assert_eq!(rs.concolic_value("c"), Some(ConstValue::I32(-4)));
    assert_eq!(rs.concolic_value_for_var_u64("c"), Some((-4i32) as u64));
}

#[test]
fn a_child_replays_its_parent_and_flips_the_fork() {
    let mut ex = Explorer::new(ExploreConfig::new());
    let progress = ex.start();
    let work = match ex.next_step(&progress) {
        NextStep::Run(w) => w,
        _ => panic!("expected the root work"),
    };
    let mut rs = RunState::new();
    rs.config = ex.runtime_config();
    rs.reset_for_run(copy_decisions(&work.forced), work.inputs.copy());
    for site in 0..3u64 {
        assert_eq!(rs.next_decision_for_branch(site, "p.rs".to_string(), 1, 1, 0, vec![], true), Ok(true));
    }
    let rr = ex.finish_run(
        &work,
        ExecOutcome::Returned,
        0,
        None,
        copy_decisions(&rs.decisions),
        rs.branches.clone(),
        &rs.spawn_alternatives,
        rs.inputs.copy(),
        Some(true),
    );
    assert_eq!(rr.spawned.len(), 3);
    let child = &rr.spawned[1];
    assert_eq!(child.forced, vec![Decision::Bool(true), Decision::Bool(false)]);

    let mut replay = RunState::new();
    replay.config = ex.runtime_config();
    replay.reset_for_run(copy_decisions(&child.forced), child.inputs.copy());
    let outcomes: Vec<bool> = (0..3u64)
        .map(|site| replay.next_decision_for_branch(site, "p.rs".to_string(), 1, 1, 0, vec![], true).unwrap())
        .collect();
    assert_eq!(outcomes, vec![true, false, true]);
}

#[test]
fn simplifying_keeps_the_value_of_integer_expressions() {
    let mut b = ValueMap::new();
    b.insert("x".to_string(), ConstValue::I64(5));
    b.insert("y".to_string(), ConstValue::I64(3));
    b.insert("p".to_string(), ConstValue::Bool(false));
    let e = SymExpr::binary_op(
        BinOp::Sub,
        SymExpr::binary_op(BinOp::Mul, SymExpr::binary_op(BinOp::Add, var("x"), lit(0)), lit(1)),
        SymExpr::binary_op(BinOp::Sub, var("y"), var("y")),
    );
    let s = e.simplify();
    assert_eq!(e.get_concrete_value(&b), Some(ConstValue::I64(5)));
    assert_eq!(s.get_concrete_value(&b), Some(ConstValue::I64(5)));
    let c = SymExpr::conditional(
        SymExpr::unary_op(UnOp::Not, SymExpr::unary_op(UnOp::Not, var("p"))),
        SymExpr::binary_op(BinOp::Add, lit(2), lit(3)),
        SymExpr::unary_op(UnOp::Neg, SymExpr::unary_op(UnOp::Neg, var("y"))),
    );
    assert_eq!(c.get_concrete_value(&b), Some(ConstValue::I64(3)));
    assert_eq!(c.simplify().get_concrete_value(&b), Some(ConstValue::I64(3)));
}

#[test]
fn covered_count_is_the_sum_of_newly_covered_counts() {
    let mut t = CoverageTracker::<fn(usize) -> bool>::new(CoverageStatus::Available { num_counters: 5 })
        .unwrap()
        .with_rarity_tracker(RarityTracker::new(Some(5)).unwrap());
    let mut sum = 0;
    for counters in [vec![1, 0, 1, 0, 0], vec![1, 1, 0, 0, 0], vec![0, 0, 0, 0, 0], vec![3, 3, 3, 3, 3]] {
        sum += t.end_rollout_with(&counters).len();
        assert_eq!(t.covered_count(), sum);
        assert!(t.covered_count() <= t.num_counters());
    }
    assert_eq!(sum, 5);
    // Every hit of every rollout is counted.
    let r = t.rarity_tracker().unwrap();
    assert_eq!(r.hit_count(0), 3);
    assert_eq!(r.hit_count(1), 2);
    assert_eq!(r.hit_count(4), 1);
    assert_eq!(r.total_rollouts(), 4);
}
