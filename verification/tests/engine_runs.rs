use migrator::engine::{plan_run, ApplyEngine, NextAction, RunPlan};
use migrator::reconcile::filter_not_applied_migrations;

fn strings(names: &[&str]) -> Vec<String> {
    names.iter().map(|n| n.to_string()).collect()
}

/// Drives the engine over its pending sequence, failing the migrations named
/// in `failing`; returns the identifiers whose unit committed.
fn run_engine(pending: Vec<String>, failing: &[&str]) -> (Vec<String>, bool) {
    let mut engine = ApplyEngine::new(pending);
    loop {
        match engine.next_action() {
            NextAction::Apply(id) => {
                if failing.contains(&id.as_str()) {
                    engine.record_failure();
                } else {
                    engine.record_success();
                }
            }
            NextAction::Done => return (engine.applied_so_far(), false),
            NextAction::Halted => return (engine.applied_so_far(), true),
        }
    }
}

#[test]
fn applies_in_lexicographic_order() {
    let pending = filter_not_applied_migrations(vec![], strings(&["003_x", "001_a", "002_b"]));
    assert_eq!(pending, strings(&["001_a", "002_b", "003_x"]));

    let mut engine = ApplyEngine::new(pending);
    let mut order: Vec<String> = Vec::new();
    loop {
        match engine.next_action() {
            NextAction::Apply(id) => {
                order.push(id);
                engine.record_success();
            }
            NextAction::Done => break,
            NextAction::Halted => panic!("no failure was recorded"),
        }
    }
    assert_eq!(order, strings(&["001_a", "002_b", "003_x"]));
    assert_eq!(engine.applied_so_far(), strings(&["001_a", "002_b", "003_x"]));
}

#[test]
fn partial_failure_keeps_exactly_the_committed_prefix() {
    let files = strings(&["001_a", "002_b", "003_c"]);
    let pending = filter_not_applied_migrations(vec![], files.clone());
    assert_eq!(pending, strings(&["001_a", "002_b", "003_c"]));

    let (applied, halted) = run_engine(pending, &["002_b"]);
    assert!(halted);
    assert_eq!(applied, strings(&["001_a"]));

    let retry = filter_not_applied_migrations(applied, files);
    assert_eq!(retry, strings(&["002_b", "003_c"]));
}

#[test]
fn second_run_after_success_is_a_noop() {
    let files = strings(&["002_b", "001_a"]);
    let pending = filter_not_applied_migrations(vec![], files.clone());
    assert_eq!(pending, strings(&["001_a", "002_b"]));

    let (applied, halted) = run_engine(pending, &[]);
    assert!(!halted);
    assert_eq!(applied, strings(&["001_a", "002_b"]));

    let second = filter_not_applied_migrations(applied, files);
    assert!(second.is_empty());
}

#[test]
fn identifier_is_recorded_at_most_once_across_interleaved_runs() {
    let files = strings(&["001_a", "002_b", "003_c"]);
    let mut history: Vec<String> = Vec::new();

    // First run fails at 002_b, a later one fails at 003_c, the last succeeds.
    for failing in [&["002_b"][..], &["003_c"][..], &[][..]] {
        let pending = filter_not_applied_migrations(history.clone(), files.clone());
        let (applied, _) = run_engine(pending, failing);
        history.extend(applied);
    }

    assert_eq!(history, strings(&["001_a", "002_b", "003_c"]));
    for id in &history {
        assert_eq!(history.iter().filter(|h| h == &id).count(), 1);
    }
    assert!(filter_not_applied_migrations(history, files).is_empty());
}

#[test]
fn engine_with_nothing_pending_is_done_at_once() {
    let engine = ApplyEngine::new(vec![]);
    assert!(matches!(engine.next_action(), NextAction::Done));
    assert!(engine.applied_so_far().is_empty());
}

#[test]
fn halted_engine_stays_halted() {
    let mut engine = ApplyEngine::new(strings(&["001_a", "002_b"]));
    match engine.next_action() {
        NextAction::Apply(id) => {
            assert_eq!(id, "001_a");
            engine.record_failure();
        }
        _ => panic!("expected an apply action"),
    }
    assert!(matches!(engine.next_action(), NextAction::Halted));
    assert!(engine.applied_so_far().is_empty());
}

#[test]
fn plan_without_a_source_is_a_noop() {
    // The driver creates the missing source location and exits cleanly
    // without touching the database; the decision itself is this plan.
    let plan = plan_run(None, vec![]);
    assert!(matches!(plan, RunPlan::NothingToApply));
}

#[test]
fn plan_with_everything_applied_is_a_noop() {
    let plan = plan_run(
        Some(strings(&["001_a", "002_b"])),
        strings(&["001_a", "002_b"]),
    );
    assert!(matches!(plan, RunPlan::NothingToApply));
}

#[test]
fn plan_with_new_migrations_is_the_sorted_pending_sequence() {
    let plan = plan_run(
        Some(strings(&["003_x", "001_a", "002_b"])),
        strings(&["001_a"]),
    );
    match plan {
        RunPlan::Apply(pending) => assert_eq!(pending, strings(&["002_b", "003_x"])),
        RunPlan::NothingToApply => panic!("there were pending migrations"),
    }
}
