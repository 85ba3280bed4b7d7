use nmbrs_runtime::executor::shell::{
    fold_aggregate, fold_child, join_outcome, poll_stop, resolve_stop_scope, tree_result,
    trip_cause, PhaseShell, ShellAction, ShellHandler, ShellKind, StopCause, StopScope,
};
use nmbrs_runtime::model::ScopeLevel;
use nmbrs_runtime::phase_outcome::{Disposition, Outcome, Validity};

#[test]
fn fold_aggregate_two_latch_quadrants() {
    // stop-policy fail: cascade reason + cut short -> Interrupted+Failed
    let o = fold_aggregate(Some("boom".into()), Some("boom".into()), false);
    assert_eq!((o.disposition, o.validity), (Disposition::Interrupted, Validity::Failed));
    assert_eq!(o.reason.as_deref(), Some("boom"));
    // NON-STOP fail: a failed child the handler let through, all ran -> Completed+Failed,
    // reason carried.
    let o = fold_aggregate(None, Some("soft".into()), false);
    assert_eq!((o.disposition, o.validity), (Disposition::Completed, Validity::Failed));
    assert_eq!(o.reason.as_deref(), Some("soft"));
    // workload halt, no failure -> Interrupted+Succeeded
    let o = fold_aggregate(None, None, true);
    assert_eq!((o.disposition, o.validity), (Disposition::Interrupted, Validity::Succeeded));
    // all clean -> Completed+Succeeded
    let o = fold_aggregate(None, None, false);
    assert_eq!((o.disposition, o.validity), (Disposition::Completed, Validity::Succeeded));
}

#[test]
fn the_first_failure_is_kept() {
    let handler = ShellHandler::scenario_default();
    let (mut first, mut any) = (None, None);
    fold_child(Ok(Outcome::completed()), &handler, &mut first, &mut any);
    assert_eq!((first.clone(), any.clone()), (None, None));
    fold_child(Ok(Outcome::failed().with_reason("a")), &handler, &mut first, &mut any);
    fold_child(Ok(Outcome::failed().with_reason("b")), &handler, &mut first, &mut any);
    fold_child(Err("oops".into()), &handler, &mut first, &mut any);
    assert_eq!(first.as_deref(), Some("a"));
    assert_eq!(any.as_deref(), Some("a"));
}

#[test]
fn a_failure_without_reason_is_not_lost() {
    let handler = ShellHandler::scenario_default();
    let (mut first, mut any) = (None, None);
    fold_child(Ok(Outcome::failed()), &handler, &mut first, &mut any);
    assert_eq!(any.as_deref(), Some("scenario: a unit failed"));
    let o = fold_aggregate(first, any, false);
    assert!(o.is_failure());
    assert_eq!(tree_result(&o).unwrap_err(), "scenario: a unit failed");
    assert!(tree_result(&Outcome::interrupted()).is_ok());
}

#[test]
fn a_panic_counts_as_a_fault() {
    let (o, reason) = join_outcome(Err("index out of range".into()));
    assert!(o.is_failure());
    assert_eq!(reason.as_deref(), Some("concurrent task panicked: index out of range"));
    let (o, reason) = join_outcome(Ok(Outcome::skipped()));
    assert_eq!(o.disposition, Disposition::Skipped);
    assert_eq!(reason, None);
}

#[test]
fn stops_are_ranked() {
    assert_eq!(poll_stop(true, true, true), Some(StopCause::Fault));
    assert_eq!(poll_stop(false, true, false), Some(StopCause::Interrupt));
    assert_eq!(poll_stop(false, false, true), Some(StopCause::Interrupt));
    assert_eq!(poll_stop(false, false, false), None);
    assert_eq!(trip_cause(&Outcome::failed()), StopCause::Fault);
    assert_eq!(trip_cause(&Outcome::interrupted()), StopCause::Interrupt);
}

#[test]
fn stop_scopes_resolve_to_the_innermost_level() {
    assert_eq!(resolve_stop_scope(None, &vec![]), StopScope::Phase);
    assert_eq!(resolve_stop_scope(None, &vec![ScopeLevel::Workload, ScopeLevel::Scenario]), StopScope::Scenario);
    assert_eq!(resolve_stop_scope(None, &vec![ScopeLevel::Workload, ScopeLevel::Phase]), StopScope::Phase);
    assert_eq!(resolve_stop_scope(None, &vec![ScopeLevel::Workload]), StopScope::Workload);
    assert_eq!(resolve_stop_scope(None, &vec![ScopeLevel::Op, ScopeLevel::SelfScope]), StopScope::Phase);
    assert_eq!(resolve_stop_scope(Some(ScopeLevel::Workload), &vec![ScopeLevel::Phase]), StopScope::Workload);
}

#[test]
fn a_scenario_stops_on_failure() {
    let h = ShellHandler::scenario_default();
    assert_eq!(h.decide(&Outcome::completed_failed()), ShellAction::Stop);
    assert_eq!(h.decide(&Outcome::interrupted()), ShellAction::Continue);
    let leaf = PhaseShell::new("load", 3);
    assert_eq!((leaf.name, leaf.node_id, leaf.shell_kind()), ("load", 3, ShellKind::Phase));
}
