use nmbrs_runtime::executor::sweep::{
    depth_indent, effective_limit, empty_clause, exit_word, gate_false, iteration_gate, GateResult,
    Sweep, SweepAction, SweepEvent, SweepStart,
};
use nmbrs_runtime::model::{ConcurrencyLimit, ContinueIfSpec, ExecDepth, ScopeLevel};
use nmbrs_runtime::phase_outcome::{Disposition, Outcome, Validity};
use nmbrs_runtime::value::Value;

fn gate(each: Vec<ScopeLevel>) -> Option<ContinueIfSpec> {
    Some(ContinueIfSpec { when: "p99 < 10".into(), each })
}

fn sweep(total: usize, gate: Option<ContinueIfSpec>) -> Sweep {
    match Sweep::begin(total, &gate, ExecDepth::Full, false) {
        SweepStart::Started(s) => s,
        SweepStart::Empty(_) => panic!("empty"),
    }
}

fn start_one(s: &mut Sweep, i: usize) {
    assert!(matches!(s.advance(SweepEvent::Proceed), SweepAction::Acquire(k) if k == i));
    assert!(matches!(s.advance(SweepEvent::Permit), SweepAction::Check));
    assert!(matches!(s.advance(SweepEvent::Walk(false)), SweepAction::Dispatch(k) if k == i));
}

#[test]
fn iterations_start_in_order() {
    let mut s = sweep(3, None);
    for i in 0..3 {
        start_one(&mut s, i);
    }
    assert!(matches!(s.advance(SweepEvent::Proceed), SweepAction::Join));
    for _ in 0..3 {
        assert!(matches!(
            s.advance(SweepEvent::Joined(Some(Ok(Outcome::completed())))),
            SweepAction::Join
        ));
    }
    assert!(matches!(s.advance(SweepEvent::Joined(None)), SweepAction::Check));
    assert!(matches!(s.advance(SweepEvent::Walk(false)), SweepAction::Finish(o) if o == Outcome::completed()));
}

#[test]
fn without_iterations_a_sweep_is_completed() {
    assert!(matches!(
        Sweep::begin(0, &gate(vec![]), ExecDepth::Full, false),
        SweepStart::Empty(o) if o == Outcome::completed()
    ));
}

#[test]
fn a_false_gate_halts_the_sweep() {
    let mut s = sweep(2, gate(vec![ScopeLevel::Workload]));
    assert!(matches!(s.advance(SweepEvent::Proceed), SweepAction::EvalGate(0)));
    assert!(matches!(s.advance(SweepEvent::Gated(GateResult::Holds)), SweepAction::Acquire(0)));
    s.advance(SweepEvent::Permit);
    s.advance(SweepEvent::Walk(false));
    assert!(matches!(s.advance(SweepEvent::Proceed), SweepAction::EvalGate(1)));
    let at = gate_false(&vec![("k".into(), Value::U64(2)), ("m".into(), Value::Str("x".into()))]);
    match s.advance(SweepEvent::Gated(at)) {
        SweepAction::Halt { reason, stop_workload } => {
            assert_eq!(reason, "continue_if: p99 < 10 — halted at k=2, m=x");
            assert!(stop_workload);
        }
        _ => panic!("not halted"),
    }
    s.advance(SweepEvent::Joined(Some(Ok(Outcome::completed()))));
    match s.advance(SweepEvent::Joined(None)) {
        SweepAction::Finish(o) => {
            assert_eq!((o.disposition, o.validity), (Disposition::Interrupted, Validity::Succeeded));
            assert_eq!(o.reason.as_deref(), Some("continue_if: p99 < 10 — halted at k=2, m=x"));
        }
        _ => panic!("not finished"),
    }
}

#[test]
fn a_failure_beats_a_halt() {
    let mut s = sweep(2, gate(vec![ScopeLevel::Scenario]));
    s.advance(SweepEvent::Proceed);
    s.advance(SweepEvent::Gated(GateResult::Holds));
    s.advance(SweepEvent::Permit);
    s.advance(SweepEvent::Walk(false));
    s.advance(SweepEvent::Proceed);
    match s.advance(SweepEvent::Gated(GateResult::False("k=2".into()))) {
        SweepAction::Halt { stop_workload, .. } => assert!(!stop_workload),
        _ => panic!("not halted"),
    }
    s.advance(SweepEvent::Joined(Some(Ok(Outcome::failed().with_reason("boom")))));
    s.advance(SweepEvent::Joined(Some(Err("late".into()))));
    assert!(matches!(s.advance(SweepEvent::Joined(None)), SweepAction::Check));
    match s.advance(SweepEvent::Walk(true)) {
        SweepAction::Finish(o) => {
            assert_eq!((o.disposition, o.validity), (Disposition::Interrupted, Validity::Failed));
            assert_eq!(o.reason.as_deref(), Some("boom"));
        }
        _ => panic!("not finished"),
    }
}

#[test]
fn a_gate_counts_only_where_ops_run() {
    for (depth, mapped) in [(ExecDepth::Dispenser, false), (ExecDepth::Full, true)] {
        match Sweep::begin(1, &gate(vec![]), depth, mapped) {
            SweepStart::Started(mut s) => {
                assert!(matches!(s.advance(SweepEvent::Proceed), SweepAction::Acquire(0)))
            }
            SweepStart::Empty(_) => panic!("empty"),
        }
    }
    assert!(iteration_gate(ExecDepth::Phase).is_some_and(|o| o == Outcome::skipped()));
    assert!(iteration_gate(ExecDepth::Dispenser).is_some());
    assert!(iteration_gate(ExecDepth::Op).is_none());
}

#[test]
fn faults_of_a_gate_or_a_permit_end_the_sweep() {
    let mut s = sweep(1, gate(vec![]));
    s.advance(SweepEvent::Proceed);
    match s.advance(SweepEvent::Gated(GateResult::Fault("no such wire".into()))) {
        SweepAction::Finish(o) => assert_eq!(o.reason.as_deref(), Some("no such wire")),
        _ => panic!("not finished"),
    }
    let mut s = sweep(1, None);
    s.advance(SweepEvent::Proceed);
    match s.advance(SweepEvent::PermitLost("closed".into())) {
        SweepAction::Finish(o) => assert!(o.is_failure()),
        _ => panic!("not finished"),
    }
}

#[test]
fn failed_iterations_are_remembered_by_their_words() {
    for (res, words) in [
        (Err("oops".to_string()), "concurrent comprehension iteration panicked: oops"),
        (Ok(Outcome::failed()), "comprehension iteration failed"),
    ] {
        let mut s = sweep(1, None);
        start_one(&mut s, 0);
        s.advance(SweepEvent::Proceed);
        s.advance(SweepEvent::Joined(Some(res)));
        s.advance(SweepEvent::Joined(None));
        match s.advance(SweepEvent::Walk(false)) {
            SweepAction::Finish(o) => {
                assert_eq!((o.disposition, o.validity), (Disposition::Completed, Validity::Failed));
                assert_eq!(o.reason.as_deref(), Some(words));
            }
            _ => panic!("not finished"),
        }
    }
}

#[test]
fn empty_clauses_warn_or_fail() {
    assert_eq!(
        empty_clause("k", Some("1..1"), true, false),
        Err("strict: for_each clause 'k in 1..1': produced no values".into())
    );
    assert_eq!(
        empty_clause("k", None, false, false),
        Ok(Some("warning: for_each clause 'k': produced no values".into()))
    );
    assert_eq!(empty_clause("k", None, false, true), Ok(None));
    assert_eq!(effective_limit(true, ConcurrencyLimit::Unlimited), ConcurrencyLimit::Bounded(1));
    assert_eq!(effective_limit(false, ConcurrencyLimit::Unlimited), ConcurrencyLimit::Unlimited);
    assert_eq!(exit_word(&Outcome::failed()), "interrupted");
    assert_eq!(exit_word(&Outcome::skipped()), "completed");
    assert_eq!((depth_indent(0), depth_indent(1), depth_indent(3)), ("".into(), "".into(), "  ".into()));
}
