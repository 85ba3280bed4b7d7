use nmbrs_runtime::executor::do_loop::{
    check_loop, find_loop_scope, loop_coords, loop_kind, Condition, DoLoop, LoopAction, LoopEvent,
    LoopScope,
};
use nmbrs_runtime::phase_outcome::Outcome;
use nmbrs_runtime::value::{Float, Json, JsonNumber, Value};

fn said(v: Value) -> LoopEvent {
    LoopEvent::Condition(Condition::Value(v, "shown".into()))
}

fn ran(outcome: Outcome) -> LoopEvent {
    LoopEvent::Body { outcome, reclaimed: true }
}

fn float(f: f64) -> Value {
    Value::F64(Float { bits: f.to_bits(), text: f.to_string() })
}

#[test]
fn the_counter_counts_iterations() {
    let mut l = DoLoop::new("x < 3", false);
    assert!(matches!(l.advance(LoopEvent::Start), LoopAction::Evaluate(0)));
    for n in 0..3u64 {
        assert!(matches!(l.advance(said(Value::Bool(true))), LoopAction::Run(k) if k == n));
        assert!(matches!(
            l.advance(ran(Outcome::completed())),
            LoopAction::Evaluate(k) if k == n + 1
        ));
    }
    assert!(matches!(l.advance(said(Value::Bool(false))), LoopAction::Finish(Ok(()))));
}

#[test]
fn an_until_loop_negates_its_condition() {
    for v in [Value::U64(0), Value::Bool(false), float(0.0), float(-0.0)] {
        let mut w = DoLoop::new("c", false);
        w.advance(LoopEvent::Start);
        assert!(matches!(w.advance(said(v.copy())), LoopAction::Finish(Ok(()))));
        let mut u = DoLoop::new("c", true);
        u.advance(LoopEvent::Start);
        assert!(matches!(u.advance(said(v)), LoopAction::Run(0)));
    }
    for v in [Value::U64(7), float(0.5), float(f64::NAN)] {
        let mut w = DoLoop::new("c", false);
        w.advance(LoopEvent::Start);
        assert!(matches!(w.advance(said(v.copy())), LoopAction::Run(0)));
        let mut u = DoLoop::new("c", true);
        u.advance(LoopEvent::Start);
        assert!(matches!(u.advance(said(v)), LoopAction::Finish(Ok(()))));
    }
    assert_eq!((loop_kind(false), loop_kind(true)), ("do_while", "do_until"));
}

#[test]
fn a_condition_must_be_a_truth_value() {
    let mut l = DoLoop::new("c", false);
    l.advance(LoopEvent::Start);
    match l.advance(said(Value::Str("yes".into()))) {
        LoopAction::Finish(Err(e)) => {
            assert_eq!(e, "do-loop condition 'c': expected bool/u64/f64, got shown")
        }
        _ => panic!("not finished"),
    }
    let mut l = DoLoop::new("c", true);
    l.advance(LoopEvent::Start);
    match l.advance(LoopEvent::Condition(Condition::Fault("no wire".into()))) {
        LoopAction::Finish(Err(e)) => assert_eq!(e, "do-loop condition 'c': no wire"),
        _ => panic!("not finished"),
    }
}

#[test]
fn a_failed_body_ends_the_loop() {
    let mut l = DoLoop::new("c", false);
    l.advance(LoopEvent::Start);
    l.advance(said(Value::Bool(true)));
    match l.advance(ran(Outcome::failed().with_reason("boom"))) {
        LoopAction::Finish(Err(e)) => assert_eq!(e, "boom"),
        _ => panic!("not finished"),
    }
    let mut l = DoLoop::new("c", false);
    l.advance(LoopEvent::Start);
    l.advance(said(Value::Bool(true)));
    match l.advance(LoopEvent::Body { outcome: Outcome::failed(), reclaimed: false }) {
        LoopAction::Finish(Err(e)) => assert_eq!(
            e,
            "do-loop 'c' iteration 0: persistent kernel still referenced after children \
             completed — concurrency bug."
        ),
        _ => panic!("not finished"),
    }
}

#[test]
fn a_loop_finds_its_scope() {
    let scopes = vec![
        LoopScope::Other,
        LoopScope::DoUntil { condition: "c".into(), counter: None },
        LoopScope::DoWhile { condition: "c".into(), counter: Some("i".into()) },
        LoopScope::DoWhile { condition: "c".into(), counter: None },
    ];
    assert_eq!(find_loop_scope(&scopes, "c", &None, false), Some(3));
    assert_eq!(find_loop_scope(&scopes, "c", &Some("i".into()), false), Some(2));
    assert_eq!(find_loop_scope(&scopes, "c", &None, true), Some(1));
    assert_eq!(find_loop_scope(&scopes, "d", &None, true), None);
    assert_eq!(check_loop("c", Some(3), true, true), Ok(()));
    assert_eq!(
        check_loop("c", None, true, true),
        Err("do-loop 'c': no matching scope-tree entry — scenario/scope-tree drift bug.".into())
    );
    assert_eq!(
        check_loop("c", Some(3), false, true),
        Err("do-loop 'c': scope at index 3 has no installed kernel.".into())
    );
    assert_eq!(
        check_loop("c", Some(3), true, false),
        Err("do-loop 'c': no installed ancestor kernel.".into())
    );
}

#[test]
fn a_loop_has_its_counter_as_coordinate() {
    let m = loop_coords(&Some("i".into()), 4);
    assert_eq!(m.len(), 1);
    assert!(matches!(m.get("i"), Some(Json::Number(JsonNumber::Unsigned(4)))));
    assert_eq!(loop_coords(&None, 4).len(), 0);
}
