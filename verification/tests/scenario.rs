use nmbrs_runtime::executor::scenario::{
    daemon_flags, permits, preview_line, pushes_row_at_spawn, BodyAction, BodyEvent, BodyStart,
    ScenarioBody,
};
use nmbrs_runtime::model::{ConcurrencyLimit, ScenarioNode, WorkloadPhase};
use nmbrs_runtime::phase_outcome::{Disposition, Outcome, Validity};
use nmbrs_runtime::strmap::StrMap;

fn phase(daemon: bool, for_each: Option<&str>) -> WorkloadPhase {
    WorkloadPhase {
        daemon,
        for_each: for_each.map(|s| s.to_string()),
        idempotent: false,
        ops: vec![],
        cycles: None,
        concurrency: None,
        rate: None,
        timeout: None,
        adapter: None,
        errors: None,
        error_rate_max: None,
        tries: None,
        stop_when: vec![],
        poll: None,
        metrics: StrMap::new(),
        optimize: None,
        continue_if: None,
    }
}

fn phases() -> StrMap<WorkloadPhase> {
    let mut m = StrMap::new();
    m.insert("load".into(), phase(false, None));
    m.insert("watch".into(), phase(true, None));
    m.insert("probe".into(), phase(true, Some("k in 1,2")));
    m
}

fn nodes() -> Vec<ScenarioNode> {
    vec![
        ScenarioNode::Phase("load".into()),
        ScenarioNode::Phase("watch".into()),
        ScenarioNode::Phase("read".into()),
        ScenarioNode::Phase("probe".into()),
    ]
}

fn body(nodes: &Vec<ScenarioNode>) -> ScenarioBody {
    let scopes: Vec<usize> = (0..nodes.len()).collect();
    match ScenarioBody::begin(nodes, &phases(), 0, &scopes, false) {
        BodyStart::Started(b) => b,
        BodyStart::Refused(_) => panic!("refused"),
    }
}

#[test]
fn daemons_are_told_from_the_foreground() {
    assert_eq!(daemon_flags(&nodes(), &phases()), vec![false, true, false, true]);
    let scope = ScenarioNode::IncludedScenario { name: "watch".into(), children: vec![] };
    assert_eq!(daemon_flags(&vec![scope], &phases()), vec![false]);
    assert!(pushes_row_at_spawn("watch", &phases()));
    assert!(!pushes_row_at_spawn("probe", &phases()));
    assert!(pushes_row_at_spawn("nowhere", &phases()));
}

#[test]
fn daemons_start_before_the_foreground() {
    let mut b = body(&nodes());
    assert!(matches!(b.advance(BodyEvent::Proceed), BodyAction::SpawnDaemon(1)));
    assert!(matches!(b.advance(BodyEvent::Proceed), BodyAction::SpawnDaemon(3)));
    assert!(matches!(b.advance(BodyEvent::Proceed), BodyAction::Acquire(0)));
    assert!(matches!(b.advance(BodyEvent::Permit), BodyAction::Collect));
    assert!(matches!(b.advance(BodyEvent::Collected(None)), BodyAction::Check));
    assert!(matches!(b.advance(BodyEvent::Walk(false)), BodyAction::Dispatch(0)));
    assert!(matches!(b.advance(BodyEvent::Proceed), BodyAction::Acquire(2)));
    assert!(matches!(b.advance(BodyEvent::Permit), BodyAction::Collect));
    assert!(matches!(
        b.advance(BodyEvent::Collected(Some(Ok(Outcome::completed())))),
        BodyAction::Collect
    ));
    assert!(matches!(b.advance(BodyEvent::Collected(None)), BodyAction::Check));
    assert!(matches!(b.advance(BodyEvent::Walk(false)), BodyAction::Dispatch(2)));
    assert!(matches!(b.advance(BodyEvent::Proceed), BodyAction::Join));
    assert!(matches!(b.advance(BodyEvent::Joined(Some(Ok(Outcome::completed())))), BodyAction::Join));
    assert!(matches!(b.advance(BodyEvent::Joined(None)), BodyAction::StopDaemons));
    assert!(matches!(
        b.advance(BodyEvent::DaemonJoined(Some(Ok(Outcome::interrupted())))),
        BodyAction::JoinDaemon
    ));
    assert!(matches!(b.advance(BodyEvent::DaemonJoined(None)), BodyAction::Check));
    match b.advance(BodyEvent::Walk(false)) {
        BodyAction::Finish(o) => assert!(o == Outcome::completed()),
        _ => panic!("not finished"),
    }
}

#[test]
fn nothing_starts_after_a_failure() {
    let two = vec![ScenarioNode::Phase("load".into()), ScenarioNode::Phase("read".into())];
    let mut b = body(&two);
    assert!(matches!(b.advance(BodyEvent::Proceed), BodyAction::Acquire(0)));
    b.advance(BodyEvent::Permit);
    b.advance(BodyEvent::Collected(None));
    assert!(matches!(b.advance(BodyEvent::Walk(false)), BodyAction::Dispatch(0)));
    assert!(matches!(b.advance(BodyEvent::Proceed), BodyAction::Acquire(1)));
    b.advance(BodyEvent::Permit);
    b.advance(BodyEvent::Collected(Some(Ok(Outcome::failed().with_reason("boom")))));
    assert!(matches!(b.advance(BodyEvent::Collected(None)), BodyAction::Join));
    assert!(matches!(b.advance(BodyEvent::Joined(None)), BodyAction::Check));
    match b.advance(BodyEvent::Walk(false)) {
        BodyAction::Finish(o) => {
            assert_eq!(o.disposition, Disposition::Interrupted);
            assert_eq!(o.validity, Validity::Failed);
            assert_eq!(o.reason.as_deref(), Some("boom"));
        }
        _ => panic!("not finished"),
    }
}

#[test]
fn a_halted_walk_starts_nothing_more() {
    let two = vec![ScenarioNode::Phase("load".into()), ScenarioNode::Phase("read".into())];
    let mut b = body(&two);
    b.advance(BodyEvent::Proceed);
    b.advance(BodyEvent::Permit);
    b.advance(BodyEvent::Collected(None));
    assert!(matches!(b.advance(BodyEvent::Walk(true)), BodyAction::Join));
    b.advance(BodyEvent::Joined(None));
    match b.advance(BodyEvent::Walk(true)) {
        BodyAction::Finish(o) => assert!(o == Outcome::interrupted()),
        _ => panic!("not finished"),
    }
    assert!(matches!(
        ScenarioBody::begin(&two, &phases(), 0, &vec![1, 2], true),
        BodyStart::Refused(o) if o == Outcome::interrupted()
    ));
}

#[test]
fn a_lost_permit_fails_the_body() {
    let mut b = body(&nodes()[..1].iter().map(|_| ScenarioNode::Phase("load".into())).collect());
    b.advance(BodyEvent::Proceed);
    match b.advance(BodyEvent::PermitLost("closed".into())) {
        BodyAction::Finish(o) => {
            assert!(o.is_failure());
            assert_eq!(o.reason.as_deref(), Some("closed"));
        }
        _ => panic!("not finished"),
    }
}

#[test]
fn nodes_and_scopes_must_line_up() {
    match ScenarioBody::begin(&nodes(), &phases(), 7, &vec![1, 2], false) {
        BodyStart::Refused(o) => {
            assert_eq!((o.disposition, o.validity), (Disposition::Interrupted, Validity::Failed));
            assert_eq!(
                o.reason.as_deref(),
                Some(
                    "scope-tree/scenario-tree drift: scope node 7 has 2 child scopes but the \
                     walker is dispatching 4 sibling scenario nodes"
                )
            );
        }
        BodyStart::Started(_) => panic!("started"),
    }
}

#[test]
fn side_by_side_siblings_are_announced() {
    assert_eq!(permits(ConcurrencyLimit::Bounded(3)), Some(3));
    assert_eq!(permits(ConcurrencyLimit::Unlimited), None);
    let list = vec![(1, "load".to_string()), (3, "read".to_string())];
    assert_eq!(
        preview_line(ConcurrencyLimit::Bounded(2), &list, 4).as_deref(),
        Some("concurrent dispatch (limit=2): [1/4] load, [3/4] read")
    );
    assert_eq!(
        preview_line(ConcurrencyLimit::Unlimited, &list, 4).as_deref(),
        Some("concurrent dispatch (limit=*): [1/4] load, [3/4] read")
    );
    assert_eq!(preview_line(ConcurrencyLimit::Bounded(1), &list, 4), None);
    assert_eq!(preview_line(ConcurrencyLimit::Unlimited, &vec![], 4), None);
}
