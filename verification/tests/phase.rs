use nmbrs_runtime::adapter::{DriverImpl, Registry, SharedDriverRegistration};
use nmbrs_runtime::executor::context::{PhaseFilter, RefinePlan, RefineScope};
use nmbrs_runtime::executor::coords::ScopeCoord;
use nmbrs_runtime::executor::phase_end::{
    failure_detail, failure_record, needs_early_record, objective_source, phase_result,
    record_early_phase_failure, signal_after_failure, signal_after_success, stop_text,
    success_record, EndKind, ObjectiveSource, Provenance, Returned, Trip, WalkSignal,
};
use nmbrs_runtime::executor::phase_metrics::{
    emit_phase_metrics, measure, metrics_fault, metrics_ready, metrics_warning, Measured,
    MetricRead,
};
use nmbrs_runtime::executor::phase_setup::{
    activity_name, adapter_names, check_final, check_init, classify_cycles, const_expression,
    gate_wire, gather_stop_conditions, hash_gate_applies, needs_own_scope, override_note,
    panic_message, phase_context, phase_reach, prunes, resolve_concurrency, resolve_cycles,
    phase_settings, resolve_poll, resolve_rate, resolve_selector_param, resume_skips,
    scope_refused, setup_failed, shared_registration, stop_list, text_for_params, text_from_params,
    timeout_fault, CyclesSpec, Declarer, Gathered, GateProbe, OverrideNote, PanicPayload, ParentWire,
    PhaseOverride, PhaseReach, PollBounds, PollTimeoutPolicy, Pulled, ResolvedPoll, ResumeAction,
    RunDefaults, SetupFault, StopEntry, TextField, WriteResult,
};
use nmbrs_runtime::executor::phase_start::{PhaseStart, StartGate, StartStep, Verdict};
use nmbrs_runtime::executor::provenance::{hex_text, params_consumed_json, provenance};
use nmbrs_runtime::executor::shell::{StopCause, StopScope};
use nmbrs_runtime::executor::vars::IterVars;
use nmbrs_runtime::model::{
    ExecDepth, MetricKind, MetricSpec, OpTemplate, PollSpec, ScopeLevel, StopWhen, WorkloadPhase,
};
use nmbrs_runtime::phase_outcome::{
    Disposition, Outcome, PhaseErrorDetail, Seconds, Validity,
};
use nmbrs_runtime::strmap::StrMap;
use nmbrs_runtime::value::{Float, Value};

fn op(name: &str, condition: Option<&str>) -> OpTemplate {
    OpTemplate {
        name: name.into(),
        has_bindings: false,
        condition: condition.map(|s| s.to_string()),
        adapter: None,
    }
}

fn vars(list: &[(&str, &str)]) -> IterVars {
    let outputs =
        list.iter().map(|(n, v)| (n.to_string(), Some(v.to_string()))).collect::<Vec<_>>();
    IterVars::collect(&outputs, &vec![])
}

fn float(f: f64) -> Float {
    Float { bits: f.to_bits(), text: f.to_string() }
}

fn probe(op: &str, value: Option<Value>) -> GateProbe {
    GateProbe { op: op.into(), value }
}

#[test]
fn a_phase_passes_every_gate_before_it_runs() {
    let order = [
        StartGate::Resume,
        StartGate::Prune,
        StartGate::Ops,
        StartGate::Scope,
        StartGate::Stanza,
        StartGate::Concurrency,
        StartGate::Refine,
        StartGate::Timeout,
        StartGate::Rate,
        StartGate::Adapters,
        StartGate::Depth,
        StartGate::Poll,
    ];
    let mut p = PhaseStart::new();
    assert_eq!(p.gate(), Some(StartGate::Lookup));
    for g in order {
        assert!(matches!(p.advance(Verdict::Pass), StartStep::Ask(h) if h == g));
    }
    assert!(matches!(p.advance(Verdict::Pass), StartStep::Run));
    assert_eq!(p.gate(), None);
}

#[test]
fn the_first_refusal_decides() {
    let mut p = PhaseStart::new();
    p.advance(Verdict::Pass);
    assert!(matches!(p.advance(Verdict::Skip), StartStep::End(o) if o == Outcome::skipped()));
    assert_eq!(p.gate(), None);
    let mut p = PhaseStart::new();
    match p.advance(Verdict::Fail("phase 'x' not found".into())) {
        StartStep::End(o) => {
            assert_eq!((o.disposition, o.validity), (Disposition::Interrupted, Validity::Failed));
            assert_eq!(o.reason.as_deref(), Some("phase 'x' not found"));
        }
        _ => panic!("not ended"),
    }
}

#[test]
fn resume_skips_what_completed() {
    assert!(resume_skips(&ResumeAction::Skip, false));
    assert!(!resume_skips(&ResumeAction::Skip, true));
    assert!(!resume_skips(&ResumeAction::ReRun, false));
    assert!(!resume_skips(&ResumeAction::CursorResume, false));
    assert!(!resume_skips(&ResumeAction::IdentityMismatch("x".into()), false));
}

#[test]
fn an_open_op_gate_keeps_the_phase() {
    assert_eq!(gate_wire("  {ready} "), "ready");
    assert_eq!(gate_wire("ready"), "ready");
    let ops = vec![op("a", Some("{x}")), op("b", Some("{y}"))];
    let shut = || vec![probe("a", Some(Value::Bool(false))), probe("b", Some(Value::U64(0)))];
    assert!(prunes(true, &ops, true, 1, &shut()));
    assert!(!prunes(false, &ops, true, 1, &shut()));
    assert!(!prunes(true, &ops, false, 1, &shut()));
    assert!(!prunes(true, &ops, true, 2, &shut()));
    assert!(!prunes(true, &vec![], true, 1, &vec![]));
    assert!(!prunes(true, &vec![op("a", None)], true, 1, &shut()));
    let mut open = shut();
    open[1].value = Some(Value::U64(1));
    assert!(!prunes(true, &ops, true, 1, &open));
    open[1].value = None;
    assert!(!prunes(true, &ops, true, 1, &open));
    assert!(!prunes(true, &ops, true, 1, &vec![probe("a", Some(Value::Bool(false)))]));
}

#[test]
fn phases_that_cannot_be_set_up() {
    let o = setup_failed("load", SetupFault::Unknown);
    assert_eq!(o.reason.as_deref(), Some("phase 'load' not found"));
    assert!(setup_failed("load", SetupFault::NoOps)
        .reason
        .unwrap()
        .starts_with("phase 'load' reached dispatch with no ops"));
    assert!(setup_failed("load", SetupFault::NoParent)
        .reason
        .unwrap()
        .starts_with("phase 'load': no current_parent_kernel"));
    assert!(setup_failed("load", SetupFault::NoPollScope)
        .reason
        .unwrap()
        .contains("phase-poll requires the phase scope kernel to be installed"));
    let o = scope_refused("phase 'load' (k=1)", "shadowed name");
    assert_eq!(o.reason.as_deref(), Some("phase 'load' (k=1): shadowed name"));
    assert_eq!(
        timeout_fault("load", "{t}", "soon", "bad duration").reason.as_deref(),
        Some("phase 'load': `timeout: \"{t}\"` (resolved: \"soon\"): bad duration")
    );
}

#[test]
fn a_phase_is_named_with_its_values() {
    assert_eq!(phase_context("load", &vars(&[])), "phase 'load'");
    assert_eq!(phase_context("load", &vars(&[("k", "1"), ("m", "x")])), "phase 'load' (k=1, m=x)");
    assert!(!needs_own_scope(&vars(&[]), &vec![op("a", None)]));
    assert!(needs_own_scope(&vars(&[("k", "1")]), &vec![]));
    let mut bound = op("a", None);
    bound.has_bindings = true;
    assert!(needs_own_scope(&vars(&[]), &vec![op("b", None), bound]));
    let leaf = ScopeCoord { vars: vec![("k".into(), Value::U64(1))] };
    assert_eq!(activity_name("load", Some(&leaf)), "load (k=1)");
    assert_eq!(activity_name("load", Some(&ScopeCoord { vars: vec![] })), "load");
    assert_eq!(activity_name("load", None), "load");
}

#[test]
fn bindings_must_have_values_at_activation() {
    assert!(check_init("phase 'p'", "x", &Pulled::Value).is_ok());
    assert!(check_init("phase 'p'", "x", &Pulled::Nothing).unwrap_err().starts_with(
        "phase 'p': init binding 'x' violates the init contract: scope-init eval returned Value::None"
    ));
    assert!(check_init("phase 'p'", "x", &Pulled::Panicked("oops".into())).unwrap_err().starts_with(
        "phase 'p': init binding 'x' violates the init contract: scope-init eval panicked: oops"
    ));
    assert!(check_final("phase 'p'", "x", true, &Pulled::Nothing).is_ok());
    assert!(check_final("phase 'p'", "x", false, &Pulled::Value).is_ok());
    assert!(check_final("phase 'p'", "x", false, &Pulled::Nothing)
        .unwrap_err()
        .starts_with("phase 'p': final binding 'x' could not be materialised at scope activation"));
    assert_eq!(
        check_final("phase 'p'", "x", false, &Pulled::Panicked("oops".into())).unwrap_err(),
        "phase 'p': final binding 'x' eval panicked at scope activation: oops"
    );
    assert_eq!(panic_message(&PanicPayload::Text("oops".into())), "oops");
    assert_eq!(panic_message(&PanicPayload::Other), "<non-string panic payload>");
}

#[test]
fn overrides_are_noted() {
    let mut ov = PhaseOverride {
        pattern: "load".into(),
        literal: true,
        param: "size".into(),
        value: "9".into(),
    };
    match override_note("phase 'load'", "load", &ov, &WriteResult::Written) {
        OverrideNote::Applied(t) => assert_eq!(
            t,
            "phase 'load': param `size` overridden to `9` (CLI `load.size=`)"
        ),
        _ => panic!("not applied"),
    }
    match override_note("phase 'load'", "load", &ov, &WriteResult::UnknownWire) {
        OverrideNote::Unused(t) => assert_eq!(
            t,
            "phase 'load': override `load.size=` names a param this phase does not consume — no \
             wire named `size` in its scope"
        ),
        _ => panic!("not unused"),
    }
    match override_note("phase 'load'", "load", &ov, &WriteResult::Fault("bad".into())) {
        OverrideNote::Fail(t) => {
            assert_eq!(t, "phase 'load': phase-scoped override `load.size=`: bad")
        }
        _ => panic!("no failure"),
    }
    ov.literal = false;
    assert!(matches!(
        override_note("phase 'load'", "load", &ov, &WriteResult::UnknownWire),
        OverrideNote::Silent
    ));
}

#[test]
fn cycles_of_a_phase() {
    for auto in [None, Some("==auto".to_string()), Some("===auto".to_string()), Some(String::new())] {
        let spec = classify_cycles(&auto);
        assert!(matches!(spec, CyclesSpec::Auto));
        assert_eq!(resolve_cycles(&spec, Some(9), 4), 4);
    }
    let ops = classify_cycles(&Some("==ops:{n}".into()));
    assert!(matches!(&ops, CyclesSpec::Ops(s) if s == "{n}"));
    assert_eq!((resolve_cycles(&ops, Some(9), 4), resolve_cycles(&ops, None, 4)), (9, 4));
    let stanzas = classify_cycles(&Some("10".into()));
    assert!(matches!(&stanzas, CyclesSpec::Stanzas(s) if s == "10"));
    assert_eq!((resolve_cycles(&stanzas, Some(9), 4), resolve_cycles(&stanzas, None, 4)), (36, 4));
    assert_eq!(const_expression("{a + 1}").as_deref(), Some("a + 1"));
    assert_eq!(const_expression("{}").as_deref(), Some(""));
    assert_eq!((const_expression("a"), const_expression("{a")), (None, None));
}

#[test]
fn concurrency_is_a_number_or_a_name() {
    let mut params = StrMap::new();
    params.insert("threads".into(), " 6 ".into());
    params.insert("word".into(), "many".into());
    let none = vars(&[]);
    assert_eq!(resolve_concurrency("8", &none, &None, &params), Ok(8));
    assert_eq!(resolve_concurrency(" threads ", &none, &None, &params), Ok(6));
    assert_eq!(resolve_concurrency("threads", &vars(&[("threads", "3")]), &None, &params), Ok(3));
    let wire = Some(ParentWire { value: Value::F64(float(5.0)), whole: 5 });
    assert_eq!(resolve_concurrency("threads", &none, &wire, &params), Ok(5));
    let text = Some(ParentWire { value: Value::Str("7".into()), whole: 0 });
    assert_eq!(resolve_concurrency("threads", &none, &text, &params), Ok(7));
    for bad in ["word", "nowhere", ""] {
        assert_eq!(
            resolve_concurrency(bad, &none, &None, &params),
            Err(format!(
                "concurrency '{bad}' is neither an integer nor a resolvable name (checked \
                 iteration variables, the parent scope, and workload params)"
            ))
        );
    }
}

#[test]
fn hashes_decide_in_a_refining_run() {
    let plan = |scope| Some(RefinePlan { scope, completed: vec![] });
    let named = Some(PhaseFilter { selected: vec!["load".into()] });
    assert!(hash_gate_applies(&plan(RefineScope::Changed), &None, "load", false));
    assert!(!hash_gate_applies(&plan(RefineScope::Changed), &named, "load", false));
    assert!(hash_gate_applies(&plan(RefineScope::Missing), &None, "load", true));
    assert!(!hash_gate_applies(&plan(RefineScope::Missing), &None, "load", false));
    assert!(!hash_gate_applies(&plan(RefineScope::All), &None, "load", true));
    assert!(!hash_gate_applies(&None, &None, "load", true));
}

#[test]
fn rates_and_polls_are_numbers() {
    assert_eq!(resolve_rate("load", "{r}", " 12.5 "), Ok("12.5".into()));
    assert_eq!(
        resolve_rate("load", "{r}", "fast").unwrap_err(),
        "phase 'load': `rate: \"{r}\"` (resolved: \"fast\") is not a number of ops/sec"
    );
    let none = PollSpec {
        interval_ms: None,
        timeout_ms: None,
        max_error_retries: None,
        on_timeout: None,
    };
    let texts = |a: &str, b: &str, c: &str| ResolvedPoll {
        interval_ms: a.into(),
        timeout_ms: b.into(),
        max_error_retries: c.into(),
    };
    assert_eq!(
        resolve_poll("load", &none, &texts("", "", "")),
        Ok(PollBounds {
            interval_ms: 1000,
            timeout_ms: 300_000,
            max_error_retries: 0,
            on_timeout: PollTimeoutPolicy::Error,
        })
    );
    let spec = PollSpec {
        interval_ms: Some("{i}".into()),
        timeout_ms: Some("{t}".into()),
        max_error_retries: Some("{m}".into()),
        on_timeout: Some("abort".into()),
    };
    assert_eq!(
        resolve_poll("load", &spec, &texts(" 5 ", "60", "99999999999")),
        Ok(PollBounds {
            interval_ms: 5,
            timeout_ms: 60,
            max_error_retries: u32::MAX,
            on_timeout: PollTimeoutPolicy::Abort,
        })
    );
    assert_eq!(
        resolve_poll("load", &spec, &texts("x", "y", "z")).unwrap_err(),
        "phase 'load': poll `interval_ms: \"{i}\"` (resolved: \"x\") is not a whole number of \
         milliseconds"
    );
    assert!(resolve_poll("load", &spec, &texts("1", "y", "z")).unwrap_err().contains("timeout_ms"));
    assert!(resolve_poll("load", &spec, &texts("1", "2", "z"))
        .unwrap_err()
        .contains("max_error_retries"));
}

#[test]
fn a_phase_takes_on_stop_conditions() {
    let when = |each: Vec<ScopeLevel>, at| StopWhen { when: "x".into(), effect: None, at, each };
    let own = vec![
        when(vec![ScopeLevel::SelfScope], None),
        when(vec![ScopeLevel::Op], None),
        when(vec![ScopeLevel::Phase], Some(ScopeLevel::Workload)),
    ];
    let workload = vec![
        when(vec![ScopeLevel::SelfScope], None),
        when(vec![ScopeLevel::Scenario, ScopeLevel::Phase], None),
    ];
    assert_eq!(
        gather_stop_conditions(&own, &workload),
        vec![
            Gathered { by: Declarer::Phase, index: 0, target: StopScope::Phase },
            Gathered { by: Declarer::Phase, index: 2, target: StopScope::Workload },
            Gathered { by: Declarer::Workload, index: 1, target: StopScope::Phase },
        ]
    );
}

#[test]
fn adapters_of_a_phase() {
    let mut a = op("a", None);
    a.adapter = Some("http".into());
    let mut b = op("b", None);
    b.adapter = Some("cql".into());
    let mut c = op("c", None);
    c.adapter = Some("http".into());
    assert_eq!(adapter_names("cql", &vec![a, b, c, op("d", None)]), vec!["cql", "http"]);
    assert_eq!(resolve_selector_param("cql"), "cqldriver");
    assert_eq!(phase_reach(ExecDepth::Phase), PhaseReach::Attached);
    assert_eq!(phase_reach(ExecDepth::Op), PhaseReach::Dispensers);
    assert_eq!(phase_reach(ExecDepth::Cycle), PhaseReach::Cycles);
}

fn returned() -> Returned {
    Returned {
        stopped: false,
        settled: None,
        servo_completed: false,
        stop_outcome: None,
        stop_reason: None,
        depth: ExecDepth::Full,
    }
}

#[test]
fn a_failure_needs_a_stop() {
    assert_eq!(returned().kind(), EndKind::Completed);
    assert!(returned().records_metrics(1));
    assert!(!returned().records_metrics(0));
    let stopped = Returned { stopped: true, ..returned() };
    assert_eq!(stopped.kind(), EndKind::Failed);
    assert!(!stopped.records_metrics(1));
    let graceful =
        Returned { stopped: true, stop_outcome: Some(Outcome::interrupted()), ..returned() };
    assert!(graceful.is_graceful());
    assert_eq!(graceful.kind(), EndKind::Graceful);
    assert!(graceful.records_metrics(1));
    let failing = Returned { stopped: true, stop_outcome: Some(Outcome::failed()), ..returned() };
    assert_eq!(failing.kind(), EndKind::Failed);
    let settled = Returned { stopped: true, settled: Some(Outcome::completed()), ..returned() };
    assert_eq!(settled.kind(), EndKind::Completed);
    let unsettled = Returned { stopped: true, settled: Some(Outcome::failed()), ..returned() };
    assert_eq!(unsettled.kind(), EndKind::Failed);
    let servo = Returned { stopped: true, servo_completed: true, ..returned() };
    assert_eq!(servo.kind(), EndKind::Completed);
    let dry = Returned { stopped: true, depth: ExecDepth::Op, ..returned() };
    assert_eq!(dry.kind(), EndKind::Dry);
}

#[test]
fn objectives_are_settled_or_read() {
    assert_eq!(objective_source(true, true, false, false, false), ObjectiveSource::Register);
    assert_eq!(objective_source(false, false, true, true, true), ObjectiveSource::Read);
    assert_eq!(objective_source(false, true, true, true, true), ObjectiveSource::Missing);
    assert_eq!(objective_source(false, false, true, true, false), ObjectiveSource::Missing);
}

fn made() -> Provenance {
    Provenance { phase_hash: "ab".into(), params_consumed: Some("{}".into()) }
}

fn secs() -> Seconds {
    Seconds { bits: 1.5f64.to_bits() }
}

#[test]
fn phases_are_recorded() {
    let r = failure_record("load", "(k=1)", secs(), vec![], &None, made(), 42);
    assert_eq!((r.disposition, r.validity), (Disposition::Interrupted, Validity::Failed));
    assert_eq!(r.errors.len(), 1);
    assert_eq!(r.errors[0].class, "phase_failed");
    assert_eq!(r.errors[0].message, "stopped by error handler");
    assert_eq!(r.errors[0].at_nanos, 42);
    assert_eq!(r.phase_hash.as_deref(), Some("ab"));
    let known = PhaseErrorDetail {
        class: "io".into(),
        message: "m".into(),
        op_name: None,
        cycle: Some(3),
        op_template: None,
        op_resolved: None,
        at_nanos: 1,
        retryable: true,
    };
    let r = failure_record("load", "", secs(), vec![known.clone()], &Some("x".into()), made(), 42);
    assert_eq!(r.errors, vec![known.clone()]);
    let r = success_record("load", "", secs(), vec![known], true, made());
    assert_eq!((r.disposition, r.validity), (Disposition::Interrupted, Validity::Succeeded));
    assert_eq!(r.errors.len(), 1);
    let r = success_record("load", "", secs(), vec![], false, made());
    assert_eq!((r.disposition, r.validity), (Disposition::Completed, Validity::Succeeded));
    assert_eq!(r.params_consumed.as_deref(), Some("{}"));
}

#[test]
fn early_failures_are_recorded_once() {
    assert!(needs_early_record(&Outcome::failed(), false));
    assert!(!needs_early_record(&Outcome::failed(), true));
    assert!(!needs_early_record(&Outcome::skipped(), false));
    let r = record_early_phase_failure("load", &Outcome::failed().with_reason("bad rate"), 7);
    assert_eq!((r.phase_id.name.as_str(), r.phase_id.labels.as_str()), ("load", ""));
    assert_eq!((r.errors[0].class.as_str(), r.errors[0].message.as_str()), ("config", "bad rate"));
    assert_eq!(r.duration_secs, Seconds { bits: 0.0f64.to_bits() });
    let r = record_early_phase_failure("load", &Outcome::failed(), 7);
    assert_eq!(r.errors[0].message, "phase configuration failed");
    assert_eq!(r.phase_hash, None);
}

#[test]
fn a_workload_condition_speaks_through_a_phase() {
    let trip = |o| Some(Trip { outcome: o, reason: "errors > 3".into(), actual: "4".into() });
    assert_eq!(signal_after_failure(&trip(Outcome::failed())), WalkSignal::Stop(StopCause::Fault));
    assert_eq!(
        signal_after_failure(&trip(Outcome::interrupted())),
        WalkSignal::Stop(StopCause::Interrupt)
    );
    assert_eq!(signal_after_failure(&None), WalkSignal::GoOn);
    assert_eq!(signal_after_success(&trip(Outcome::failed())), WalkSignal::GoOn);
    assert_eq!(signal_after_success(&trip(Outcome::interrupted())), WalkSignal::Graceful);
    assert_eq!(signal_after_success(&None), WalkSignal::GoOn);
    let o = phase_result("load", EndKind::Completed, &None, &trip(Outcome::failed()));
    assert_eq!(
        o.reason.as_deref(),
        Some("workload stop condition tripped: errors > 3 — actual: 4")
    );
    assert!(o.is_failure());
    assert!(phase_result("load", EndKind::Completed, &None, &None) == Outcome::completed());
    assert!(phase_result("load", EndKind::Dry, &None, &trip(Outcome::failed())) == Outcome::skipped());
    let o = phase_result("load", EndKind::Graceful, &Some("enough".into()), &None);
    assert_eq!((o.disposition, o.validity), (Disposition::Interrupted, Validity::Succeeded));
    assert_eq!(o.reason.as_deref(), Some("enough"));
    let o = phase_result("load", EndKind::Failed, &Some("boom".into()), &None);
    assert_eq!(o.reason.as_deref(), Some("phase 'load' stopped by error handler: boom"));
    assert_eq!(stop_text(&None), "stopped by error handler");
    assert_eq!(failure_detail(&None), "stopped by error handler: stopped by error handler");
}

fn metric(cell: &[&str]) -> MetricSpec {
    MetricSpec {
        value: "w".into(),
        format: None,
        family: None,
        kind: None,
        unit: None,
        cell: cell.iter().map(|s| s.to_string()).collect(),
    }
}

#[test]
fn metrics_are_recorded_once() {
    let mut m = StrMap::new();
    m.insert("recall".into(), metric(&["k"]));
    m.insert("bad".into(), metric(&[]));
    m.insert("unplaced".into(), metric(&["k"]));
    let mut hits = metric(&[]);
    hits.family = Some("cache".into());
    hits.kind = Some(MetricKind::Counter);
    hits.unit = Some("ops".into());
    m.insert("hits".into(), hits);
    // name order: bad, hits, recall, unplaced
    let reads = vec![
        MetricRead { value: Value::Str("x".into()), cell: vec![] },
        MetricRead { value: Value::Bool(true), cell: vec![] },
        MetricRead { value: Value::F64(float(0.5)), cell: vec![Value::Str("10".into())] },
        MetricRead { value: Value::U64(3), cell: vec![Value::U64(10)] },
    ];
    let r = emit_phase_metrics(&m, &reads);
    assert_eq!(r.len(), 2);
    assert_eq!((r[0].name.as_str(), r[0].family.as_str()), ("hits", "cache"));
    assert_eq!(r[0].kind, MetricKind::Counter);
    assert_eq!((r[0].value.clone(), r[0].cell.clone()), (Measured::Whole(1), None));
    assert_eq!((r[1].name.as_str(), r[1].family.as_str()), ("recall", "recall"));
    assert_eq!(r[1].kind, MetricKind::Gauge);
    assert_eq!(r[1].value, Measured::F64(float(0.5)));
    assert_eq!(r[1].cell, Some(vec![("k".to_string(), "10".to_string())]));
    assert_eq!(measure(&Value::Bool(false)), Some(Measured::Whole(0)));
    assert_eq!(measure(&Value::Absent), None);
    assert!(metrics_fault("load").starts_with("phase 'load' has `metrics:` but no cached phase"));
}

#[test]
fn metrics_need_a_kernel_and_a_scope() {
    assert_eq!(metrics_ready("load", false, false, &Err("x".into())), Ok(()));
    assert_eq!(metrics_ready("load", true, true, &Ok(())), Ok(()));
    assert_eq!(metrics_ready("load", true, false, &Ok(())), Err(metrics_fault("load")));
    assert_eq!(
        metrics_ready("load", true, true, &Err("no cell".into())),
        Err("phase 'load': metric-pull subscope: no cell".to_string())
    );
    assert_eq!(metrics_warning("load", "why"), "phase 'load': phase-metric emission: why");
}

#[test]
fn cycles_take_the_values_of_the_iteration_first() {
    let outputs = vec![("k".to_string(), Some("{p}".to_string()))];
    let vars = IterVars::collect(&outputs, &vec![]);
    let params = |t: &str| t.replace("{p}", "{k}");
    let fill = |field: TextField, raw: &str| {
        let expanded = params(text_for_params(field, raw, &vars).as_str());
        text_from_params(field, expanded.as_str(), &vars)
    };
    assert_eq!(fill(TextField::Cycles, "{k}"), "{k}");
    let others = [
        TextField::Concurrency, TextField::Timeout, TextField::Rate, TextField::Poll,
        TextField::StopWhen,
    ];
    for field in others {
        assert_eq!(fill(field, "{k}"), "{p}");
        assert_eq!(fill(field, "{p}"), "{p}");
    }
}

#[test]
fn provenance_is_canonical() {
    assert_eq!(hex_text(&vec![0x00, 0x9f, 0xab]), "009fab");
    let mut consumed = StrMap::new();
    consumed.insert("b".into(), "2".into());
    consumed.insert("a".into(), "say \"1\"".into());
    let json = r#"{"a":"say \"1\"","b":"2"}"#;
    assert_eq!(params_consumed_json(&consumed).as_deref(), Some(json));
    let p = provenance(&vec![0x10], &consumed);
    assert_eq!((p.phase_hash.as_str(), p.params_consumed.as_deref()), ("10", Some(json)));
    assert_eq!(params_consumed_json(&StrMap::new()).as_deref(), Some("{}"));
}

#[test]
fn guards_come_before_declared_conditions() {
    let own = Gathered { by: Declarer::Phase, index: 2, target: StopScope::Phase };
    assert_eq!(
        stop_list(true, true, &vec![own]),
        vec![StopEntry::ErrorRateGuard, StopEntry::TimeoutGuard, StopEntry::Declared(own)]
    );
    assert_eq!(stop_list(false, true, &vec![]), vec![StopEntry::TimeoutGuard]);
    assert_eq!(stop_list(false, false, &vec![own]), vec![StopEntry::Declared(own)]);
}

#[test]
fn a_phase_goes_before_the_run() {
    let run = RunDefaults {
        driver: "stdout".into(),
        concurrency: 1,
        rate: Some(float(10.0)),
        error_spec: "stop".into(),
        error_rate_max: None,
        tries: Some(3),
    };
    let mut phase = WorkloadPhase {
        daemon: false,
        for_each: None,
        idempotent: false,
        ops: vec![],
        cycles: None,
        concurrency: None,
        rate: None,
        timeout: None,
        adapter: None,
        errors: None,
        error_rate_max: None,
        tries: None,
        stop_when: vec![],
        poll: None,
        metrics: StrMap::new(),
        optimize: None,
        continue_if: None,
    };
    let s = phase_settings(&phase, None, &None, &run);
    assert_eq!((s.driver.as_str(), s.concurrency, s.error_spec.as_str()), ("stdout", 1, "stop"));
    assert_eq!((s.rate, s.error_rate_max, s.tries), (Some(float(10.0)), None, Some(3)));
    phase.adapter = Some("cql".into());
    phase.errors = Some("retry".into());
    phase.error_rate_max = Some(float(0.5));
    phase.tries = Some(7);
    let s = phase_settings(&phase, Some(8), &Some(float(2.0)), &run);
    assert_eq!((s.driver.as_str(), s.concurrency, s.error_spec.as_str()), ("cql", 8, "retry"));
    assert_eq!((s.rate, s.error_rate_max, s.tries), (Some(float(2.0)), Some(float(0.5)), Some(7)));
}

#[test]
fn phases_share_registered_drivers() {
    let driver = |name: &str, rank| DriverImpl {
        adapter: "cql".into(),
        driver: name.into(),
        default_rank: rank,
        known_params: vec![],
    };
    let registry = Registry {
        adapters: vec![],
        drivers: vec![driver("scylla", 2), driver("cass", 1)],
        shared: vec![SharedDriverRegistration { adapter: "cql".into(), driver: "scylla".into() }],
    };
    let mut params = StrMap::new();
    assert_eq!(shared_registration(&registry, "cql", &params, false), None);
    params.insert("cqldriver".into(), "scylla".into());
    assert_eq!(shared_registration(&registry, "cql", &params, false), Some(0));
    assert_eq!(shared_registration(&registry, "cql", &params, true), None);
}
