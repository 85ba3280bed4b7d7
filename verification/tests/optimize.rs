use nmbrs_runtime::executor::optimize::{
    axis_value_to_polydat, classify_control_axes, control_subspace, coord_indices, coord_key,
    coord_text, eval_result, hybrid_cells, hybrid_needs_enumeration, index_steps, materialize,
    off_grid_warning, report_line, representative, require_windowed_objective, search_outcome, search_shape,
    search_space_continuous, search_space_from_steps, source_next, stamp_controls, synthesize,
    unknown_method,
    AxisKind, AxisValue, Changeover, ControlAxis, EvalStep, Evaluation, HybridBest, Search,
    SearchAction, SearchEvent, SearchReport, SearchShape, SourceCall,
};
use nmbrs_runtime::model::{ExecDepth, OptimizeBlock};
use nmbrs_runtime::phase_outcome::Outcome;
use nmbrs_runtime::value::{Float, Value};

fn float(f: f64) -> Float {
    Float { bits: f.to_bits(), text: f.to_string() }
}

fn num(f: f64) -> AxisValue {
    AxisValue::Num(float(f))
}

fn step(k: u64, m: &str) -> EvalStep {
    EvalStep {
        bindings: vec![("k".into(), Value::U64(k)), ("m".into(), Value::Str(m.into()))],
        position: vec![num(k as f64), AxisValue::Label(m.into())],
    }
}

fn steps() -> Vec<EvalStep> {
    vec![step(1, "a"), step(1, "b"), step(2, "a"), step(2, "b"), step(1, "a")]
}

fn block(max_evals: usize) -> OptimizeBlock {
    OptimizeBlock { method: "hill".into(), objective: "ops".into(), max_evals, servo: vec![] }
}

#[test]
fn candidates_span_the_space() {
    let s = search_space_from_steps(&steps());
    assert_eq!(s.axes.len(), 2);
    assert_eq!(s.axes[0].name, "k");
    assert_eq!(s.axes[0].kind, AxisKind::Discrete { detents: vec![num(1.0), num(2.0)] });
    let labels = vec![AxisValue::Label("a".into()), AxisValue::Label("b".into())];
    assert_eq!(s.axes[1].kind, AxisKind::Categorical { options: labels });
    assert_eq!(s.axes[1].changeover, Changeover::Coordinate);
    assert!(search_space_from_steps(&vec![]).axes.is_empty());
    let c = search_space_continuous(&vec!["x".into(), "y".into()], &vec![(float(0.5), float(2.0))]);
    assert_eq!(c.axes.len(), 1);
    assert_eq!(c.axes[0].kind, AxisKind::Continuous { lo: float(0.5), hi: float(2.0) });
}

#[test]
fn an_enumerated_coordinate_is_found() {
    let index = index_steps(&steps());
    assert_eq!(index.len(), 4);
    assert_eq!(materialize(&index, &steps()[3].position), Some(3));
    assert_eq!(materialize(&index, &steps()[4].position), Some(0));
    assert_eq!(materialize(&index, &vec![num(3.0), AxisValue::Label("a".into())]), None);
    assert_eq!(coord_key(&steps()[1].position), "1\u{1f}b");
    assert_eq!(coord_text(&vec![num(1.0), AxisValue::Bool(true)]), "1, true");
    assert_eq!(representative(&steps(), "load"), Ok(0));
    assert_eq!(
        representative(&vec![], "load"),
        Err("phase 'load': control optimize has no representative coordinate".into())
    );
}

#[test]
fn positions_become_bindings() {
    assert_eq!(axis_value_to_polydat(&num(0.5)), Value::F64(float(0.5)));
    assert_eq!(axis_value_to_polydat(&AxisValue::Bool(true)), Value::Bool(true));
    let b = synthesize(&vec!["x".into(), "y".into()], &vec![AxisValue::Label("a".into())]);
    assert_eq!(b, vec![("x".to_string(), Value::Str("a".into()))]);
}

#[test]
fn servoed_axes_need_a_control() {
    let s = search_space_from_steps(&steps());
    let wired = Some("{k}".to_string());
    let v = classify_control_axes(&s, &vec!["k".into()], &wired, false).unwrap();
    assert_eq!(v, vec![ControlAxis { axis_idx: 0, control: "concurrency".into() }]);
    let e = classify_control_axes(&s, &vec!["k".into(), "m".into()], &wired, false).unwrap_err();
    assert!(e.starts_with("optimize `servo: m` but 'm' is neither a live control nor wired to one"));
    let e = classify_control_axes(&s, &vec!["z".into()], &wired, true).unwrap_err();
    assert_eq!(
        e,
        "optimize `servo: z` is not a search axis — name a var that appears in the phase's `for_each`"
    );
    let mut named = search_space_from_steps(&steps());
    named.axes[0].name = "rate".into();
    named.axes[1].name = "concurrency".into();
    let e = classify_control_axes(&named, &vec!["rate".into()], &None, false).unwrap_err();
    assert!(e.starts_with("optimize `servo: rate` but the phase declares no `rate:` field"));
    let both = vec!["concurrency".to_string(), "rate".to_string()];
    let v = classify_control_axes(&named, &both, &None, true).unwrap();
    assert_eq!((v[0].axis_idx, v[1].axis_idx), (1, 0));
    assert_eq!((v[0].control.as_str(), v[1].control.as_str()), ("concurrency", "rate"));
}

#[test]
fn a_control_search_needs_a_live_objective() {
    assert!(require_windowed_objective("load", "ops", None).is_ok());
    assert!(require_windowed_objective("load", "ops", Some(true)).is_ok());
    assert_eq!(
        require_windowed_objective("load", "ops", Some(false)).unwrap_err(),
        "phase 'load': Control-class optimize needs a windowed objective ('ops') to settle per \
         setting, but the phase reads no live metric. Use metric_window(...) or \
         metricsql_scalar(rate(...[W]))."
    );
}

#[test]
fn searches_have_shapes() {
    assert_eq!(search_shape(0, 0, ExecDepth::Full), SearchShape::Nothing);
    assert_eq!(search_shape(2, 1, ExecDepth::Dispenser), SearchShape::Outline);
    assert_eq!(search_shape(2, 0, ExecDepth::Op), SearchShape::Coordinate);
    assert_eq!(search_shape(2, 1, ExecDepth::Full), SearchShape::Hybrid);
    assert_eq!(search_shape(2, 2, ExecDepth::Full), SearchShape::Control);
    assert_eq!(source_next(true, true), SourceCall::Step);
    assert_eq!(source_next(false, true), SourceCall::Pull);
    assert_eq!(source_next(false, false), SourceCall::Nothing);
}

#[test]
fn axes_are_either_live_or_stepped() {
    let s = search_space_from_steps(&steps());
    let controls = vec![ControlAxis { axis_idx: 1, control: "concurrency".into() }];
    assert_eq!(coord_indices(&controls, 2), vec![0]);
    let (sub, moved) = control_subspace(&s, &controls);
    assert_eq!(sub.axes.len(), 1);
    assert_eq!((sub.axes[0].name.as_str(), sub.axes[0].changeover), ("m", Changeover::Control));
    assert_eq!(moved, vec![ControlAxis { axis_idx: 0, control: "concurrency".into() }]);
    let mut stamped = search_space_from_steps(&steps());
    stamp_controls(&mut stamped, &controls);
    assert_eq!(stamped.axes[0], s.axes[0]);
    assert_eq!(stamped.axes[1].kind, s.axes[1].kind);
    assert_eq!(stamped.axes[1].changeover, Changeover::Control);
}

#[test]
fn each_cell_is_visited_once() {
    assert_eq!(hybrid_cells(&steps(), &vec![0]), vec![0, 2]);
    assert_eq!(hybrid_cells(&steps(), &vec![1]), vec![0, 1]);
    assert_eq!(hybrid_cells(&steps(), &vec![0, 1]), vec![0, 1, 2, 3]);
}

#[test]
fn a_search_keeps_its_budget() {
    let mut s = Search::new("load", &block(2));
    assert!(matches!(s.advance(SearchEvent::Batch(Some(4))), SearchAction::Materialize(0)));
    assert!(matches!(s.advance(SearchEvent::Feasible(false)), SearchAction::Materialize(1)));
    for i in 1..3 {
        assert!(matches!(s.advance(SearchEvent::Feasible(true)), SearchAction::Run(k) if k == i));
        let next = s.advance(SearchEvent::Evaluated(Evaluation::Value { better: true }));
        if i == 1 {
            assert!(matches!(next, SearchAction::Materialize(2)));
        } else {
            assert!(matches!(next, SearchAction::Finish(Ok(()))));
        }
    }
    assert_eq!(s.evals(), 2);
    assert_eq!(s.best(), Some(2));
    assert_eq!(
        off_grid_warning("hill", "load", &vec![num(8.0), AxisValue::Label("a".into())]),
        format!(
            "optimizer 'hill' on 'load': coordinate [{}] is not in the enumerable grid — skipping",
            coord_key(&vec![num(8.0), AxisValue::Label("a".into())])
        )
    );
}

#[test]
fn a_search_ends_with_its_source_or_its_runs() {
    let mut s = Search::new("load", &block(5));
    assert!(matches!(s.advance(SearchEvent::Batch(Some(0))), SearchAction::Pull));
    assert_eq!(s.best(), None);
    assert!(matches!(s.advance(SearchEvent::Batch(None)), SearchAction::Finish(Ok(()))));
    let mut s = Search::new("load", &block(5));
    s.advance(SearchEvent::Batch(Some(1)));
    s.advance(SearchEvent::Feasible(true));
    match s.advance(SearchEvent::Evaluated(Evaluation::NoValue)) {
        SearchAction::Finish(Err(e)) => assert_eq!(
            e,
            "phase 'load': optimize objective 'ops' produced no value — it must be a numeric wire \
             fully qualified on the phase node"
        ),
        _ => panic!("not finished"),
    }
    let mut s = Search::new("load", &block(5));
    s.advance(SearchEvent::Batch(Some(1)));
    s.advance(SearchEvent::Feasible(true));
    match s.advance(SearchEvent::Evaluated(Evaluation::RunFault("boom".into()))) {
        SearchAction::Finish(Err(e)) => assert_eq!(e, "boom"),
        _ => panic!("not finished"),
    }
    assert!(search_outcome(Ok(())) == Outcome::completed());
    assert_eq!(search_outcome(Err("x".into())).reason.as_deref(), Some("x"));
    assert_eq!(eval_result(&Outcome::failed()), Err(String::new()));
    assert_eq!(eval_result(&Outcome::failed().with_reason("x")), Err("x".into()));
    assert_eq!(eval_result(&Outcome::interrupted()), Ok(()));
}

#[test]
fn a_search_reports_its_best() {
    let mut best = HybridBest::new();
    assert_eq!(best.shown, "<none>");
    best.observe(&steps()[1], &vec![0], 3, Some(&vec![num(8.0)]));
    best.observe(&steps()[2], &vec![0], 4, None);
    assert_eq!((best.shown.as_str(), best.evals), ("k=1; 8", 7));
    assert_eq!(
        report_line(&block(9), "load", SearchReport::Hybrid(2), &best.shown, "12.5", best.evals),
        "optimizer 'hill' on 'load' (hybrid 2 coordinate cells × control): best [k=1; 8] → \
         ops=12.5 after 7 evals"
    );
    assert_eq!(
        report_line(&block(9), "load", SearchReport::Control, "8", "1", 2),
        "optimizer 'hill' on 'load' (control): best [8] → ops=1 after 2 evals"
    );
    assert_eq!(
        report_line(&block(9), "load", SearchReport::Coordinate, "1, b", "1", 2),
        "optimizer 'hill' on 'load': best [1, b] → ops=1 after 2 evals"
    );
    assert_eq!(unknown_method("load", "x"), "phase 'load': unknown optimizer method 'x'");
    assert!(hybrid_needs_enumeration("load").starts_with("phase 'load': hybrid coordinate+control"));
}
