use nmbrs_runtime::executor::context::{ExecCtx, PhaseFilter, RefinePlan, RefineScope};
use nmbrs_runtime::executor::coords::{
    canonical_phase_label, coord_to_btree, format_iter_label, format_scope_coordinate_path,
    loop_event_path, make_step, pop_iteration, push_iteration, scope_event_coords, ScopeCoord,
};
use nmbrs_runtime::executor::do_loop::{enter_loop_iteration, leave_loop_iteration};
use nmbrs_runtime::executor::node::{
    loop_outcome, node_outcome, one_line, phase_gate, plan_node, plan_outcome, search_axes, search_header,
    subtree_has_active_phase, sweep_header, ChainFault, NodeFacts, NodePlan, PathSegment, PhaseGate,
    SweepFacts,
};
use nmbrs_runtime::executor::position::WalkPosition;
use nmbrs_runtime::executor::scene::{
    phase_identity_for, push_iteration_rows, push_phase_scene_node, push_scope_scene_node,
    PhaseMeta, SceneKind, SceneRows,
};
use nmbrs_runtime::executor::source::{enrich_outcome, enrich_with_yaml_location, WorkloadSource};
use nmbrs_runtime::executor::vars::IterVars;
use nmbrs_runtime::model::{ExecDepth, OptimizeBlock, ScenarioNode, WorkloadPhase};
use nmbrs_runtime::phase_outcome::{Disposition, Outcome, Validity};
use nmbrs_runtime::strmap::StrMap;
use nmbrs_runtime::value::{Float, Json, JsonNumber, Value};

fn phase(for_each: Option<&str>, idempotent: bool) -> WorkloadPhase {
    WorkloadPhase {
        daemon: false,
        for_each: for_each.map(|s| s.to_string()),
        idempotent,
        ops: vec![],
        cycles: None,
        concurrency: None,
        rate: None,
        timeout: None,
        adapter: None,
        errors: None,
        error_rate_max: None,
        tries: None,
        stop_when: vec![],
        poll: None,
        metrics: StrMap::new(),
        optimize: None,
        continue_if: None,
    }
}

fn ctx() -> ExecCtx {
    let mut phases = StrMap::new();
    phases.insert("load".into(), phase(None, false));
    phases.insert("schema".into(), phase(None, true));
    phases.insert("read".into(), phase(Some("k in 1,2"), false));
    ExecCtx {
        session_id: "s1".into(),
        exec_id: 12,
        workload_name: "w".into(),
        workload_source: None,
        workload_params: StrMap::new(),
        phases,
        phase_filter: None,
        refine_plan: None,
        depth: ExecDepth::Full,
        pre_map_only: false,
        strict: false,
        suppresses_stderr: false,
        label_stack: vec![],
        position: WalkPosition { scene_parent: 0, scope_idx: 0, path: vec![], parent_kernel: None },
    }
}

fn filter(names: &[&str]) -> Option<PhaseFilter> {
    Some(PhaseFilter { selected: names.iter().map(|s| s.to_string()).collect() })
}

fn facts() -> NodeFacts {
    NodeFacts {
        scope_idx: 5,
        kernel_installed: true,
        ancestor_installed: true,
        sweep: SweepFacts {
            scope_idx: Some(6),
            kernel_installed: true,
            ancestor_installed: true,
            vars: Ok(vec!["k".into(), "m".into()]),
        },
        chain: None,
    }
}

fn leaf(name: &str) -> ScenarioNode {
    ScenarioNode::Phase(name.into())
}

fn fail_text(p: NodePlan) -> String {
    match p {
        NodePlan::Fail(e) => e,
        _ => panic!("no failure"),
    }
}

#[test]
fn a_filter_looks_into_scopes() {
    let f = PhaseFilter { selected: vec!["load".into()] };
    let inner = ScenarioNode::IncludedScenario { name: "x".into(), children: vec![leaf("load")] };
    let outer = ScenarioNode::DoWhile {
        condition: "c".into(),
        counter: None,
        children: vec![leaf("read"), inner],
    };
    assert!(subtree_has_active_phase(&outer, &f));
    assert!(!subtree_has_active_phase(&leaf("read"), &f));
    let b = ScenarioNode::Bindings {
        label: "b".into(),
        source: "".into(),
        children: vec![leaf("load")],
    };
    assert!(subtree_has_active_phase(&b, &f));
    assert!(!subtree_has_active_phase(&b, &PhaseFilter { selected: vec!["read".into()] }));
    let mut c = ctx();
    c.phase_filter = filter(&["read"]);
    let none = ScenarioNode::IncludedScenario { name: "x".into(), children: vec![leaf("load")] };
    assert!(matches!(plan_node(&c, &none, "", &facts()), NodePlan::Elide));
    assert!(matches!(
        plan_node(&c, &leaf("load"), "", &facts()),
        NodePlan::Leaf { gate: PhaseGate::Filtered, show_completed: true }
    ));
}

#[test]
fn a_selected_phase_runs_whatever_completed_before() {
    let mut c = ctx();
    c.refine_plan = Some(RefinePlan {
        scope: RefineScope::Missing,
        completed: vec![("load".into(), "(k=1)".into()), ("schema".into(), "".into())],
    });
    assert_eq!(phase_gate(&c, "load", "(k=1)"), PhaseGate::Refined);
    assert_eq!(phase_gate(&c, "load", "(k=2)"), PhaseGate::Run);
    c.phase_filter = filter(&["load"]);
    assert_eq!(phase_gate(&c, "load", "(k=1)"), PhaseGate::Run);
    assert_eq!(phase_gate(&c, "read", ""), PhaseGate::Filtered);
    c.depth = ExecDepth::Phase;
    assert_eq!(phase_gate(&c, "load", "(k=1)"), PhaseGate::StructureOnly);
}

#[test]
fn an_idempotent_phase_stays() {
    let mut c = ctx();
    c.phase_filter = filter(&["load"]);
    assert_eq!(phase_gate(&c, "schema", ""), PhaseGate::Run);
    c.refine_plan = Some(RefinePlan {
        scope: RefineScope::Missing,
        completed: vec![("schema".into(), "".into())],
    });
    assert_eq!(phase_gate(&c, "schema", ""), PhaseGate::Run);
}

#[test]
fn a_phase_with_for_each_is_swept() {
    match plan_node(&ctx(), &leaf("read"), "", &facts()) {
        NodePlan::PhaseSweep { needle, vars, var_label, segment } => {
            assert_eq!(needle, "k in 1,2");
            assert_eq!(vars, vec!["k", "m"]);
            assert_eq!(var_label, "k, m");
            assert_eq!(segment, PathSegment::ForEach { var: "k, m".into() });
        }
        _ => panic!("no sweep"),
    }
    let head = "phase 'read' for_each 'k in 1,2': ";
    let mut f = facts();
    f.sweep.vars = Err("bad clause".into());
    assert_eq!(fail_text(plan_node(&ctx(), &leaf("read"), "", &f)), format!("{head}bad clause"));
    f.sweep.ancestor_installed = false;
    assert_eq!(
        fail_text(plan_node(&ctx(), &leaf("read"), "", &f)),
        format!("{head}no installed ancestor kernel.")
    );
    f.sweep.kernel_installed = false;
    assert_eq!(
        fail_text(plan_node(&ctx(), &leaf("read"), "", &f)),
        format!("{head}scope at index 6 has no installed phase-for_each kernel.")
    );
    f.sweep.scope_idx = None;
    assert_eq!(
        fail_text(plan_node(&ctx(), &leaf("read"), "", &f)),
        format!("{head}no matching scope-tree entry.")
    );
}

#[test]
fn comprehensions_loop_or_combine() {
    let node = |names: &[&str]| ScenarioNode::Comprehension {
        label: "each".into(),
        coord_names: names.iter().map(|s| s.to_string()).collect(),
        continue_if: None,
        children: vec![],
    };
    match plan_node(&ctx(), &node(&["k"]), "", &facts()) {
        NodePlan::Sweep { needle, header, kind, segment } => {
            assert_eq!((needle.as_str(), header.as_str(), kind), ("k", "each k", "for_each"));
            assert_eq!(segment, PathSegment::ForEach { var: "k".into() });
        }
        _ => panic!("no sweep"),
    }
    match plan_node(&ctx(), &node(&["k", "m"]), "", &facts()) {
        NodePlan::Sweep { needle, header, kind, segment } => {
            assert_eq!(needle, "k");
            assert_eq!((header.as_str(), kind), ("each k, m", "for_combinations"));
            assert_eq!(segment, PathSegment::ForCombinations { vars: vec!["k".into(), "m".into()] });
        }
        _ => panic!("no sweep"),
    }
    let mut f = facts();
    f.ancestor_installed = false;
    assert_eq!(
        fail_text(plan_node(&ctx(), &node(&["k"]), "", &f)),
        "each: no installed ancestor kernel."
    );
    f.kernel_installed = false;
    assert_eq!(
        fail_text(plan_node(&ctx(), &node(&["k"]), "", &f)),
        "each: scope at index 5 has no installed kernel."
    );
}

#[test]
fn other_scopes_descend_or_loop() {
    let scen = ScenarioNode::IncludedScenario { name: "warm".into(), children: vec![] };
    match plan_node(&ctx(), &scen, "", &facts()) {
        NodePlan::Descend { header, segment } => {
            assert_eq!(header, "scenario 'warm'");
            assert_eq!(segment, PathSegment::ScenarioInclude("warm".into()));
        }
        _ => panic!("no descent"),
    }
    let until = ScenarioNode::DoUntil {
        condition: "x > 1".into(),
        counter: Some("i".into()),
        children: vec![],
    };
    match plan_node(&ctx(), &until, "", &facts()) {
        NodePlan::Loop { header, invert, segment } => {
            assert_eq!((header.as_str(), invert), ("do_until x > 1", true));
            assert_eq!(segment, PathSegment::DoUntil { counter: Some("i".into()) });
        }
        _ => panic!("no loop"),
    }
    let b = ScenarioNode::Bindings { label: "a := 1".into(), source: "".into(), children: vec![] };
    assert!(matches!(plan_node(&ctx(), &b, "", &facts()), NodePlan::Descend { .. }));
    let mut f = facts();
    f.chain = Some(ChainFault::Matter("m".into()));
    assert_eq!(
        fail_text(plan_node(&ctx(), &b, "", &f)),
        "bindings scope at index 5: build subscope matter: m"
    );
    f.chain = Some(ChainFault::Parent("p".into()));
    assert_eq!(
        fail_text(plan_node(&ctx(), &b, "", &f)),
        "bindings scope at index 5: chain to current parent kernel: p"
    );
    f.kernel_installed = false;
    assert_eq!(
        fail_text(plan_node(&ctx(), &b, "", &f)),
        "bindings scope at index 5 has no installed kernel — install-spec walker missed this node"
    );
}

#[test]
fn outcomes_of_nodes() {
    assert!(node_outcome(Outcome::interrupted()) == Outcome::completed());
    assert!(node_outcome(Outcome::failed().with_reason("x")).is_failure());
    assert!(loop_outcome(Ok(())) == Outcome::completed());
    let o = loop_outcome(Err("x".into()));
    assert_eq!((o.disposition, o.validity), (Disposition::Interrupted, Validity::Failed));
    assert_eq!(o.reason.as_deref(), Some("x"));
}

#[test]
fn headers_of_nodes() {
    let b = OptimizeBlock {
        method: "hill".into(),
        objective: "ops".into(),
        max_evals: 20,
        servo: vec![],
    };
    assert_eq!(search_header(&b, "k, m"), "search · hill · maximize ops · {k, m} · ≤20 evals");
    let steps = vec![
        make_step(&vec![], vec![("k".into(), Value::U64(1)), ("m".into(), Value::Bool(true))]),
        make_step(&vec![], vec![]),
        make_step(&vec![], vec![("k".into(), Value::U64(2))]),
    ];
    assert_eq!(sweep_header("k", &steps), "phase.for_each k in [1, 2]");
    assert_eq!(search_axes("x, y", true, &steps), "x, y");
    assert_eq!(search_axes("x, y", false, &steps), "k, m");
    assert_eq!(search_axes("x, y", false, &vec![]), "");
    assert_eq!(one_line("\n  \n  a := 1  \nb := 2"), "a := 1");
    assert_eq!(one_line(" \n"), "");
}

#[test]
fn iterations_are_shown_and_stored() {
    let outer = ScopeCoord { vars: vec![("k".into(), Value::U64(1))] };
    let bare = ScopeCoord { vars: vec![] };
    let parents = vec![outer, bare];
    let tuple = vec![("m".to_string(), Value::Str("x".into())), ("n".to_string(), Value::Bool(true))];
    assert_eq!(format_iter_label(&tuple), "m=x, n=true");
    let step = make_step(&parents, tuple);
    assert_eq!(step.coord_path.len(), 3);
    assert_eq!(format_scope_coordinate_path(&step.coord_path), "(k=1), (m=x, n=true)");
    assert_eq!(canonical_phase_label(&step.coord_path), "(m=x, n=true), (k=1)");
    assert_eq!(canonical_phase_label(&vec![]), "");
    let (own, path) = scope_event_coords(&step.coord_path);
    assert_eq!(own.len(), 2);
    assert!(matches!(own.get("m"), Some(Json::Text(t)) if t == "x"));
    assert_eq!(path.len(), 1);
    assert!(matches!(path[0].get("k"), Some(Json::Number(JsonNumber::Unsigned(1)))));
    let twice = vec![("k".to_string(), Value::U64(1)), ("k".to_string(), Value::U64(2))];
    let m = coord_to_btree(&twice);
    assert!(matches!(m.get("k"), Some(Json::Number(JsonNumber::Unsigned(2)))));
    let nan = Value::F64(Float { bits: f64::NAN.to_bits(), text: "NaN".into() });
    assert!(matches!(coord_to_btree(&vec![("k".into(), nan)]).get("k"), Some(Json::Null)));
}

#[test]
fn leaving_an_iteration_restores_the_labels() {
    let mut c = ctx();
    c.push_label("phase", "load");
    let before = c.label_stack.clone();
    push_iteration(&mut c, &vec![("k".into(), Value::U64(1)), ("m".into(), Value::Bool(false))]);
    assert_eq!(
        c.labels(),
        [("session", "s1"), ("exec_id", "12"), ("workload", "w"), ("phase", "load"), ("k", "1"), ("m", "false")]
            .map(|(a, b)| (a.to_string(), b.to_string()))
            .to_vec()
    );
    assert_eq!(c.incremental_labels().len(), 3);
    pop_iteration(&mut c, 2);
    assert_eq!(c.label_stack, before);
    c.pop_label();
    c.pop_label();
    assert!(c.label_stack.is_empty());
    assert!(!c.quiet());
}

fn visible(list: &[(&str, Option<&str>)]) -> Vec<(String, Option<String>)> {
    list.iter().map(|(n, v)| (n.to_string(), v.map(|s| s.to_string()))).collect()
}

#[test]
fn outputs_hide_inputs() {
    let vars = IterVars::collect(
        &visible(&[("b", Some("2")), ("a", Some("1")), ("c", None), ("b", Some("3"))]),
        &visible(&[("a", Some("9")), ("c", Some("7")), ("d", None)]),
    );
    assert_eq!(vars.shown(), "b=3, a=1, c=7");
    assert_eq!(vars.get("a").as_deref(), Some("1"));
    assert_eq!(vars.get("d"), None);
    assert!(!vars.is_empty());
    assert_eq!(vars.substitute("{a}-{b}-{x}"), "1-3-{x}");
    assert!(IterVars::collect(&vec![], &vec![]).is_empty());
}

#[test]
fn values_are_substituted_one_after_another() {
    let vars = IterVars::collect(&visible(&[("a", Some("{b}")), ("b", Some("x"))]), &vec![]);
    assert_eq!(vars.substitute("{a}{a}"), "xx");
    let vars = IterVars::collect(&visible(&[("b", Some("x")), ("a", Some("{b}"))]), &vec![]);
    assert_eq!(vars.substitute("{a}"), "{b}");
}

#[test]
fn an_error_names_its_place_once() {
    let src = Some(WorkloadSource {
        path: "w.yaml".into(),
        text: "phases:\n  löad: k in 1\n".into(),
    });
    let once = enrich_with_yaml_location(&src, "k in 1", "boom".into());
    assert_eq!(once, "w.yaml:2:10: boom");
    assert_eq!(enrich_with_yaml_location(&src, "phases", once.clone()), once);
    assert_eq!(enrich_with_yaml_location(&src, "nowhere", "boom".into()), "boom");
    assert_eq!(enrich_with_yaml_location(&None, "phases", "boom".into()), "boom");
    let o = enrich_outcome(&src, "phases", Outcome::failed().with_reason("x"));
    assert_eq!(o.reason.as_deref(), Some("w.yaml:1:1: x"));
    assert!(enrich_outcome(&src, "phases", Outcome::completed()) == Outcome::completed());
}

#[test]
fn adding_a_row_again_keeps_its_place() {
    let mut rows = SceneRows { nodes: vec![] };
    let root = push_scope_scene_node(&mut rows, 0, vec![], "each k".into(), vec!["k".into()]);
    let path = vec![PathSegment::Phase("load".into())];
    let a = push_phase_scene_node(
        &mut rows, root, path.clone(), "load".into(), "(k=1)".into(), vec![],
    );
    assert_eq!((root, a), (0, 1));
    let again = push_phase_scene_node(
        &mut rows, root, path.clone(), "load".into(), "(k=1)".into(), vec!["op".into()],
    );
    assert_eq!((again, rows.nodes.len()), (a, 2));
    assert!(matches!(&rows.nodes[1].kind, SceneKind::Phase(ops) if ops.len() == 1));
    let same = push_scope_scene_node(&mut rows, 0, path.clone(), "each k".into(), vec![]);
    assert_eq!((same, rows.nodes.len()), (root, 2));
    assert!(matches!(&rows.nodes[0].kind, SceneKind::Scope(own) if own.len() == 1));
    let other = push_phase_scene_node(
        &mut rows, a, path, "load".into(), "(k=2)".into(), vec![],
    );
    assert_eq!(other, 2);
    let id = phase_identity_for(&rows, "load", "(k=2)");
    assert_eq!(id.yaml_path.len(), 1);
    assert_eq!(id.coords, "(k=2)");
    assert_eq!(phase_identity_for(&rows, "read", "").yaml_path.len(), 0);
}

#[test]
fn cells_of_a_sweep_are_told_apart() {
    let mut rows = SceneRows { nodes: vec![] };
    let sweep = push_scope_scene_node(&mut rows, 0, vec![], "phase.for_each k".into(), vec![]);
    let meta = || {
        Some(PhaseMeta {
            name: "load".into(),
            op_names: vec!["op".into()],
            yaml_path: vec![PathSegment::Phase("load".into())],
        })
    };
    let step = |k| make_step(&vec![], vec![("k".into(), Value::U64(k))]);
    let one = push_iteration_rows(&mut rows, sweep, vec![], &step(1), vec![], meta());
    let two = push_iteration_rows(&mut rows, sweep, vec![], &step(2), vec![], meta());
    assert_eq!((one, two, rows.nodes.len()), (2, 4, 5));
    assert_eq!(rows.nodes[1].name, "k=1");
    assert_eq!((rows.nodes[2].parent, rows.nodes[4].parent), (1, 3));
    assert_eq!((rows.nodes[2].labels.as_str(), rows.nodes[4].labels.as_str()), ("(k=1)", "(k=2)"));
    let body = push_iteration_rows(&mut rows, 0, vec![], &step(3), vec!["k".into()], None);
    assert_eq!(body, 5);
    assert!(matches!(&rows.nodes[5].kind, SceneKind::Scope(own) if own.len() == 1));
}

#[test]
fn coming_back_up_restores_the_position() {
    let mut at = WalkPosition {
        scene_parent: 3,
        scope_idx: 4,
        path: vec![PathSegment::ScenarioInclude("main".into())],
        parent_kernel: Some(1),
    };
    let below = at.path_to(PathSegment::ForEach { var: "k".into() });
    assert_eq!(below.len(), 2);
    assert_eq!(below[0], at.path[0]);
    let saved = at.enter(8, 9, PathSegment::ForEach { var: "k".into() });
    assert_eq!((at.scene_parent, at.scope_idx), (8, 9));
    assert_eq!(at.path, below);
    let prior = at.install_kernel(2);
    assert_eq!((prior, at.parent_kernel), (Some(1), Some(2)));
    let deeper = at.enter(10, 11, PathSegment::Phase("load".into()));
    assert_eq!((at.scene_parent, at.scope_idx, at.path.len()), (10, 11, 3));
    at.leave(deeper);
    assert_eq!((at.scene_parent, at.scope_idx), (8, 9));
    at.restore_kernel(prior);
    at.leave(saved);
    assert_eq!((at.scene_parent, at.scope_idx, at.path.len()), (3, 4, 1));
    assert_eq!(at.parent_kernel, Some(1));
}

#[test]
fn an_iteration_of_a_loop_restores_the_walk() {
    let mut c = ctx();
    c.push_label("k", "1");
    c.position.parent_kernel = Some(4);
    let counter = Some("i".to_string());
    let prior = enter_loop_iteration(&mut c, &counter, 7, 9);
    assert_eq!(prior, Some(4));
    assert_eq!(
        c.incremental_labels(),
        vec![("k".to_string(), "1".to_string()), ("i".to_string(), "7".to_string())]
    );
    assert_eq!(c.position.parent_kernel, Some(9));
    leave_loop_iteration(&mut c, &counter, prior);
    assert_eq!(c.incremental_labels(), vec![("k".to_string(), "1".to_string())]);
    assert_eq!(c.position.parent_kernel, Some(4));
    let prior = enter_loop_iteration(&mut c, &None, 0, 9);
    assert_eq!(c.incremental_labels().len(), 1);
    leave_loop_iteration(&mut c, &None, prior);
    assert_eq!((c.incremental_labels().len(), c.position.parent_kernel), (1, Some(4)));
}

#[test]
fn a_plan_may_settle_the_outcome() {
    let skipped = plan_outcome(&NodePlan::Elide).unwrap();
    assert_eq!((skipped.disposition, skipped.validity), (Disposition::Skipped, Validity::Succeeded));
    let failed = plan_outcome(&NodePlan::Fail("no kernel".into())).unwrap();
    assert_eq!(failed.reason.as_deref(), Some("no kernel"));
    assert!(failed.is_failure());
    let shown = NodePlan::Leaf { gate: PhaseGate::Refined, show_completed: true };
    assert_eq!(plan_outcome(&shown).unwrap().disposition, Disposition::Completed);
    let runs = NodePlan::Leaf { gate: PhaseGate::Run, show_completed: false };
    assert!(plan_outcome(&runs).is_none());
}

#[test]
fn loops_are_located_from_the_root() {
    let leaf = ScopeCoord { vars: vec![("i".into(), Value::U64(1))] };
    let root = ScopeCoord { vars: vec![("k".into(), Value::U64(2))] };
    let path = loop_event_path(&vec![leaf, ScopeCoord { vars: vec![] }, root]);
    assert_eq!(path.len(), 2);
    assert!(path[0].contains("k") && path[1].contains("i"));
}
