//! What running one scenario node amounts to: whether it runs at all, under
//! which header, and how its outcome follows from that of its children.

use vstd::prelude::*;

use crate::executor::context;
use crate::executor::context::{ExecCtx, PhaseFilter, RefineScope};
use crate::executor::coords::IterationStep;
use crate::model;
use crate::model::{ExecDepth, OptimizeBlock, ScenarioNode, WorkloadPhase};
use crate::phase_outcome;
use crate::phase_outcome::{Disposition, Outcome, Validity};
use crate::text;
use crate::text::{cat2, cat3, cat4, cat5, cat9, join_texts, split_text, trim_text, u64_text};
use crate::value;
use crate::value::Value;

verus! {

/// Whether a selected phase stands in the subtree of `node`.
pub open spec fn has_active_phase(node: ScenarioNode, filter: PhaseFilter) -> bool
    decreases node,
{
    match node {
        ScenarioNode::Phase(name) => context::selects(filter, name@),
        ScenarioNode::Comprehension { children, .. } => some_active(children@, filter),
        ScenarioNode::DoWhile { children, .. } => some_active(children@, filter),
        ScenarioNode::DoUntil { children, .. } => some_active(children@, filter),
        ScenarioNode::IncludedScenario { children, .. } => some_active(children@, filter),
        ScenarioNode::Bindings { children, .. } => some_active(children@, filter),
    }
}

pub open spec fn some_active(nodes: Seq<ScenarioNode>, filter: PhaseFilter) -> bool
    decreases nodes,
{
    nodes.len() > 0 && (has_active_phase(nodes[0], filter) || some_active(
        nodes.drop_first(),
        filter,
    ))
}

fn any_active(children: &Vec<ScenarioNode>, filter: &PhaseFilter) -> (r: bool)
    ensures
        r == some_active(children@, *filter),
    decreases children,
{
    let mut i: usize = 0;
    assert(children@.skip(0) =~= children@);
    while i < children.len()
        invariant
            i <= children@.len(),
            some_active(children@, *filter) == some_active(children@.skip(i as int), *filter),
        decreases children@.len() - i,
    {
        assert(decreases_to!(children => children@[i as int]));
        assert(children@.skip(i as int).drop_first() =~= children@.skip(i + 1));
        if subtree_has_active_phase(&children[i], filter) {
            return true;
        }
        i += 1;
    }
    false
}

/// Whether a selected phase stands in the subtree of `node`.
pub fn subtree_has_active_phase(node: &ScenarioNode, filter: &PhaseFilter) -> (r: bool)
    ensures
        r == has_active_phase(*node, *filter),
    decreases node,
{
    match node {
        ScenarioNode::Phase(name) => filter.is_match(name.as_str()),
        ScenarioNode::Comprehension { children, .. } => any_active(children, filter),
        ScenarioNode::DoWhile { children, .. } => any_active(children, filter),
        ScenarioNode::DoUntil { children, .. } => any_active(children, filter),
        ScenarioNode::IncludedScenario { children, .. } => any_active(children, filter),
        ScenarioNode::Bindings { children, .. } => any_active(children, filter),
    }
}

/// The phase `name` stands in the subtree of `node`, at any depth.
pub open spec fn contains_phase(node: ScenarioNode, name: Seq<char>) -> bool
    decreases node,
{
    match node {
        ScenarioNode::Phase(n) => n@ == name,
        ScenarioNode::Comprehension { children, .. } => some_contains(children@, name),
        ScenarioNode::DoWhile { children, .. } => some_contains(children@, name),
        ScenarioNode::DoUntil { children, .. } => some_contains(children@, name),
        ScenarioNode::IncludedScenario { children, .. } => some_contains(children@, name),
        ScenarioNode::Bindings { children, .. } => some_contains(children@, name),
    }
}

pub open spec fn some_contains(nodes: Seq<ScenarioNode>, name: Seq<char>) -> bool
    decreases nodes,
{
    nodes.len() > 0 && (contains_phase(nodes[0], name) || some_contains(nodes.drop_first(), name))
}

proof fn lemma_contained_is_active(node: ScenarioNode, filter: PhaseFilter, name: Seq<char>)
    requires
        context::selects(filter, name),
        contains_phase(node, name),
    ensures
        has_active_phase(node, filter),
    decreases node,
{
    match node {
        ScenarioNode::Phase(_) => {},
        ScenarioNode::Comprehension { children, .. } => {
            assert(decreases_to!(node => children@));
            lemma_some_contained_is_active(children@, filter, name);
        },
        ScenarioNode::DoWhile { children, .. } => {
            assert(decreases_to!(node => children@));
            lemma_some_contained_is_active(children@, filter, name);
        },
        ScenarioNode::DoUntil { children, .. } => {
            assert(decreases_to!(node => children@));
            lemma_some_contained_is_active(children@, filter, name);
        },
        ScenarioNode::IncludedScenario { children, .. } => {
            assert(decreases_to!(node => children@));
            lemma_some_contained_is_active(children@, filter, name);
        },
        ScenarioNode::Bindings { children, .. } => {
            assert(decreases_to!(node => children@));
            lemma_some_contained_is_active(children@, filter, name);
        },
    }
}

proof fn lemma_some_contained_is_active(
    nodes: Seq<ScenarioNode>,
    filter: PhaseFilter,
    name: Seq<char>,
)
    requires
        context::selects(filter, name),
        some_contains(nodes, name),
    ensures
        some_active(nodes, filter),
    decreases nodes,
{
    if contains_phase(nodes[0], name) {
        lemma_contained_is_active(nodes[0], filter, name);
    } else {
        lemma_some_contained_is_active(nodes.drop_first(), filter, name);
    }
}

proof fn lemma_active_has_phase(node: ScenarioNode, filter: PhaseFilter) -> (name: Seq<char>)
    requires
        has_active_phase(node, filter),
    ensures
        context::selects(filter, name),
        contains_phase(node, name),
    decreases node,
{
    match node {
        ScenarioNode::Phase(name) => name@,
        ScenarioNode::Comprehension { children, .. } => {
            assert(decreases_to!(node => children@));
            lemma_some_active_has_phase(children@, filter)
        },
        ScenarioNode::DoWhile { children, .. } => {
            assert(decreases_to!(node => children@));
            lemma_some_active_has_phase(children@, filter)
        },
        ScenarioNode::DoUntil { children, .. } => {
            assert(decreases_to!(node => children@));
            lemma_some_active_has_phase(children@, filter)
        },
        ScenarioNode::IncludedScenario { children, .. } => {
            assert(decreases_to!(node => children@));
            lemma_some_active_has_phase(children@, filter)
        },
        ScenarioNode::Bindings { children, .. } => {
            assert(decreases_to!(node => children@));
            lemma_some_active_has_phase(children@, filter)
        },
    }
}

proof fn lemma_some_active_has_phase(nodes: Seq<ScenarioNode>, filter: PhaseFilter) -> (name: Seq<
    char,
>)
    requires
        some_active(nodes, filter),
    ensures
        context::selects(filter, name),
        some_contains(nodes, name),
    decreases nodes,
{
    if has_active_phase(nodes[0], filter) {
        lemma_active_has_phase(nodes[0], filter)
    } else {
        lemma_some_active_has_phase(nodes.drop_first(), filter)
    }
}

/// A subtree is active exactly when a selected phase stands in it, at any depth
/// and below any kind of node.
pub proof fn law_active_iff_selected_phase_below(node: ScenarioNode, filter: PhaseFilter)
    ensures
        has_active_phase(node, filter) <==> exists|name: Seq<char>| #[trigger]
            contains_phase(node, name) && context::selects(filter, name),
{
    if has_active_phase(node, filter) {
        let name = lemma_active_has_phase(node, filter);
        assert(contains_phase(node, name) && context::selects(filter, name));
    }
    if exists|name: Seq<char>| #[trigger]
        contains_phase(node, name) && context::selects(filter, name) {
        let name = choose|name: Seq<char>| #[trigger]
            contains_phase(node, name) && context::selects(filter, name);
        lemma_contained_is_active(node, filter, name);
    }
}

/// One step of the path from the root of the scenario to a node.
#[derive(Debug, Clone, PartialEq)]
pub enum PathSegment {
    Phase(String),
    ForEach { var: String },
    ForCombinations { vars: Vec<String> },
    ScenarioInclude(String),
    DoWhile { counter: Option<String> },
    DoUntil { counter: Option<String> },
}

/// What a path segment says.
pub ghost enum SegmentModel {
    Phase(Seq<char>),
    ForEach(Seq<char>),
    ForCombinations(Seq<Seq<char>>),
    ScenarioInclude(Seq<char>),
    DoWhile(Option<Seq<char>>),
    DoUntil(Option<Seq<char>>),
}

pub open spec fn segment_model(s: PathSegment) -> SegmentModel {
    match s {
        PathSegment::Phase(n) => SegmentModel::Phase(n@),
        PathSegment::ForEach { var } => SegmentModel::ForEach(var@),
        PathSegment::ForCombinations { vars } => SegmentModel::ForCombinations(text::views(vars@)),
        PathSegment::ScenarioInclude(n) => SegmentModel::ScenarioInclude(n@),
        PathSegment::DoWhile { counter } => SegmentModel::DoWhile(phase_outcome::text_of(counter)),
        PathSegment::DoUntil { counter } => SegmentModel::DoUntil(phase_outcome::text_of(counter)),
    }
}

/// What a path says, segment by segment.
pub open spec fn path_model(p: Seq<PathSegment>) -> Seq<SegmentModel> {
    p.map_values(|s: PathSegment| segment_model(s))
}

impl PathSegment {
    pub fn copy(&self) -> (r: Self)
        ensures
            segment_model(r) == segment_model(*self),
    {
        match self {
            PathSegment::Phase(n) => PathSegment::Phase(n.clone()),
            PathSegment::ForEach { var } => PathSegment::ForEach { var: var.clone() },
            PathSegment::ForCombinations { vars } => PathSegment::ForCombinations {
                vars: copy_texts(vars),
            },
            PathSegment::ScenarioInclude(n) => PathSegment::ScenarioInclude(n.clone()),
            PathSegment::DoWhile { counter } => PathSegment::DoWhile {
                counter: copy_text(counter),
            },
            PathSegment::DoUntil { counter } => PathSegment::DoUntil {
                counter: copy_text(counter),
            },
        }
    }
}

/// What becomes of a leaf phase.
#[derive(Debug, Clone, Copy, PartialEq, Eq, Structural)]
pub enum PhaseGate {
    /// The filter leaves it out.
    Filtered,
    /// Only the structure is wanted.
    StructureOnly,
    /// It completed before and a refining run has nothing to add.
    Refined,
    Run,
}

/// What becomes of a leaf phase. The filter decides first; an idempotent phase
/// passes it, as upstream state that others rely on. Then the depth of the run
/// decides. A refining run skips what completed before, but neither what the
/// filter names nor an idempotent phase, whose skip needs its hash.
pub open spec fn gate_of(
    filter: Option<PhaseFilter>,
    refine: Option<context::RefinePlan>,
    idempotent: bool,
    depth: ExecDepth,
    name: Seq<char>,
    labels: Seq<char>,
) -> PhaseGate {
    let named = filter is Some && context::selects(filter->0, name);
    if filter is Some && !named && !idempotent {
        PhaseGate::Filtered
    } else if model::depth_rank(depth) < model::depth_rank(ExecDepth::Dispenser) {
        PhaseGate::StructureOnly
    } else if refine is Some && refine->0.scope == RefineScope::Missing
        && context::completed_before(refine->0, name, labels) && !named && !idempotent {
        PhaseGate::Refined
    } else {
        PhaseGate::Run
    }
}

/// Whether the phase is declared idempotent.
pub open spec fn declared_idempotent(
    phases: Map<Seq<char>, WorkloadPhase>,
    name: Seq<char>,
) -> bool {
    phases.contains_key(name) && phases[name].idempotent
}

/// What becomes of the leaf phase `name`.
pub fn phase_gate(ctx: &ExecCtx, name: &str, labels: &str) -> (r: PhaseGate)
    requires
        ctx.wf(),
    ensures
        r == gate_of(
            ctx.phase_filter,
            ctx.refine_plan,
            declared_idempotent(ctx.phases@, name@),
            ctx.depth,
            name@,
            labels@,
        ),
{
    let idempotent = match ctx.phases.get(name) {
        Some(p) => p.idempotent,
        None => false,
    };
    let named = match &ctx.phase_filter {
        Some(f) => f.is_match(name),
        None => false,
    };
    if ctx.phase_filter.is_some() && !named && !idempotent {
        return PhaseGate::Filtered;
    }
    if !ctx.depth.reaches(ExecDepth::Dispenser) {
        return PhaseGate::StructureOnly;
    }
    match &ctx.refine_plan {
        Some(p) => {
            if p.scope == RefineScope::Missing && p.is_completed(name, labels) && !named
                && !idempotent {
                PhaseGate::Refined
            } else {
                PhaseGate::Run
            }
        },
        None => PhaseGate::Run,
    }
}

/// Whether a phase that does not run is shown as completed in no time. What the
/// filter or the depth leaves out is not while the structure is only mapped.
pub open spec fn shown_completed(gate: PhaseGate, pre_map_only: bool) -> bool {
    match gate {
        PhaseGate::Filtered => !pre_map_only,
        PhaseGate::StructureOnly => !pre_map_only,
        PhaseGate::Refined => true,
        PhaseGate::Run => false,
    }
}

/// A phase that the filter names runs, whatever completed before.
pub proof fn law_selected_phase_runs(
    filter: PhaseFilter,
    refine: Option<context::RefinePlan>,
    idempotent: bool,
    depth: ExecDepth,
    name: Seq<char>,
    labels: Seq<char>,
)
    requires
        context::selects(filter, name),
        model::depth_rank(depth) >= model::depth_rank(ExecDepth::Dispenser),
    ensures
        gate_of(Some(filter), refine, idempotent, depth, name, labels) == PhaseGate::Run,
{
}

/// The plan lists the phase with these labels as completed.
pub open spec fn lists(plan: context::RefinePlan, name: Seq<char>, labels: Seq<char>) -> bool {
    exists|i: int|
        0 <= i < plan.completed@.len() && (#[trigger] plan.completed@[i]).0@ == name
            && plan.completed@[i].1@ == labels
}

/// The filter lists the phase.
pub open spec fn names(filter: PhaseFilter, name: Seq<char>) -> bool {
    exists|i: int| 0 <= i < filter.selected@.len() && (#[trigger] filter.selected@[i])@ == name
}

/// Only a run that looks for what is missing passes a phase by because it completed
/// before, and it passes every such phase by but those that the filter names, that are
/// idempotent, or that the depth of the run leaves out anyway.
pub proof fn law_only_missing_skips_completed(
    filter: Option<PhaseFilter>,
    refine: Option<context::RefinePlan>,
    idempotent: bool,
    depth: ExecDepth,
    name: Seq<char>,
    labels: Seq<char>,
)
    ensures
        ({
            let gate = gate_of(filter, refine, idempotent, depth, name, labels);
            let sought = refine is Some && refine->0.scope == RefineScope::Missing && lists(
                refine->0,
                name,
                labels,
            );
            &&& gate == PhaseGate::Refined ==> sought && filter is None && !idempotent && depth
                != ExecDepth::Phase
            &&& sought && filter is None && !idempotent && depth != ExecDepth::Phase ==> gate
                == PhaseGate::Refined
        }),
{
}

/// What completed before has no say in a run that looks for what changed or for all.
pub proof fn law_completion_counts_for_missing_only(
    filter: Option<PhaseFilter>,
    plan: context::RefinePlan,
    idempotent: bool,
    depth: ExecDepth,
    name: Seq<char>,
    labels: Seq<char>,
)
    requires
        plan.scope != RefineScope::Missing,
    ensures
        gate_of(filter, Some(plan), idempotent, depth, name, labels) == gate_of(
            filter,
            None,
            idempotent,
            depth,
            name,
            labels,
        ),
        gate_of(filter, Some(plan), idempotent, depth, name, labels) != PhaseGate::Refined,
{
}

/// The filter leaves out exactly what it does not name and what is not idempotent, at
/// every depth; of the rest a run that only goes through the phases shows the structure,
/// and any other run runs what it does not pass by as completed.
pub proof fn law_filter_then_depth_decide(
    filter: Option<PhaseFilter>,
    refine: Option<context::RefinePlan>,
    idempotent: bool,
    depth: ExecDepth,
    name: Seq<char>,
    labels: Seq<char>,
)
    ensures
        ({
            let gate = gate_of(filter, refine, idempotent, depth, name, labels);
            let left_out = filter is Some && !names(filter->0, name) && !idempotent;
            &&& gate == PhaseGate::Filtered <==> left_out
            &&& gate == PhaseGate::StructureOnly <==> !left_out && depth == ExecDepth::Phase
            &&& !left_out && depth != ExecDepth::Phase && (refine is None || filter is Some
                || idempotent) ==> gate == PhaseGate::Run
        }),
{
}

/// An idempotent phase is never left out by the filter, nor skipped without its
/// hash.
pub proof fn law_idempotent_phase_stays(
    filter: Option<PhaseFilter>,
    refine: Option<context::RefinePlan>,
    depth: ExecDepth,
    name: Seq<char>,
    labels: Seq<char>,
)
    ensures
        gate_of(filter, refine, true, depth, name, labels) == PhaseGate::Run || gate_of(
            filter,
            refine,
            true,
            depth,
            name,
            labels,
        ) == PhaseGate::StructureOnly,
{
}

/// What is installed around a phase that iterates.
pub struct SweepFacts {
    pub scope_idx: Option<usize>,
    pub kernel_installed: bool,
    pub ancestor_installed: bool,
    /// The variables of its clauses, or why they do not parse.
    pub vars: Result<Vec<String>, String>,
}

/// Why a bindings scope cannot be chained to its parent.
pub enum ChainFault {
    Matter(String),
    Parent(String),
}

/// What is installed around a node.
pub struct NodeFacts {
    pub scope_idx: usize,
    pub kernel_installed: bool,
    pub ancestor_installed: bool,
    pub sweep: SweepFacts,
    pub chain: Option<ChainFault>,
}

/// How a node is run.
pub enum NodePlan {
    /// No selected phase below: the node is skipped.
    Elide,
    /// The node fails with this reason.
    Fail(String),
    /// A leaf phase, and whether it is shown as completed without running.
    Leaf { gate: PhaseGate, show_completed: bool },
    /// A phase that runs once per value of its variables.
    PhaseSweep { needle: String, vars: Vec<String>, var_label: String, segment: PathSegment },
    /// Children that run once per coordinate tuple.
    Sweep { needle: String, header: String, kind: &'static str, segment: PathSegment },
    /// Children that run once.
    Descend { header: String, segment: PathSegment },
    /// Children that run while, or until, a condition holds.
    Loop { header: String, invert: bool, segment: PathSegment },
}

/// Why a phase cannot iterate, in the order in which it is found out.
pub open spec fn sweep_fault(name: Seq<char>, spec: Seq<char>, f: SweepFacts) -> Option<Seq<char>> {
    let head = "phase '"@ + name + "' for_each '"@ + spec;
    if f.scope_idx is None {
        Some(head + "': no matching scope-tree entry."@)
    } else if !f.kernel_installed {
        Some(
            head + "': scope at index "@ + text::decimal(f.scope_idx->0 as nat)
                + " has no installed phase-for_each kernel."@,
        )
    } else if !f.ancestor_installed {
        Some(head + "': no installed ancestor kernel."@)
    } else {
        match f.vars {
            Err(e) => Some(head + "': "@ + e@),
            Ok(_) => None,
        }
    }
}

fn check_sweep(name: &str, spec: &str, f: &SweepFacts) -> (r: Option<String>)
    ensures
        phase_outcome::text_of(r) == sweep_fault(name@, spec@, *f),
{
    let head = cat4("phase '", name, "' for_each '", spec);
    match f.scope_idx {
        None => Some(cat2(head.as_str(), "': no matching scope-tree entry.")),
        Some(idx) => {
            if !f.kernel_installed {
                Some(
                    cat4(
                        head.as_str(),
                        "': scope at index ",
                        u64_text(idx as u64).as_str(),
                        " has no installed phase-for_each kernel.",
                    ),
                )
            } else if !f.ancestor_installed {
                Some(cat2(head.as_str(), "': no installed ancestor kernel."))
            } else {
                match &f.vars {
                    Err(e) => Some(cat3(head.as_str(), "': ", e.as_str())),
                    Ok(_) => None,
                }
            }
        },
    }
}

/// Why a comprehension cannot iterate.
pub open spec fn scope_fault(label: Seq<char>, f: NodeFacts) -> Option<Seq<char>> {
    if !f.kernel_installed {
        Some(
            label + ": scope at index "@ + text::decimal(f.scope_idx as nat)
                + " has no installed kernel."@,
        )
    } else if !f.ancestor_installed {
        Some(label + ": no installed ancestor kernel."@)
    } else {
        None
    }
}

/// Why a bindings scope cannot be entered.
pub open spec fn bindings_fault(f: NodeFacts) -> Option<Seq<char>> {
    let head = "bindings scope at index "@ + text::decimal(f.scope_idx as nat);
    if !f.kernel_installed {
        Some(head + " has no installed kernel — install-spec walker missed this node"@)
    } else {
        match f.chain {
            Some(ChainFault::Matter(e)) => Some(head + ": build subscope matter: "@ + e@),
            Some(ChainFault::Parent(e)) => Some(head + ": chain to current parent kernel: "@ + e@),
            None => None,
        }
    }
}

/// A node is left out when a filter is set and it is a scope without a selected
/// phase.
pub open spec fn elided(filter: Option<PhaseFilter>, node: ScenarioNode) -> bool {
    filter is Some && !(node is Phase) && !has_active_phase(node, filter->0)
}

/// A node with a selected phase below it, at any depth, is never left out.
pub proof fn law_selected_phase_is_kept(
    filter: Option<PhaseFilter>,
    node: ScenarioNode,
    name: Seq<char>,
)
    requires
        filter is Some ==> context::selects(filter->0, name),
        contains_phase(node, name),
    ensures
        !elided(filter, node),
{
    if filter is Some {
        lemma_contained_is_active(node, filter->0, name);
    }
}

fn copy_texts(v: &Vec<String>) -> (r: Vec<String>)
    ensures
        text::views(r@) == text::views(v@),
        r@.len() == v@.len(),
{
    let mut r: Vec<String> = Vec::new();
    let mut i: usize = 0;
    while i < v.len()
        invariant
            i <= v@.len(),
            r@.len() == i,
            forall|k: int| 0 <= k < i ==> #[trigger] r@[k]@ == v@[k]@,
        decreases v@.len() - i,
    {
        r.push(v[i].clone());
        i += 1;
    }
    assert(text::views(r@) =~= text::views(v@));
    r
}

fn copy_text(t: &Option<String>) -> (r: Option<String>)
    ensures
        r == *t,
{
    match t {
        Some(s) => Some(s.clone()),
        None => None,
    }
}

/// The plan that a comprehension over `coords` calls for: over one coordinate a
/// plain loop, over several a combination.
pub open spec fn is_sweep_plan(r: NodePlan, coords: Seq<Seq<char>>) -> bool {
    r matches NodePlan::Sweep { needle, header, kind, segment } && {
        &&& needle@ == (if coords.len() > 0 {
            coords[0]
        } else {
            Seq::<char>::empty()
        })
        &&& header@ == "each "@ + text::joined(coords, ", "@)
        &&& if coords.len() == 1 {
            kind@ == "for_each"@ && (segment matches PathSegment::ForEach { var } && var@
                == coords[0])
        } else {
            kind@ == "for_combinations"@ && (segment matches PathSegment::ForCombinations { vars }
                && text::views(vars@) == coords)
        }
    }
}

/// How `node` is run. `labels` are the coordinates that the node runs under.
pub fn plan_node(ctx: &ExecCtx, node: &ScenarioNode, labels: &str, facts: &NodeFacts) -> (r:
    NodePlan)
    requires
        ctx.wf(),
    ensures
        r is Elide <==> elided(ctx.phase_filter, *node),
        !(r is Elide) ==> match *node {
            ScenarioNode::Phase(name) => {
                let sweeps = ctx.phases@.contains_key(name@) && ctx.phases@[name@].for_each is Some;
                if sweeps {
                    let spec = ctx.phases@[name@].for_each->0@;
                    match sweep_fault(name@, spec, facts.sweep) {
                        Some(t) => r matches NodePlan::Fail(e) && e@ == t,
                        None => r matches NodePlan::PhaseSweep { needle, vars, var_label, segment }
                            && {
                            let names = text::views(facts.sweep.vars->Ok_0@);
                            &&& needle@ == spec
                            &&& text::views(vars@) == names
                            &&& var_label@ == text::joined(names, ", "@)
                            &&& segment matches PathSegment::ForEach { var } && var@
                                == text::joined(names, ", "@)
                        },
                    }
                } else {
                    let gate = gate_of(
                        ctx.phase_filter,
                        ctx.refine_plan,
                        declared_idempotent(ctx.phases@, name@),
                        ctx.depth,
                        name@,
                        labels@,
                    );
                    r == (NodePlan::Leaf {
                        gate,
                        show_completed: shown_completed(gate, ctx.pre_map_only),
                    })
                }
            },
            ScenarioNode::Comprehension { label, coord_names, .. } => match scope_fault(
                label@,
                *facts,
            ) {
                Some(t) => r matches NodePlan::Fail(e) && e@ == t,
                None => is_sweep_plan(r, text::views(coord_names@)),
            },
            ScenarioNode::IncludedScenario { name, .. } => r matches NodePlan::Descend {
                header,
                segment,
            } && header@ == "scenario '"@ + name@ + "'"@
                && (segment matches PathSegment::ScenarioInclude(n) && n@ == name@),
            ScenarioNode::DoWhile { condition, counter, .. } => r matches NodePlan::Loop {
                header,
                invert,
                segment,
            } && header@ == "do_while "@ + condition@ && !invert
                && (segment matches PathSegment::DoWhile { counter: c } && c == counter),
            ScenarioNode::DoUntil { condition, counter, .. } => r matches NodePlan::Loop {
                header,
                invert,
                segment,
            } && header@ == "do_until "@ + condition@ && invert
                && (segment matches PathSegment::DoUntil { counter: c } && c == counter),
            ScenarioNode::Bindings { label, .. } => match bindings_fault(*facts) {
                Some(t) => r matches NodePlan::Fail(e) && e@ == t,
                None => r matches NodePlan::Descend { header, segment } && header@ == label@
                    && (segment matches PathSegment::ScenarioInclude(n) && n@ == label@),
            },
        },
{
    if let Some(f) = &ctx.phase_filter {
        let is_phase = match node {
            ScenarioNode::Phase(_) => true,
            _ => false,
        };
        if !is_phase && !subtree_has_active_phase(node, f) {
            return NodePlan::Elide;
        }
    }
    match node {
        ScenarioNode::Phase(name) => {
            let spec = match ctx.phases.get(name.as_str()) {
                Some(p) => copy_text(&p.for_each),
                None => None,
            };
            if let Some(spec) = spec {
                if let Some(e) = check_sweep(name.as_str(), spec.as_str(), &facts.sweep) {
                    return NodePlan::Fail(e);
                }
                match &facts.sweep.vars {
                    Ok(names) => {
                        let var_label = join_texts(names, ", ");
                        NodePlan::PhaseSweep {
                            needle: spec,
                            vars: copy_texts(names),
                            segment: PathSegment::ForEach { var: var_label.clone() },
                            var_label,
                        }
                    },
                    Err(e) => NodePlan::Fail(e.clone()),
                }
            } else {
                let gate = phase_gate(ctx, name.as_str(), labels);
                let show_completed = match gate {
                    PhaseGate::Filtered => !ctx.pre_map_only,
                    PhaseGate::StructureOnly => !ctx.pre_map_only,
                    PhaseGate::Refined => true,
                    PhaseGate::Run => false,
                };
                NodePlan::Leaf { gate, show_completed }
            }
        },
        ScenarioNode::Comprehension { label, coord_names, .. } => {
            if !facts.kernel_installed {
                return NodePlan::Fail(
                    cat4(
                        label.as_str(),
                        ": scope at index ",
                        u64_text(facts.scope_idx as u64).as_str(),
                        " has no installed kernel.",
                    ),
                );
            }
            if !facts.ancestor_installed {
                return NodePlan::Fail(cat2(label.as_str(), ": no installed ancestor kernel."));
            }
            let needle = if coord_names.len() > 0 {
                coord_names[0].clone()
            } else {
                String::new()
            };
            let header = cat2("each ", join_texts(coord_names, ", ").as_str());
            assert(text::views(coord_names@).len() == coord_names@.len());
            if coord_names.len() == 1 {
                NodePlan::Sweep {
                    needle,
                    header,
                    kind: "for_each",
                    segment: PathSegment::ForEach { var: coord_names[0].clone() },
                }
            } else {
                NodePlan::Sweep {
                    needle,
                    header,
                    kind: "for_combinations",
                    segment: PathSegment::ForCombinations { vars: copy_texts(coord_names) },
                }
            }
        },
        ScenarioNode::IncludedScenario { name, .. } => NodePlan::Descend {
            header: cat3("scenario '", name.as_str(), "'"),
            segment: PathSegment::ScenarioInclude(name.clone()),
        },
        ScenarioNode::DoWhile { condition, counter, .. } => NodePlan::Loop {
            header: cat2("do_while ", condition.as_str()),
            invert: false,
            segment: PathSegment::DoWhile { counter: copy_text(counter) },
        },
        ScenarioNode::DoUntil { condition, counter, .. } => NodePlan::Loop {
            header: cat2("do_until ", condition.as_str()),
            invert: true,
            segment: PathSegment::DoUntil { counter: copy_text(counter) },
        },
        ScenarioNode::Bindings { label, .. } => {
            let head = cat2("bindings scope at index ", u64_text(facts.scope_idx as u64).as_str());
            if !facts.kernel_installed {
                return NodePlan::Fail(
                    cat2(
                        head.as_str(),
                        " has no installed kernel — install-spec walker missed this node",
                    ),
                );
            }
            match &facts.chain {
                Some(ChainFault::Matter(e)) => NodePlan::Fail(
                    cat3(head.as_str(), ": build subscope matter: ", e.as_str()),
                ),
                Some(ChainFault::Parent(e)) => NodePlan::Fail(
                    cat3(head.as_str(), ": chain to current parent kernel: ", e.as_str()),
                ),
                None => NodePlan::Descend {
                    header: label.clone(),
                    segment: PathSegment::ScenarioInclude(label.clone()),
                },
            }
        },
    }
}

/// The outcome of a node that the plan alone settles: one that is left out is
/// skipped, one that cannot run fails, and a phase that is not to run counts as
/// completed. Any other outcome follows from what runs.
pub fn plan_outcome(plan: &NodePlan) -> (r: Option<Outcome>)
    ensures
        match *plan {
            NodePlan::Elide => r matches Some(o) && o.bare(
                Disposition::Skipped,
                Validity::Succeeded,
            ),
            NodePlan::Fail(why) => r matches Some(o) && {
                &&& o.disposition == Disposition::Interrupted
                &&& o.validity == Validity::Failed
                &&& phase_outcome::text_of(o.reason) == Some(why@)
                &&& o.payload is None
            },
            NodePlan::Leaf { gate, .. } => if gate == PhaseGate::Run {
                r is None
            } else {
                r matches Some(o) && o.bare(Disposition::Completed, Validity::Succeeded)
            },
            _ => r is None,
        },
{
    match plan {
        NodePlan::Elide => Some(Outcome::skipped()),
        NodePlan::Fail(why) => Some(Outcome::failed().with_reason(why.as_str())),
        NodePlan::Leaf { gate, .. } => if *gate == PhaseGate::Run {
            None
        } else {
            Some(Outcome::completed())
        },
        _ => None,
    }
}

/// The outcome of a node whose work is done elsewhere and needs no words of its
/// own: its failure is passed up as it is, anything else counts as completed.
pub fn node_outcome(inner: Outcome) -> (r: Outcome)
    ensures
        inner.failing() ==> r == inner,
        !inner.failing() ==> r.bare(Disposition::Completed, Validity::Succeeded),
{
    if inner.is_failure() {
        inner
    } else {
        Outcome::completed()
    }
}

/// The outcome of a loop node.
pub fn loop_outcome(inner: Result<(), String>) -> (r: Outcome)
    ensures
        match inner {
            Ok(_) => r.bare(Disposition::Completed, Validity::Succeeded),
            Err(e) => {
                &&& r.disposition == Disposition::Interrupted
                &&& r.validity == Validity::Failed
                &&& phase_outcome::text_of(r.reason) == Some(e@)
                &&& r.payload is None
            },
        },
{
    match inner {
        Ok(_) => Outcome::completed(),
        Err(e) => Outcome::failed().with_reason(e.as_str()),
    }
}

/// The header of a phase that searches: the method, the objective, the axes and
/// the budget.
pub open spec fn search_header_of(b: OptimizeBlock, axes: Seq<char>) -> Seq<char> {
    "search · "@ + b.method@ + " · maximize "@ + b.objective@ + " · {"@ + axes + "} · ≤"@
        + text::decimal(b.max_evals as nat) + " evals"@
}

pub fn search_header(b: &OptimizeBlock, axes: &str) -> (r: String)
    ensures
        r@ == search_header_of(*b, axes@),
{
    cat9(
        "search · ",
        b.method.as_str(),
        " · maximize ",
        b.objective.as_str(),
        " · {",
        axes,
        "} · ≤",
        u64_text(b.max_evals as u64).as_str(),
        " evals",
    )
}

/// The first value of each iteration that has one, as it is shown.
pub open spec fn first_values(steps: Seq<IterationStep>) -> Seq<Seq<char>>
    decreases steps.len(),
{
    if steps.len() == 0 {
        Seq::empty()
    } else if steps.last().bindings@.len() == 0 {
        first_values(steps.drop_last())
    } else {
        first_values(steps.drop_last()).push(value::display_of(steps.last().bindings@[0].1))
    }
}

/// The header of a phase that iterates: its variables and the first value of
/// each iteration.
pub fn sweep_header(var_label: &str, steps: &Vec<IterationStep>) -> (r: String)
    ensures
        r@ == "phase.for_each "@ + var_label@ + " in ["@ + text::joined(
            first_values(steps@),
            ", "@,
        ) + "]"@,
{
    let mut firsts: Vec<String> = Vec::new();
    let mut i: usize = 0;
    assert(text::views(firsts@) =~= first_values(steps@.take(0)));
    while i < steps.len()
        invariant
            i <= steps@.len(),
            text::views(firsts@) == first_values(steps@.take(i as int)),
        decreases steps@.len() - i,
    {
        assert(steps@.take(i + 1).drop_last() =~= steps@.take(i as int));
        if steps[i].bindings.len() > 0 {
            let ghost now = text::views(firsts@);
            let shown = steps[i].bindings[0].1.to_display_string();
            let ghost added = shown@;
            firsts.push(shown);
            assert(text::views(firsts@) =~= now.push(added));
        }
        i += 1;
    }
    assert(steps@.take(i as int) =~= steps@);
    cat5("phase.for_each ", var_label, " in [", join_texts(&firsts, ", ").as_str(), "]")
}

/// The names of bindings.
pub open spec fn binding_names(b: Seq<(String, Value)>) -> Seq<Seq<char>> {
    b.map_values(|x: (String, Value)| x.0@)
}

/// The axes of a search as they are shown: its variables where they are
/// sampled, else the names that its first candidate binds.
pub fn search_axes(var_label: &str, sampled: bool, steps: &Vec<IterationStep>) -> (r: String)
    ensures
        r@ == (if sampled {
            var_label@
        } else if steps@.len() > 0 {
            text::joined(binding_names(steps@[0].bindings@), ", "@)
        } else {
            Seq::empty()
        }),
{
    if sampled {
        return var_label.to_owned();
    }
    if steps.len() == 0 {
        return String::new();
    }
    let b = &steps[0].bindings;
    let mut names: Vec<String> = Vec::new();
    let mut i: usize = 0;
    while i < b.len()
        invariant
            i <= b@.len(),
            names@.len() == i,
            forall|k: int| 0 <= k < i ==> #[trigger] names@[k]@ == b@[k].0@,
        decreases b@.len() - i,
    {
        names.push(b[i].0.clone());
        i += 1;
    }
    assert(text::views(names@) =~= binding_names(b@));
    join_texts(&names, ", ")
}

/// The first line of `source` that is not blank, trimmed.
pub open spec fn first_line(lines: Seq<Seq<char>>) -> Seq<char>
    decreases lines.len(),
{
    if lines.len() == 0 {
        Seq::empty()
    } else if text::trimmed(lines[0]).len() > 0 {
        text::trimmed(lines[0])
    } else {
        first_line(lines.drop_first())
    }
}

/// What a bindings scope is shown by: the first line of its source that is not
/// blank.
pub fn one_line(source: &str) -> (r: String)
    ensures
        r@ == first_line(text::split_on(source@, '\n')),
{
    let lines = split_text(source, '\n');
    let ghost all = text::split_on(source@, '\n');
    let mut i: usize = 0;
    assert(all.skip(0) =~= all);
    while i < lines.len()
        invariant
            i <= lines@.len(),
            all == text::views(lines@),
            all == text::split_on(source@, '\n'),
            first_line(all) == first_line(all.skip(i as int)),
        decreases lines@.len() - i,
    {
        assert(all.skip(i as int)[0] == lines@[i as int]@);
        assert(all.skip(i as int).drop_first() =~= all.skip(i + 1));
        let t = trim_text(lines[i].as_str());
        if !t.as_str().is_empty() {
            return t;
        }
        i += 1;
    }
    assert(all.len() == lines@.len());
    String::new()
}

/// A scope below which the filter names no phase is left out, and without a filter nothing
/// is; a phase is never left out as a scope is.
pub proof fn law_unselected_scope_is_left_out(filter: PhaseFilter, node: ScenarioNode)
    requires
        forall|name: Seq<char>| #[trigger]
            contains_phase(node, name) ==> !context::selects(filter, name),
    ensures
        !(node is Phase) ==> elided(Some(filter), node),
        node is Phase ==> !elided(Some(filter), node),
        !elided(None, node),
{
    if has_active_phase(node, filter) {
        law_active_iff_selected_phase_below(node, filter);
    }
}

/// What is not run is shown as completed, but for what the filter or the depth leaves out
/// while the structure is merely mapped; what is run never is.
pub proof fn law_unrun_is_shown_completed(gate: PhaseGate, pre_map_only: bool)
    ensures
        shown_completed(gate, pre_map_only) <==> gate != PhaseGate::Run && (gate
            == PhaseGate::Refined || !pre_map_only),
{
}

/// A phase iterates exactly where its scope and both kernels are there and its variables
/// can be read; a comprehension where both kernels are; and a bindings scope where its
/// kernel is and the chain to the kernel around it holds.
pub proof fn law_scope_runs_iff_installed(
    name: Seq<char>,
    spec: Seq<char>,
    s: SweepFacts,
    label: Seq<char>,
    f: NodeFacts,
)
    ensures
        sweep_fault(name, spec, s) is None <==> s.scope_idx is Some && s.kernel_installed
            && s.ancestor_installed && s.vars is Ok,
        scope_fault(label, f) is None <==> f.kernel_installed && f.ancestor_installed,
        bindings_fault(f) is None <==> f.kernel_installed && f.chain is None,
{
}

/// A comprehension over one coordinate is a plain loop over it, and any other runs over the
/// combinations of its coordinates, in order.
pub proof fn law_comprehension_names_its_coordinates(r: NodePlan, coords: Seq<Seq<char>>)
    requires
        is_sweep_plan(r, coords),
    ensures
        r matches NodePlan::Sweep { needle, header, kind, segment } && {
            &&& kind@ == "for_each"@ || kind@ == "for_combinations"@
            &&& coords.len() == 1 ==> kind@ == "for_each"@ && (segment matches PathSegment::ForEach {
                var,
            } && var@ == coords[0])
            &&& coords.len() != 1 ==> kind@ == "for_combinations"@ && (segment
                matches PathSegment::ForCombinations { vars } && text::views(vars@) == coords)
            &&& coords.len() > 0 ==> needle@ == coords[0]
            &&& header@ == "each "@ + text::joined(coords, ", "@)
        },
{
}

/// The header of a sweep shows one value for each iteration that binds any, in order.
pub proof fn law_header_shows_first_values(a: Seq<IterationStep>, b: Seq<IterationStep>, s: IterationStep)
    ensures
        first_values(a + b) == first_values(a) + first_values(b),
        s.bindings@.len() > 0 ==> first_values(seq![s]) == seq![
            value::display_of(s.bindings@[0].1),
        ],
        s.bindings@.len() == 0 ==> first_values(seq![s]).len() == 0,
    decreases b.len(),
{
    if b.len() == 0 {
        assert(a + b =~= a);
        assert(first_values(a) + first_values(b) =~= first_values(a));
    } else {
        assert((a + b).drop_last() =~= a + b.drop_last());
        law_header_shows_first_values(a, b.drop_last(), s);
        assert(first_values(a + b) =~= first_values(a) + first_values(b));
    }
    let one = seq![s];
    assert(one.drop_last() =~= Seq::<IterationStep>::empty());
    assert(first_values(one.drop_last()).len() == 0);
    if s.bindings@.len() > 0 {
        assert(first_values(one) =~= seq![value::display_of(s.bindings@[0].1)]);
    }
}

/// A source is shown by its first line that is not blank, without the white space around.
pub proof fn law_first_line_is_shown(lines: Seq<Seq<char>>, i: int)
    requires
        0 <= i < lines.len(),
        text::trimmed(lines[i]).len() > 0,
        forall|k: int| 0 <= k < i ==> text::trimmed(#[trigger] lines[k]).len() == 0,
    ensures
        first_line(lines) == text::trimmed(lines[i]),
    decreases i,
{
    if i > 0 {
        assert(text::trimmed(lines[0]).len() == 0);
        let rest = lines.drop_first();
        assert forall|k: int| 0 <= k < i - 1 implies text::trimmed(#[trigger] rest[k]).len() == 0 by {
            assert(rest[k] == lines[k + 1]);
        }
        law_first_line_is_shown(rest, i - 1);
    }
}

/// Two segments that say the same are of one kind and hold the same texts, and each says
/// what it holds.
pub proof fn law_segment_says_what_it_holds(s: PathSegment, t: PathSegment)
    ensures
        s matches PathSegment::Phase(n) ==> segment_model(s) == SegmentModel::Phase(n@),
        s matches PathSegment::ForEach { var } ==> segment_model(s) == SegmentModel::ForEach(var@),
        s matches PathSegment::ScenarioInclude(n) ==> segment_model(s)
            == SegmentModel::ScenarioInclude(n@),
        segment_model(s) == segment_model(t) ==> ((s is DoWhile <==> t is DoWhile) && (s is DoUntil
            <==> t is DoUntil) && (s is ForCombinations <==> t is ForCombinations)),
        s is DoWhile && segment_model(s) == segment_model(t) ==> (s->DoWhile_counter is Some
            <==> t->DoWhile_counter is Some),
        s is ForCombinations && segment_model(s) == segment_model(t) ==> text::views(
            s->vars@,
        ) == text::views(t->vars@),
{
}

/// A phase is idempotent exactly where the workload declares it and says so.
pub proof fn law_idempotence_is_declared(phases: Map<Seq<char>, WorkloadPhase>, name: Seq<char>)
    ensures
        !phases.contains_key(name) ==> !declared_idempotent(phases, name),
        phases.contains_key(name) ==> (declared_idempotent(phases, name) <==> phases[name].idempotent),
{
}

} // verus!
