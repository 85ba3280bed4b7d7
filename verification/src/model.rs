//! The parts of a workload that decide how it runs.

use vstd::prelude::*;

use crate::strmap::StrMap;
use crate::value::Float;

verus! {

/// A level of the execution hierarchy.
#[derive(Debug, Clone, Copy, PartialEq, Eq, Structural)]
pub enum ScopeLevel {
    /// The declaring unit itself.
    SelfScope,
    Op,
    Phase,
    Scenario,
    Workload,
}

/// A predicate that must hold before each iteration of a sweep, and the levels
/// at which a halt is felt.
#[derive(Debug, Clone, PartialEq)]
pub struct ContinueIfSpec {
    pub when: String,
    pub each: Vec<ScopeLevel>,
}

/// A declared stop condition.
#[derive(Debug, Clone, PartialEq)]
pub struct StopWhen {
    pub when: String,
    pub effect: Option<String>,
    pub at: Option<ScopeLevel>,
    pub each: Vec<ScopeLevel>,
}

/// One op template of a phase.
#[derive(Debug, Clone, PartialEq)]
pub struct OpTemplate {
    pub name: String,
    /// Whether the op declares bindings of its own.
    pub has_bindings: bool,
    /// What must hold for a cycle to run.
    pub condition: Option<String>,
    /// The adapter that the op asks for.
    pub adapter: Option<String>,
}

/// The polling loop of a phase.
#[derive(Debug, Clone, PartialEq)]
pub struct PollSpec {
    pub interval_ms: Option<String>,
    pub timeout_ms: Option<String>,
    pub max_error_retries: Option<String>,
    pub on_timeout: Option<String>,
}

/// The search that a phase runs over its iteration variables.
#[derive(Debug, Clone, PartialEq)]
pub struct OptimizeBlock {
    pub method: String,
    pub objective: String,
    pub max_evals: usize,
    /// The variables that are actuated as live controls.
    pub servo: Vec<String>,
}

/// The kind of instrument that a phase metric is recorded on.
#[derive(Debug, Clone, Copy, PartialEq, Eq, Structural)]
pub enum MetricKind {
    Gauge,
    Histogram,
    Counter,
}

/// A metric that a phase records when it ends.
#[derive(Debug, Clone, PartialEq)]
pub struct MetricSpec {
    pub value: String,
    pub format: Option<String>,
    pub family: Option<String>,
    pub kind: Option<MetricKind>,
    pub unit: Option<String>,
    /// The names of the dimensions in which the metric is placed.
    pub cell: Vec<String>,
}

/// A phase as declared.
pub struct WorkloadPhase {
    /// Runs beside its siblings and ends with them.
    pub daemon: bool,
    pub for_each: Option<String>,
    /// Declared safe to skip once done.
    pub idempotent: bool,
    pub ops: Vec<OpTemplate>,
    pub cycles: Option<String>,
    pub concurrency: Option<String>,
    pub rate: Option<String>,
    pub timeout: Option<String>,
    pub adapter: Option<String>,
    /// How op errors are handled.
    pub errors: Option<String>,
    /// The share of failing ops that stops the phase.
    pub error_rate_max: Option<Float>,
    /// How often an op is tried in all.
    pub tries: Option<u32>,
    pub stop_when: Vec<StopWhen>,
    pub poll: Option<PollSpec>,
    pub metrics: StrMap<MetricSpec>,
    pub optimize: Option<OptimizeBlock>,
    pub continue_if: Option<ContinueIfSpec>,
}

/// A node of the scenario tree.
pub enum ScenarioNode {
    Phase(String),
    /// Runs its children once per coordinate tuple. `label` shows the clauses.
    Comprehension {
        label: String,
        coord_names: Vec<String>,
        continue_if: Option<ContinueIfSpec>,
        children: Vec<ScenarioNode>,
    },
    IncludedScenario { name: String, children: Vec<ScenarioNode> },
    DoWhile { condition: String, counter: Option<String>, children: Vec<ScenarioNode> },
    DoUntil { condition: String, counter: Option<String>, children: Vec<ScenarioNode> },
    /// Adds definitions for its children. `label` names what it defines.
    Bindings { label: String, source: String, children: Vec<ScenarioNode> },
}

/// How many siblings may run at a time.
#[derive(Debug, Clone, Copy, PartialEq, Eq, Structural)]
pub enum ConcurrencyLimit {
    Bounded(u32),
    Unlimited,
}

/// How far a run goes: from the structure alone to full execution.
#[derive(Debug, Clone, Copy, PartialEq, Eq, Structural)]
pub enum ExecDepth {
    Phase,
    Dispenser,
    Op,
    Cycle,
    Full,
}

pub open spec fn depth_rank(d: ExecDepth) -> int {
    match d {
        ExecDepth::Phase => 0,
        ExecDepth::Dispenser => 1,
        ExecDepth::Op => 2,
        ExecDepth::Cycle => 3,
        ExecDepth::Full => 4,
    }
}

impl ExecDepth {
    pub fn rank(&self) -> (r: u8)
        ensures
            r == depth_rank(*self),
    {
        match self {
            ExecDepth::Phase => 0,
            ExecDepth::Dispenser => 1,
            ExecDepth::Op => 2,
            ExecDepth::Cycle => 3,
            ExecDepth::Full => 4,
        }
    }

    /// Whether `self` goes at least as far as `other`.
    pub fn reaches(&self, other: ExecDepth) -> (r: bool)
        ensures
            r == (depth_rank(*self) >= depth_rank(other)),
    {
        self.rank() >= other.rank()
    }
}

} // verus!
