//! Running something once per iteration of a comprehension: a gate before
//! each iteration, the order of dispatch, and the fold of the results.

use vstd::prelude::*;

use crate::executor::coords;
use crate::executor::coords::format_iter_label;
use crate::executor::shell;
use crate::executor::shell::{fold_aggregate, ChildResult};
use crate::model;
use crate::model::{ConcurrencyLimit, ContinueIfSpec, ExecDepth, ScopeLevel};
use crate::phase_outcome;
use crate::phase_outcome::{Disposition, Outcome, Validity};
use crate::text;
use crate::text::{cat2, cat3, cat4, cat5};
use crate::value::Value;

verus! {

/// The words for a clause that yields nothing.
pub open spec fn empty_clause_text(var: Seq<char>, spec: Option<Seq<char>>) -> Seq<char> {
    (match spec {
        Some(s) => "for_each clause '"@ + var + " in "@ + s + "'"@,
        None => "for_each clause '"@ + var + "'"@,
    }) + ": produced no values"@
}

/// What a clause without values means: an error in a strict run, else a warning
/// where one is wanted.
pub fn empty_clause(var: &str, spec: Option<&str>, strict: bool, quiet: bool) -> (r: Result<
    Option<String>,
    String,
>)
    ensures
        ({
            let said = empty_clause_text(
                var@,
                match spec {
                    Some(s) => Some(s@),
                    None => None,
                },
            );
            match r {
                Err(e) => strict && e@ == "strict: "@ + said,
                Ok(w) => !strict && phase_outcome::text_of(w) == (if quiet {
                    None
                } else {
                    Some("warning: "@ + said)
                }),
            }
        }),
{
    let label = match spec {
        Some(s) => cat5("for_each clause '", var, " in ", s, "'"),
        None => cat3("for_each clause '", var, "'"),
    };
    let msg = cat2(label.as_str(), ": produced no values");
    if strict {
        return Err(cat2("strict: ", msg.as_str()));
    }
    if quiet {
        Ok(None)
    } else {
        Ok(Some(cat2("warning: ", msg.as_str())))
    }
}

/// The limit in force: one at a time where iterations depend on each other.
pub fn effective_limit(sequential_only: bool, scheduled: ConcurrencyLimit) -> (r: ConcurrencyLimit)
    ensures
        r == (if sequential_only {
            ConcurrencyLimit::Bounded(1)
        } else {
            scheduled
        }),
{
    if sequential_only {
        ConcurrencyLimit::Bounded(1)
    } else {
        scheduled
    }
}

/// What running a gate predicate for one iteration gave.
pub enum GateResult {
    Holds,
    /// False at the iteration with this label.
    False(String),
    Fault(String),
}

#[derive(Debug, Clone, Copy, PartialEq, Eq, Structural)]
pub enum SweepStage {
    Next,
    Gate,
    Permit,
    Check,
    Join,
    Close,
    Done,
}

/// What happened.
pub enum SweepEvent {
    Proceed,
    Gated(GateResult),
    Permit,
    PermitLost(String),
    Walk(bool),
    Joined(Option<ChildResult>),
}

/// What to do next. A permit that is held goes with `Dispatch` and is given
/// back by `Join`.
pub enum SweepAction {
    EvalGate(usize),
    Acquire(usize),
    Check,
    Dispatch(usize),
    /// Note a graceful stop, halt the whole walk where `stop_workload` says so,
    /// then join.
    Halt { reason: String, stop_workload: bool },
    Join,
    Finish(Outcome),
}

/// A sweep in the course of running.
pub struct Sweep {
    total: usize,
    cursor: usize,
    stage: SweepStage,
    gated: bool,
    when: String,
    stop_workload: bool,
    halt: Option<String>,
    first_err: Option<String>,
}

/// What the state of a sweep means.
pub struct SweepModel {
    pub total: int,
    pub cursor: int,
    pub stage: SweepStage,
    /// Whether each iteration is gated.
    pub gated: bool,
    /// The predicate that gates it.
    pub when: Seq<char>,
    /// Whether a false gate halts the whole walk.
    pub stop_workload: bool,
    pub halt: Option<Seq<char>>,
    pub failed: Option<Seq<char>>,
}

pub enum SweepActionModel {
    EvalGate(int),
    Acquire(int),
    Check,
    Dispatch(int),
    Halt(Seq<char>, bool),
    Join,
    Finish(Disposition, Validity, Option<Seq<char>>),
}

pub open spec fn sweep_action(a: SweepAction) -> SweepActionModel {
    match a {
        SweepAction::EvalGate(i) => SweepActionModel::EvalGate(i as int),
        SweepAction::Acquire(i) => SweepActionModel::Acquire(i as int),
        SweepAction::Check => SweepActionModel::Check,
        SweepAction::Dispatch(i) => SweepActionModel::Dispatch(i as int),
        SweepAction::Halt { reason, stop_workload } => SweepActionModel::Halt(
            reason@,
            stop_workload,
        ),
        SweepAction::Join => SweepActionModel::Join,
        SweepAction::Finish(o) => SweepActionModel::Finish(
            o.disposition,
            o.validity,
            phase_outcome::text_of(o.reason),
        ),
    }
}

/// The words of a halted sweep.
pub open spec fn halt_text(when: Seq<char>, coord: Seq<char>) -> Seq<char> {
    "continue_if: "@ + when + " — halted at "@ + coord
}

/// What a failed iteration is remembered by.
pub open spec fn iteration_reason(res: ChildResult) -> Seq<char> {
    match res {
        Ok(o) => match o.reason {
            Some(s) => s@,
            None => "comprehension iteration failed"@,
        },
        Err(e) => "concurrent comprehension iteration panicked: "@ + e@,
    }
}

pub open spec fn sweep_latched(latch: Option<Seq<char>>, res: ChildResult) -> Option<Seq<char>> {
    if latch is Some {
        latch
    } else if shell::child_failed(res) {
        Some(iteration_reason(res))
    } else {
        None
    }
}

pub open spec fn sweep_expects(stage: SweepStage, e: SweepEvent) -> bool {
    match stage {
        SweepStage::Next => e is Proceed,
        SweepStage::Gate => e is Gated,
        SweepStage::Permit => e is Permit || e is PermitLost,
        SweepStage::Check => e is Walk,
        SweepStage::Join => e is Joined,
        SweepStage::Close => e is Walk,
        SweepStage::Done => false,
    }
}

/// One step of a sweep.
pub open spec fn sweep_step(m: SweepModel, e: SweepEvent) -> (SweepModel, SweepActionModel) {
    match (m.stage, e) {
        (SweepStage::Next, SweepEvent::Proceed) => if m.cursor < m.total {
            if m.gated {
                (SweepModel { stage: SweepStage::Gate, ..m }, SweepActionModel::EvalGate(m.cursor))
            } else {
                (SweepModel { stage: SweepStage::Permit, ..m }, SweepActionModel::Acquire(m.cursor))
            }
        } else {
            (SweepModel { stage: SweepStage::Join, ..m }, SweepActionModel::Join)
        },
        (SweepStage::Gate, SweepEvent::Gated(GateResult::Holds)) => (
            SweepModel { stage: SweepStage::Permit, ..m },
            SweepActionModel::Acquire(m.cursor),
        ),
        (SweepStage::Gate, SweepEvent::Gated(GateResult::False(coord))) => (
            SweepModel {
                stage: SweepStage::Join,
                halt: Some(halt_text(m.when, coord@)),
                ..m
            },
            SweepActionModel::Halt(halt_text(m.when, coord@), m.stop_workload),
        ),
        (SweepStage::Gate, SweepEvent::Gated(GateResult::Fault(why))) => (
            SweepModel { stage: SweepStage::Done, ..m },
            SweepActionModel::Finish(Disposition::Interrupted, Validity::Failed, Some(why@)),
        ),
        (SweepStage::Permit, SweepEvent::Permit) => (
            SweepModel { stage: SweepStage::Check, ..m },
            SweepActionModel::Check,
        ),
        (SweepStage::Permit, SweepEvent::PermitLost(why)) => (
            SweepModel { stage: SweepStage::Done, ..m },
            SweepActionModel::Finish(Disposition::Interrupted, Validity::Failed, Some(why@)),
        ),
        (SweepStage::Check, SweepEvent::Walk(halted)) => if halted {
            (SweepModel { stage: SweepStage::Join, ..m }, SweepActionModel::Join)
        } else {
            (
                SweepModel { cursor: m.cursor + 1, stage: SweepStage::Next, ..m },
                SweepActionModel::Dispatch(m.cursor),
            )
        },
        (SweepStage::Join, SweepEvent::Joined(Some(res))) => (
            SweepModel { failed: sweep_latched(m.failed, res), ..m },
            SweepActionModel::Join,
        ),
        (SweepStage::Join, SweepEvent::Joined(None)) => if m.halt is Some && m.failed is None {
            (
                SweepModel { stage: SweepStage::Done, ..m },
                SweepActionModel::Finish(Disposition::Interrupted, Validity::Succeeded, m.halt),
            )
        } else {
            (SweepModel { stage: SweepStage::Close, ..m }, SweepActionModel::Check)
        },
        (SweepStage::Close, SweepEvent::Walk(halted)) => (
            SweepModel { stage: SweepStage::Done, ..m },
            SweepActionModel::Finish(
                if halted {
                    Disposition::Interrupted
                } else {
                    Disposition::Completed
                },
                if m.failed is Some {
                    Validity::Failed
                } else {
                    Validity::Succeeded
                },
                m.failed,
            ),
        ),
        _ => (m, SweepActionModel::Join),
    }
}

pub open spec fn sweep_ok(m: SweepModel) -> bool {
    &&& 0 <= m.cursor <= m.total
    &&& (m.stage == SweepStage::Gate || m.stage == SweepStage::Permit || m.stage
        == SweepStage::Check) ==> m.cursor < m.total
}

/// A gate counts only where ops run and the walk is not merely mapped.
pub open spec fn gate_applies(gate: Option<ContinueIfSpec>, depth: ExecDepth, pre_map_only: bool) -> bool {
    gate is Some && model::depth_rank(depth) >= model::depth_rank(ExecDepth::Op) && !pre_map_only
}

/// The sweep before anything ran.
pub open spec fn fresh_sweep(
    total: int,
    gate: Option<ContinueIfSpec>,
    depth: ExecDepth,
    pre_map_only: bool,
) -> SweepModel {
    SweepModel {
        total,
        cursor: 0,
        stage: SweepStage::Next,
        gated: gate_applies(gate, depth, pre_map_only),
        when: match gate {
            Some(g) => g.when@,
            None => Seq::empty(),
        },
        stop_workload: gate is Some && gate->0.each@.contains(ScopeLevel::Workload),
        halt: None,
        failed: None,
    }
}

/// A sweep that is under way, or the outcome when there is nothing to run.
pub enum SweepStart {
    Empty(Outcome),
    Started(Sweep),
}

fn has_workload(each: &Vec<ScopeLevel>) -> (r: bool)
    ensures
        r == each@.contains(ScopeLevel::Workload),
{
    let mut i: usize = 0;
    while i < each.len()
        invariant
            i <= each@.len(),
            forall|k: int| 0 <= k < i ==> #[trigger] each@[k] != ScopeLevel::Workload,
        decreases each@.len() - i,
    {
        if each[i] == ScopeLevel::Workload {
            assert(each@.contains(each@[i as int]));
            return true;
        }
        i += 1;
    }
    false
}

impl View for Sweep {
    type V = SweepModel;

    closed spec fn view(&self) -> SweepModel {
        SweepModel {
            total: self.total as int,
            cursor: self.cursor as int,
            stage: self.stage,
            gated: self.gated,
            when: self.when@,
            stop_workload: self.stop_workload,
            halt: phase_outcome::text_of(self.halt),
            failed: phase_outcome::text_of(self.first_err),
        }
    }
}

impl Sweep {
    pub open spec fn wf(self) -> bool {
        sweep_ok(self@)
    }

    /// Starts a sweep over `total` iterations. Without iterations it is
    /// completed at once.
    pub fn begin(
        total: usize,
        gate: &Option<ContinueIfSpec>,
        depth: ExecDepth,
        pre_map_only: bool,
    ) -> (r: SweepStart)
        ensures
            match r {
                SweepStart::Empty(o) => total == 0 && o.bare(
                    Disposition::Completed,
                    Validity::Succeeded,
                ),
                SweepStart::Started(s) => total > 0 && s.wf() && s@ == fresh_sweep(
                    total as int,
                    *gate,
                    depth,
                    pre_map_only,
                ),
            },
    {
        if total == 0 {
            return SweepStart::Empty(Outcome::completed());
        }
        let gated = gate.is_some() && depth.reaches(ExecDepth::Op) && !pre_map_only;
        let (when, stop_workload) = match gate {
            Some(g) => (g.when.clone(), has_workload(&g.each)),
            None => (String::new(), false),
        };
        SweepStart::Started(
            Sweep {
                total,
                cursor: 0,
                stage: SweepStage::Next,
                gated,
                when,
                stop_workload,
                halt: None,
                first_err: None,
            },
        )
    }

    fn latch(&mut self, res: ChildResult)
        ensures
            final(self)@ == (SweepModel {
                failed: sweep_latched(old(self)@.failed, res),
                ..old(self)@
            }),
    {
        if self.first_err.is_none() {
            match res {
                Err(e) => {
                    self.first_err = Some(
                        cat2("concurrent comprehension iteration panicked: ", e.as_str()),
                    );
                },
                Ok(o) => {
                    if o.is_failure() {
                        self.first_err = Some(
                            match o.reason {
                                Some(s) => s,
                                None => "comprehension iteration failed".to_owned(),
                            },
                        );
                    }
                },
            }
        }
    }

    /// Takes what happened and says what to do next.
    pub fn advance(&mut self, event: SweepEvent) -> (r: SweepAction)
        requires
            old(self).wf(),
            sweep_expects(old(self)@.stage, event),
        ensures
            final(self).wf(),
            (final(self)@, sweep_action(r)) == sweep_step(old(self)@, event),
            r matches SweepAction::Finish(o) ==> o.payload is None,
    {
        match event {
            SweepEvent::Proceed => {
                if self.cursor < self.total {
                    if self.gated {
                        self.stage = SweepStage::Gate;
                        SweepAction::EvalGate(self.cursor)
                    } else {
                        self.stage = SweepStage::Permit;
                        SweepAction::Acquire(self.cursor)
                    }
                } else {
                    self.stage = SweepStage::Join;
                    SweepAction::Join
                }
            },
            SweepEvent::Gated(GateResult::Holds) => {
                self.stage = SweepStage::Permit;
                SweepAction::Acquire(self.cursor)
            },
            SweepEvent::Gated(GateResult::False(coord)) => {
                let reason = cat4(
                    "continue_if: ",
                    self.when.as_str(),
                    " — halted at ",
                    coord.as_str(),
                );
                self.stage = SweepStage::Join;
                self.halt = Some(reason.clone());
                SweepAction::Halt { reason, stop_workload: self.stop_workload }
            },
            SweepEvent::Gated(GateResult::Fault(why)) => {
                self.stage = SweepStage::Done;
                SweepAction::Finish(Outcome::failed().with_reason(why.as_str()))
            },
            SweepEvent::Permit => {
                self.stage = SweepStage::Check;
                SweepAction::Check
            },
            SweepEvent::PermitLost(why) => {
                self.stage = SweepStage::Done;
                SweepAction::Finish(Outcome::failed().with_reason(why.as_str()))
            },
            SweepEvent::Walk(halted) => {
                if self.stage == SweepStage::Check {
                    if halted {
                        self.stage = SweepStage::Join;
                        SweepAction::Join
                    } else {
                        let i = self.cursor;
                        self.cursor = i + 1;
                        self.stage = SweepStage::Next;
                        SweepAction::Dispatch(i)
                    }
                } else {
                    self.stage = SweepStage::Done;
                    let failed = match &self.first_err {
                        Some(s) => Some(s.clone()),
                        None => None,
                    };
                    SweepAction::Finish(fold_aggregate(None, failed, halted))
                }
            },
            SweepEvent::Joined(Some(res)) => {
                self.latch(res);
                SweepAction::Join
            },
            SweepEvent::Joined(None) => {
                if self.first_err.is_none() {
                    if let Some(reason) = &self.halt {
                        let o = Outcome::interrupted().with_reason(reason.as_str());
                        self.stage = SweepStage::Done;
                        return SweepAction::Finish(o);
                    }
                }
                self.stage = SweepStage::Close;
                SweepAction::Check
            },
        }
    }
}

/// The state and the actions after a run of events.
pub open spec fn sweep_run(m: SweepModel, events: Seq<SweepEvent>) -> (
    SweepModel,
    Seq<SweepActionModel>,
)
    decreases events.len(),
{
    if events.len() == 0 {
        (m, Seq::empty())
    } else {
        let before = sweep_run(m, events.drop_last());
        let next = sweep_step(before.0, events.last());
        (next.0, before.1.push(next.1))
    }
}

pub open spec fn sweep_run_expected(m: SweepModel, events: Seq<SweepEvent>) -> bool
    decreases events.len(),
{
    events.len() == 0 || (sweep_run_expected(m, events.drop_last()) && sweep_expects(
        sweep_run(m, events.drop_last()).0.stage,
        events.last(),
    ))
}

/// The iterations that were started, in order.
pub open spec fn started(actions: Seq<SweepActionModel>) -> Seq<int>
    decreases actions.len(),
{
    if actions.len() == 0 {
        Seq::empty()
    } else {
        match actions.last() {
            SweepActionModel::Dispatch(i) => started(actions.drop_last()).push(i),
            _ => started(actions.drop_last()),
        }
    }
}

/// How often a gate held.
pub open spec fn gates_held(events: Seq<SweepEvent>) -> int
    decreases events.len(),
{
    if events.len() == 0 {
        0
    } else {
        gates_held(events.drop_last()) + (if events.last() matches SweepEvent::Gated(
            GateResult::Holds,
        ) {
            1int
        } else {
            0
        })
    }
}

/// The results that were joined, in order.
pub open spec fn joined_results(events: Seq<SweepEvent>) -> Seq<ChildResult>
    decreases events.len(),
{
    if events.len() == 0 {
        Seq::empty()
    } else {
        match events.last() {
            SweepEvent::Joined(Some(res)) => joined_results(events.drop_last()).push(res),
            _ => joined_results(events.drop_last()),
        }
    }
}

pub open spec fn sweep_reachable(
    m0: SweepModel,
    events: Seq<SweepEvent>,
    m: SweepModel,
    actions: Seq<SweepActionModel>,
) -> bool {
    &&& sweep_ok(m)
    &&& m.total == m0.total
    &&& m.gated == m0.gated
    &&& started(actions) == Seq::new(m.cursor as nat, |i: int| i)
    &&& m.gated ==> m.cursor <= gates_held(events)
    &&& m.gated && (m.stage == SweepStage::Permit || m.stage == SweepStage::Check) ==> m.cursor
        < gates_held(events)
    &&& m.failed is Some <==> exists|i: int|
        0 <= i < joined_results(events).len() && #[trigger] shell::child_failed(
            joined_results(events)[i],
        )
}

proof fn lemma_sweep_reachable(m0: SweepModel, events: Seq<SweepEvent>)
    requires
        sweep_run_expected(m0, events),
        m0.stage == SweepStage::Next,
        m0.cursor == 0,
        m0.total >= 0,
        m0.failed is None,
    ensures
        sweep_reachable(m0, events, sweep_run(m0, events).0, sweep_run(m0, events).1),
    decreases events.len(),
{
    if events.len() == 0 {
        assert(started(sweep_run(m0, events).1) =~= Seq::new(0, |i: int| i));
    } else {
        let less = events.drop_last();
        lemma_sweep_reachable(m0, less);
        let m = sweep_run(m0, less).0;
        let acts = sweep_run(m0, less).1;
        let all = sweep_run(m0, events).1;
        let n = sweep_run(m0, events).0;
        assert(all.drop_last() =~= acts);
        assert(started(all) =~= Seq::new(n.cursor as nat, |i: int| i));
        let a = joined_results(less);
        let b = joined_results(events);
        match events.last() {
            SweepEvent::Joined(Some(res)) => {
                assert(b == a.push(res));
                if m.failed is Some {
                    let i = choose|i: int| 0 <= i < a.len() && #[trigger] shell::child_failed(a[i]);
                    assert(shell::child_failed(b[i]));
                }
                if shell::child_failed(res) {
                    assert(shell::child_failed(b[a.len() as int]));
                }
                if exists|i: int| 0 <= i < b.len() && #[trigger] shell::child_failed(b[i]) {
                    let i = choose|i: int| 0 <= i < b.len() && #[trigger] shell::child_failed(b[i]);
                    if i < a.len() {
                        assert(shell::child_failed(a[i]));
                    }
                }
            },
            _ => {
                assert(a == b);
            },
        }
    }
}

/// Iterations start in comprehension order, each at most once.
pub proof fn law_sweep_in_order(
    total: nat,
    gate: Option<ContinueIfSpec>,
    depth: ExecDepth,
    pre_map_only: bool,
    events: Seq<SweepEvent>,
)
    requires
        sweep_run_expected(fresh_sweep(total as int, gate, depth, pre_map_only), events),
    ensures
        ({
            let s = started(
                sweep_run(fresh_sweep(total as int, gate, depth, pre_map_only), events).1,
            );
            s.len() <= total && forall|i: int| 0 <= i < s.len() ==> #[trigger] s[i] == i
        }),
{
    lemma_sweep_reachable(fresh_sweep(total as int, gate, depth, pre_map_only), events);
}

/// Under a gate an iteration starts only after its gate held: there are never
/// more iterations than gates that held.
pub proof fn law_gate_before_iteration(
    total: nat,
    gate: Option<ContinueIfSpec>,
    depth: ExecDepth,
    pre_map_only: bool,
    events: Seq<SweepEvent>,
)
    requires
        gate_applies(gate, depth, pre_map_only),
        sweep_run_expected(fresh_sweep(total as int, gate, depth, pre_map_only), events),
    ensures
        started(
            sweep_run(fresh_sweep(total as int, gate, depth, pre_map_only), events).1,
        ).len() <= gates_held(events),
{
    lemma_sweep_reachable(fresh_sweep(total as int, gate, depth, pre_map_only), events);
}

/// A false gate ends the sweep as interrupted with a usable result, unless an
/// iteration that was under way failed: a failure wins.
pub proof fn law_failure_beats_halt(m: SweepModel, e: SweepEvent)
    requires
        m.stage == SweepStage::Join,
        e == SweepEvent::Joined(None),
        m.halt is Some,
    ensures
        m.failed is None ==> sweep_step(m, e).1 == SweepActionModel::Finish(
            Disposition::Interrupted,
            Validity::Succeeded,
            m.halt,
        ),
        m.failed is Some ==> sweep_step(m, e).0.stage == SweepStage::Close,
        m.failed is Some ==> forall|halted: bool|
            (#[trigger] sweep_step(sweep_step(m, e).0, SweepEvent::Walk(halted))).1 matches
                SweepActionModel::Finish(_, v, why) && v == Validity::Failed && why == m.failed,
{
}

/// A sweep that ends by itself fails exactly when an iteration failed.
pub proof fn law_sweep_fails_iff_iteration_failed(
    total: nat,
    gate: Option<ContinueIfSpec>,
    depth: ExecDepth,
    pre_map_only: bool,
    events: Seq<SweepEvent>,
    e: SweepEvent,
    d: Disposition,
    v: Validity,
    why: Option<Seq<char>>,
)
    requires
        sweep_run_expected(fresh_sweep(total as int, gate, depth, pre_map_only), events),
        ({
            let m = sweep_run(fresh_sweep(total as int, gate, depth, pre_map_only), events).0;
            sweep_expects(m.stage, e) && sweep_step(m, e).1 == SweepActionModel::Finish(d, v, why)
        }),
        !(e is PermitLost),
        !(e is Gated),
    ensures
        v == Validity::Failed <==> exists|i: int|
            0 <= i < joined_results(events).len() && #[trigger] shell::child_failed(
                joined_results(events)[i],
            ),
{
    lemma_sweep_reachable(fresh_sweep(total as int, gate, depth, pre_map_only), events);
}

/// The word under which the end of an iteration is recorded.
pub fn exit_word(o: &Outcome) -> (r: &'static str)
    ensures
        r@ == (if o.failing() {
            "interrupted"@
        } else {
            "completed"@
        }),
{
    if o.is_failure() {
        "interrupted"
    } else {
        "completed"
    }
}

/// The outcome of a phase iteration that the depth of the run leaves out, or
/// none where the phase is to run.
pub fn iteration_gate(depth: ExecDepth) -> (r: Option<Outcome>)
    ensures
        r is None <==> model::depth_rank(depth) >= model::depth_rank(ExecDepth::Op),
        r matches Some(o) ==> o.bare(Disposition::Skipped, Validity::Succeeded),
{
    if depth.reaches(ExecDepth::Op) {
        None
    } else {
        Some(Outcome::skipped())
    }
}

/// One blank per level below the first.
pub open spec fn indent_of(depth: nat) -> Seq<char> {
    Seq::new(
        if depth == 0 {
            0
        } else {
            (depth - 1) as nat
        },
        |i: int| ' ',
    )
}

pub fn depth_indent(depth: usize) -> (r: String)
    ensures
        r@ == indent_of(depth as nat),
{
    let n: usize = if depth == 0 {
        0
    } else {
        depth - 1
    };
    let mut r = String::new();
    let mut i: usize = 0;
    while i < n
        invariant
            i <= n,
            r@ == Seq::new(i as nat, |k: int| ' '),
        decreases n - i,
    {
        r.push(' ');
        i += 1;
        assert(r@ =~= Seq::new(i as nat, |k: int| ' '));
    }
    assert(r@ =~= indent_of(depth as nat));
    r
}

/// The reason with which a gate that is false at these bindings halts a sweep.
pub fn gate_false(bindings: &Vec<(String, Value)>) -> (r: GateResult)
    ensures
        r matches GateResult::False(c) && c@ == coords::iter_label(bindings@),
{
    GateResult::False(format_iter_label(bindings))
}

/// An iteration that came back as failed, or not at all.
pub open spec fn is_lost(res: ChildResult) -> bool {
    match res {
        Ok(o) => o.validity == Validity::Failed,
        Err(_) => true,
    }
}

pub open spec fn some_lost(results: Seq<ChildResult>) -> bool {
    exists|i: int| 0 <= i < results.len() && #[trigger] is_lost(results[i])
}

/// `why` is what the first of the lost iterations said; none where none is lost.
pub open spec fn is_first_word(results: Seq<ChildResult>, why: Option<Seq<char>>) -> bool {
    &&& why is Some <==> some_lost(results)
    &&& forall|i: int|
        0 <= i < results.len() && #[trigger] is_lost(results[i]) && (forall|k: int|
            0 <= k < i ==> !#[trigger] is_lost(results[k])) ==> why == Some(
            match results[i] {
                Ok(o) => match o.reason {
                    Some(s) => s@,
                    None => "comprehension iteration failed"@,
                },
                Err(e) => "concurrent comprehension iteration panicked: "@ + e@,
            },
        )
}

/// All that was started has been joined.
pub open spec fn drained(events: Seq<SweepEvent>) -> bool {
    events.contains(SweepEvent::Joined(None))
}

/// Where the last gate that did not hold was false; none where every gate held.
pub open spec fn false_at(events: Seq<SweepEvent>) -> Option<Seq<char>>
    decreases events.len(),
{
    if events.len() == 0 {
        None
    } else {
        match events.last() {
            SweepEvent::Gated(GateResult::False(coord)) => Some(coord@),
            _ => false_at(events.drop_last()),
        }
    }
}

/// The event tells what came of the action.
pub open spec fn answers(last: SweepActionModel, e: SweepEvent) -> bool {
    match last {
        SweepActionModel::EvalGate(_) => e is Gated,
        SweepActionModel::Acquire(_) => e is Permit || e is PermitLost,
        SweepActionModel::Check => e is Walk,
        SweepActionModel::Dispatch(_) => e is Proceed,
        SweepActionModel::Halt(_, _) => e is Joined,
        SweepActionModel::Join => e is Joined,
        SweepActionModel::Finish(_, _, _) => false,
    }
}

/// A predicate gates each iteration: there is one, operations are carried out, and the
/// structure is not merely mapped.
pub open spec fn gate_counts(gate: Option<ContinueIfSpec>, depth: ExecDepth, pre_map_only: bool) -> bool {
    match depth {
        ExecDepth::Phase | ExecDepth::Dispenser => false,
        ExecDepth::Op | ExecDepth::Cycle | ExecDepth::Full => gate is Some && !pre_map_only,
    }
}

/// Whether the stage is the one in which what came of `last` is awaited.
spec fn awaits(stage: SweepStage, last: SweepActionModel) -> bool {
    match last {
        SweepActionModel::EvalGate(_) => stage == SweepStage::Gate,
        SweepActionModel::Acquire(_) => stage == SweepStage::Permit,
        SweepActionModel::Check => stage == SweepStage::Check || stage == SweepStage::Close,
        SweepActionModel::Dispatch(_) => stage == SweepStage::Next,
        SweepActionModel::Halt(_, _) => stage == SweepStage::Join,
        SweepActionModel::Join => stage == SweepStage::Join,
        SweepActionModel::Finish(_, _, _) => stage == SweepStage::Done,
    }
}

/// What holds of every state of a sweep that a run can reach, beyond its place.
spec fn sweep_stages(m0: SweepModel, events: Seq<SweepEvent>) -> bool {
    let (m, acts) = sweep_run(m0, events);
    &&& acts.len() == events.len()
    &&& events.len() > 0 ==> awaits(m.stage, acts.last())
    &&& events.len() == 0 ==> m == m0
    &&& m.when == m0.when
    &&& m.stop_workload == m0.stop_workload
    &&& m.stage == SweepStage::Close ==> drained(events)
    &&& drained(events) ==> m.stage == SweepStage::Close || m.stage == SweepStage::Done
    &&& m.halt == (match false_at(events) {
        Some(coord) => Some("continue_if: "@ + m0.when + " — halted at "@ + coord),
        None => None,
    })
    &&& false_at(events) is Some ==> m.stage == SweepStage::Join || m.stage == SweepStage::Close
        || m.stage == SweepStage::Done
    &&& is_first_word(joined_results(events), m.failed)
}

proof fn lemma_first_word_grows(before: Seq<ChildResult>, res: ChildResult, latch: Option<Seq<char>>)
    requires
        is_first_word(before, latch),
    ensures
        is_first_word(before.push(res), sweep_latched(latch, res)),
{
    let after = before.push(res);
    let n = before.len() as int;
    assert(after[n] == res);
    assert forall|i: int| 0 <= i < n implies #[trigger] is_lost(after[i]) == is_lost(before[i]) by {
        assert(after[i] == before[i]);
    }
    if some_lost(before) {
        let i = choose|i: int| 0 <= i < before.len() && #[trigger] is_lost(before[i]);
        assert(is_lost(after[i]));
    }
    if some_lost(after) && !some_lost(before) {
        let i = choose|i: int| 0 <= i < after.len() && #[trigger] is_lost(after[i]);
        assert(i == n) by {
            if i < n {
                assert(is_lost(before[i]));
            }
        }
    }
    if is_lost(res) {
        assert(is_lost(after[n]));
    }
    assert forall|i: int|
        0 <= i < after.len() && #[trigger] is_lost(after[i]) && (forall|k: int|
            0 <= k < i ==> !#[trigger] is_lost(after[k])) implies sweep_latched(latch, res) == Some(
        iteration_reason(after[i]),
    ) by {
        if i < n {
            assert(is_lost(before[i]));
            assert forall|k: int| 0 <= k < i implies !#[trigger] is_lost(before[k]) by {
                assert(!is_lost(after[k]));
            }
        } else {
            assert(!some_lost(before)) by {
                if some_lost(before) {
                    let k = choose|k: int| 0 <= k < before.len() && #[trigger] is_lost(before[k]);
                    assert(is_lost(after[k]));
                }
            }
        }
    }
}

proof fn lemma_sweep_stages(m0: SweepModel, events: Seq<SweepEvent>)
    requires
        sweep_run_expected(m0, events),
        m0.stage == SweepStage::Next,
        m0.failed is None,
        m0.halt is None,
    ensures
        sweep_stages(m0, events),
    decreases events.len(),
{
    if events.len() > 0 {
        let less = events.drop_last();
        lemma_sweep_stages(m0, less);
        let e = events.last();
        assert(events[events.len() - 1] == e);
        if drained(less) {
            let i = less.index_of(SweepEvent::Joined(None));
            assert(events[i] == SweepEvent::Joined(None));
        }
        if drained(events) && !drained(less) {
            let i = events.index_of(SweepEvent::Joined(None));
            if i < less.len() {
                assert(less[i] == SweepEvent::Joined(None));
            }
        }
        if let SweepEvent::Joined(Some(res)) = e {
            lemma_first_word_grows(joined_results(less), res, sweep_run(m0, less).0.failed);
        }
    }
}

/// What a sweep waits for is told by what it asked last; after its end it waits for
/// nothing.
pub proof fn law_sweep_awaits_what_it_asked(
    total: nat,
    gate: Option<ContinueIfSpec>,
    depth: ExecDepth,
    pre_map_only: bool,
    events: Seq<SweepEvent>,
    e: SweepEvent,
)
    requires
        sweep_run_expected(fresh_sweep(total as int, gate, depth, pre_map_only), events),
    ensures
        ({
            let (m, acts) = sweep_run(fresh_sweep(total as int, gate, depth, pre_map_only), events);
            sweep_expects(m.stage, e) <==> if events.len() == 0 {
                e is Proceed
            } else {
                answers(acts.last(), e)
            }
        }),
{
    lemma_sweep_stages(fresh_sweep(total as int, gate, depth, pre_map_only), events);
}

/// What a sweep asks for next follows from what was reported and started so far: each
/// iteration in order, on a gate that holds, a permit and a walk that goes on; then the
/// join and the end, where a lost iteration outweighs a gate that was false.
pub proof fn law_sweep_reacts_to_history(
    total: nat,
    gate: Option<ContinueIfSpec>,
    depth: ExecDepth,
    pre_map_only: bool,
    events: Seq<SweepEvent>,
    e: SweepEvent,
)
    requires
        sweep_run_expected(fresh_sweep(total as int, gate, depth, pre_map_only), events),
        sweep_expects(
            sweep_run(fresh_sweep(total as int, gate, depth, pre_map_only), events).0.stage,
            e,
        ),
    ensures
        ({
            let (m, acts) = sweep_run(fresh_sweep(total as int, gate, depth, pre_map_only), events);
            let a = sweep_step(m, e).1;
            let begun = started(acts).len() as int;
            let lost = some_lost(joined_results(events));
            match e {
                SweepEvent::Proceed => if begun >= total {
                    a is Join
                } else if gate_counts(gate, depth, pre_map_only) {
                    a == SweepActionModel::EvalGate(begun)
                } else {
                    a == SweepActionModel::Acquire(begun)
                },
                SweepEvent::Gated(GateResult::Holds) => a == SweepActionModel::Acquire(begun),
                SweepEvent::Gated(GateResult::False(coord)) => {
                    &&& gate is Some
                    &&& a == SweepActionModel::Halt(
                        "continue_if: "@ + gate->0.when@ + " — halted at "@ + coord@,
                        gate->0.each@.contains(ScopeLevel::Workload),
                    )
                },
                SweepEvent::Gated(GateResult::Fault(why)) => a == SweepActionModel::Finish(
                    Disposition::Interrupted,
                    Validity::Failed,
                    Some(why@),
                ),
                SweepEvent::Permit => a is Check,
                SweepEvent::PermitLost(why) => a == SweepActionModel::Finish(
                    Disposition::Interrupted,
                    Validity::Failed,
                    Some(why@),
                ),
                SweepEvent::Walk(halted) => if drained(events) {
                    &&& a matches SweepActionModel::Finish(d, v, why)
                    &&& d == (if halted {
                        Disposition::Interrupted
                    } else {
                        Disposition::Completed
                    })
                    &&& v == (if lost {
                        Validity::Failed
                    } else {
                        Validity::Succeeded
                    })
                    &&& is_first_word(joined_results(events), why)
                } else if halted {
                    a is Join
                } else {
                    begun < total && a == SweepActionModel::Dispatch(begun)
                },
                SweepEvent::Joined(Some(_)) => a is Join,
                SweepEvent::Joined(None) => if false_at(events) is Some && !lost {
                    &&& gate is Some
                    &&& a == SweepActionModel::Finish(
                        Disposition::Interrupted,
                        Validity::Succeeded,
                        Some("continue_if: "@ + gate->0.when@ + " — halted at "@ + false_at(events)->0),
                    )
                } else {
                    a is Check
                },
            }
        }),
{
    let m0 = fresh_sweep(total as int, gate, depth, pre_map_only);
    lemma_sweep_reachable(m0, events);
    lemma_sweep_stages(m0, events);
    lemma_gates_need_predicate(m0, events);
}

proof fn lemma_gates_need_predicate(m0: SweepModel, events: Seq<SweepEvent>)
    requires
        sweep_run_expected(m0, events),
        m0.stage == SweepStage::Next,
    ensures
        sweep_run(m0, events).0.gated == m0.gated,
        sweep_run(m0, events).0.stage == SweepStage::Gate ==> m0.gated,
        false_at(events) is Some ==> m0.gated,
    decreases events.len(),
{
    if events.len() > 0 {
        lemma_gates_need_predicate(m0, events.drop_last());
    }
}

/// No iteration starts, and none is prepared, once the walk was found halted or a gate
/// was false.
pub proof fn law_no_iteration_after_halt(
    total: nat,
    gate: Option<ContinueIfSpec>,
    depth: ExecDepth,
    pre_map_only: bool,
    events: Seq<SweepEvent>,
    i: int,
    k: int,
)
    requires
        sweep_run_expected(fresh_sweep(total as int, gate, depth, pre_map_only), events),
        0 <= i <= k < events.len(),
        events[i] == SweepEvent::Walk(true) || (events[i] matches SweepEvent::Gated(g)
            && !(g is Holds)),
    ensures
        ({
            let a = sweep_run(fresh_sweep(total as int, gate, depth, pre_map_only), events).1[k];
            !(a is Dispatch) && !(a is Acquire) && !(a is EvalGate)
        }),
{
    lemma_sweep_halted(fresh_sweep(total as int, gate, depth, pre_map_only), events, i);
}

spec fn starts_something(a: SweepActionModel) -> bool {
    a is Dispatch || a is Acquire || a is EvalGate
}

proof fn lemma_sweep_halted(m0: SweepModel, events: Seq<SweepEvent>, i: int)
    requires
        sweep_run_expected(m0, events),
        m0.stage == SweepStage::Next,
        m0.failed is None,
        m0.halt is None,
        0 <= i < events.len(),
        events[i] == SweepEvent::Walk(true) || (events[i] matches SweepEvent::Gated(g)
            && !(g is Holds)),
    ensures
        ({
            let (m, acts) = sweep_run(m0, events);
            &&& m.stage == SweepStage::Join || m.stage == SweepStage::Close || m.stage
                == SweepStage::Done
            &&& acts.len() == events.len()
            &&& forall|k: int| i <= k < acts.len() ==> !starts_something(#[trigger] acts[k])
        }),
    decreases events.len(),
{
    let less = events.drop_last();
    lemma_sweep_stages(m0, less);
    lemma_sweep_stages(m0, events);
    let was = sweep_run(m0, less).1;
    let acts = sweep_run(m0, events).1;
    assert(acts =~= was.push(acts.last()));
    if i < less.len() {
        lemma_sweep_halted(m0, less, i);
        assert forall|k: int| i <= k < acts.len() implies !starts_something(#[trigger] acts[k]) by {
            if k < less.len() {
                assert(!starts_something(was[k]));
            }
        }
    }
}

/// A sweep that ends by itself has joined what it started. It has started every
/// iteration, unless the walk was halted or a gate was false.
pub proof fn law_sweep_starts_every_iteration(
    total: nat,
    gate: Option<ContinueIfSpec>,
    depth: ExecDepth,
    pre_map_only: bool,
    events: Seq<SweepEvent>,
)
    requires
        sweep_run_expected(fresh_sweep(total as int, gate, depth, pre_map_only), events),
        events.len() > 0,
        sweep_run(fresh_sweep(total as int, gate, depth, pre_map_only), events).1.last() is Finish,
        !(events.last() is PermitLost),
        !(events.last() is Gated),
    ensures
        drained(events),
        !events.contains(SweepEvent::Walk(true)) && false_at(events) is None ==> started(
            sweep_run(fresh_sweep(total as int, gate, depth, pre_map_only), events).1,
        ) == Seq::new(total, |i: int| i),
{
    let m0 = fresh_sweep(total as int, gate, depth, pre_map_only);
    lemma_sweep_stages(m0, events);
    lemma_sweep_reachable(m0, events);
    let less = events.drop_last();
    lemma_sweep_stages(m0, less);
    assert(events[events.len() - 1] == events.last());
    if drained(less) {
        let i = less.index_of(SweepEvent::Joined(None));
        assert(events[i] == SweepEvent::Joined(None));
    }
    if !events.contains(SweepEvent::Walk(true)) && false_at(events) is None {
        lemma_sweep_all_started(m0, events);
        assert(started(sweep_run(m0, events).1) =~= Seq::new(total, |i: int| i));
    }
}

proof fn lemma_sweep_all_started(m0: SweepModel, events: Seq<SweepEvent>)
    requires
        sweep_run_expected(m0, events),
        m0.stage == SweepStage::Next,
        m0.cursor == 0,
        m0.total >= 0,
        m0.failed is None,
        m0.halt is None,
        !events.contains(SweepEvent::Walk(true)),
        false_at(events) is None,
    ensures
        ({
            let m = sweep_run(m0, events).0;
            m.stage == SweepStage::Join || m.stage == SweepStage::Close || (m.stage
                == SweepStage::Done && !(events.last() is PermitLost) && !(events.last() is Gated))
                ==> m.cursor == m0.total
        }),
    decreases events.len(),
{
    if events.len() > 0 {
        let less = events.drop_last();
        assert(events[events.len() - 1] == events.last());
        assert forall|r: SweepEvent| #[trigger] less.contains(r) implies events.contains(r) by {
            let i = less.index_of(r);
            assert(events[i] == r);
        }
        lemma_sweep_all_started(m0, less);
        lemma_sweep_stages(m0, less);
        lemma_sweep_reachable(m0, less);
    }
}

/// An empty clause is spoken of by its variable and, where it is known, what it iterates
/// over.
pub proof fn law_empty_clause_is_spoken_of(var: Seq<char>, spec: Seq<char>)
    ensures
        empty_clause_text(var, Some(spec)) == "for_each clause '"@ + var + " in "@ + spec + "'"@
            + ": produced no values"@,
        empty_clause_text(var, None) == "for_each clause '"@ + var + "'"@ + ": produced no values"@,
{
}

/// A row is indented by one blank for each level below the first.
pub proof fn law_indent_grows_by_level(depth: nat)
    ensures
        indent_of(0).len() == 0,
        indent_of(1).len() == 0,
        depth >= 1 ==> indent_of(depth + 1) == indent_of(depth).push(' '),
{
    if depth >= 1 {
        assert(indent_of(depth + 1) =~= indent_of(depth).push(' '));
    }
}

} // verus!
