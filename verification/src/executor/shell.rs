//! Execution shells: how the results of child units decide on going on and fold
//! into the result of the unit around them.

use vstd::prelude::*;

use crate::adapter;
use crate::adapter::{ExecutionError, OpResult};
use crate::model::ScopeLevel;
use crate::phase_outcome;
use crate::phase_outcome::{Disposition, Outcome, Validity};
use crate::text::cat2;

verus! {

/// Where the action of a tripped stop condition lands.
#[derive(Debug, Clone, Copy, PartialEq, Eq, Structural)]
pub enum StopScope {
    Phase,
    Scenario,
    Workload,
}

/// From the innermost level outward.
pub open spec fn level_rank(l: ScopeLevel) -> int {
    match l {
        ScopeLevel::SelfScope => 0,
        ScopeLevel::Op => 1,
        ScopeLevel::Phase => 2,
        ScopeLevel::Scenario => 3,
        ScopeLevel::Workload => 4,
    }
}

fn rank(l: ScopeLevel) -> (r: u8)
    ensures
        r == level_rank(l),
{
    match l {
        ScopeLevel::SelfScope => 0,
        ScopeLevel::Op => 1,
        ScopeLevel::Phase => 2,
        ScopeLevel::Scenario => 3,
        ScopeLevel::Workload => 4,
    }
}

pub open spec fn scope_of(l: ScopeLevel) -> StopScope {
    match l {
        ScopeLevel::Scenario => StopScope::Scenario,
        ScopeLevel::Workload => StopScope::Workload,
        _ => StopScope::Phase,
    }
}

/// `l` is the innermost of the levels.
pub open spec fn is_innermost(each: Seq<ScopeLevel>, l: ScopeLevel) -> bool {
    each.contains(l) && forall|i: int|
        0 <= i < each.len() ==> level_rank(l) <= level_rank(#[trigger] each[i])
}

fn scope_for(l: ScopeLevel) -> (r: StopScope)
    ensures
        r == scope_of(l),
{
    match l {
        ScopeLevel::Scenario => StopScope::Scenario,
        ScopeLevel::Workload => StopScope::Workload,
        _ => StopScope::Phase,
    }
}

/// Where a stop condition acts: at its explicit target, else at the innermost
/// level at which it is detected, else at the phase.
pub fn resolve_stop_scope(at: Option<ScopeLevel>, each: &Vec<ScopeLevel>) -> (r: StopScope)
    ensures
        match at {
            Some(l) => r == scope_of(l),
            None => {
                &&& each@.len() == 0 ==> r == StopScope::Phase
                &&& forall|l: ScopeLevel| #[trigger] is_innermost(each@, l) ==> r == scope_of(l)
            },
        },
{
    if let Some(l) = at {
        return scope_for(l);
    }
    if each.len() == 0 {
        return StopScope::Phase;
    }
    let mut best: ScopeLevel = each[0];
    let mut i: usize = 1;
    assert(each@.take(1)[0] == best);
    while i < each.len()
        invariant
            1 <= i <= each@.len(),
            each@.take(i as int).contains(best),
            forall|k: int| 0 <= k < i ==> level_rank(best) <= level_rank(#[trigger] each@[k]),
        decreases each@.len() - i,
    {
        assert(each@.take(i + 1)[i as int] == each@[i as int]);
        let ghost was = each@.take(i as int).index_of(best);
        assert(each@.take(i + 1)[was] == best);
        if rank(each[i]) < rank(best) {
            best = each[i];
        }
        i += 1;
    }
    proof {
        assert(each@.take(each@.len() as int) =~= each@);
        assert forall|l: ScopeLevel| #[trigger] is_innermost(each@, l) implies l == best by {
            let a = each@.index_of(l);
            let b = each@.index_of(best);
            assert(level_rank(best) <= level_rank(each@[a]));
            assert(level_rank(l) <= level_rank(each@[b]));
        }
    }
    scope_for(best)
}

/// Why a walk is being stopped.
#[derive(Debug, Clone, Copy, PartialEq, Eq, Structural)]
pub enum StopCause {
    /// Something failed.
    Fault,
    /// A deliberate early end.
    Interrupt,
}

/// The one cooperative stop: a fault outranks a graceful stop or a halted walk.
pub fn poll_stop(fault: bool, stop_requested: bool, walk_stopped: bool) -> (r: Option<StopCause>)
    ensures
        fault ==> r == Some(StopCause::Fault),
        !fault && (stop_requested || walk_stopped) ==> r == Some(StopCause::Interrupt),
        !fault && !stop_requested && !walk_stopped ==> r is None,
{
    if fault {
        Some(StopCause::Fault)
    } else if stop_requested || walk_stopped {
        Some(StopCause::Interrupt)
    } else {
        None
    }
}

/// The cause with which a tripped condition stops the walk.
pub fn trip_cause(trip: &Outcome) -> (r: StopCause)
    ensures
        r == (if trip.failing() {
            StopCause::Fault
        } else {
            StopCause::Interrupt
        }),
{
    if trip.is_failure() {
        StopCause::Fault
    } else {
        StopCause::Interrupt
    }
}

/// What a shell decides for one child result.
#[derive(Debug, Clone, Copy, PartialEq, Eq, Structural)]
pub enum ShellAction {
    Continue,
    Stop,
}

/// The level that a shell sits at.
#[derive(Debug, Clone, Copy, PartialEq, Eq, Structural)]
pub enum ShellKind {
    Session,
    Scenario,
    Phase,
    Stanza,
    Op,
}

/// The scenario policy: a failed child stops the body.
#[derive(Debug, Clone, Copy)]
pub struct ShellHandler;

impl ShellHandler {
    pub fn scenario_default() -> (r: Self) {
        ShellHandler
    }

    pub fn decide(&self, child: &Outcome) -> (r: ShellAction)
        ensures
            r == (if child.failing() {
                ShellAction::Stop
            } else {
                ShellAction::Continue
            }),
    {
        if child.is_failure() {
            ShellAction::Stop
        } else {
            ShellAction::Continue
        }
    }
}

/// The leaf shell of a phase: its name and the key of its row.
#[derive(Debug, Clone, Copy)]
pub struct PhaseShell<'p> {
    pub name: &'p str,
    pub node_id: usize,
}

impl<'p> PhaseShell<'p> {
    pub fn new(name: &'p str, node_id: usize) -> (r: Self)
        ensures
            r.name == name,
            r.node_id == node_id,
    {
        PhaseShell { name, node_id }
    }

    pub fn shell_kind(&self) -> (r: ShellKind)
        ensures
            r == ShellKind::Phase,
    {
        ShellKind::Phase
    }
}

/// What a joined child task came back with: its outcome, or the text of the
/// panic that ended it.
pub type ChildResult = Result<Outcome, String>;

pub open spec fn child_failed(res: ChildResult) -> bool {
    match res {
        Ok(o) => o.failing(),
        Err(_) => true,
    }
}

/// The words for a failure that came without a reason.
pub open spec fn unnamed_failure() -> Seq<char> {
    "scenario: a unit failed"@
}

/// What a failed child is remembered by.
pub open spec fn child_reason(res: ChildResult) -> Seq<char> {
    match res {
        Ok(o) => match o.reason {
            Some(r) => r@,
            None => unnamed_failure(),
        },
        Err(e) => "concurrent task panicked: "@ + e@,
    }
}

/// A child task as an outcome and its reason. A panic has no outcome of its own
/// and counts as a fault.
pub fn join_outcome(res: ChildResult) -> (r: (Outcome, Option<String>))
    ensures
        r.0.failing() == child_failed(res),
        match res {
            Ok(o) => r.0 == o && phase_outcome::text_of(r.1) == phase_outcome::text_of(o.reason),
            Err(e) => {
                &&& r.0.disposition == Disposition::Interrupted
                &&& r.0.validity == Validity::Failed
                &&& r.0.payload is None
                &&& phase_outcome::text_of(r.0.reason) == Some(child_reason(res))
                &&& phase_outcome::text_of(r.1) == Some(child_reason(res))
            },
        },
{
    match res {
        Err(e) => {
            let msg = cat2("concurrent task panicked: ", e.as_str());
            (Outcome::failed().with_reason(msg.as_str()), Some(msg))
        },
        Ok(outcome) => {
            let reason = match &outcome.reason {
                Some(s) => Some(s.clone()),
                None => None,
            };
            (outcome, reason)
        },
    }
}

/// A latch after one more child: the first failure stays.
pub open spec fn latched(latch: Option<Seq<char>>, res: ChildResult) -> Option<Seq<char>> {
    if latch is Some {
        latch
    } else if child_failed(res) {
        Some(child_reason(res))
    } else {
        None
    }
}

/// Folds one joined child into the two latches: `any_failed_reason` remembers
/// the first child that failed, `first_failure` the first on which the handler
/// decided to stop.
pub fn fold_child(
    res: ChildResult,
    handler: &ShellHandler,
    first_failure: &mut Option<String>,
    any_failed_reason: &mut Option<String>,
)
    ensures
        phase_outcome::text_of(*final(any_failed_reason)) == latched(
            phase_outcome::text_of(*old(any_failed_reason)),
            res,
        ),
        phase_outcome::text_of(*final(first_failure)) == latched(
            phase_outcome::text_of(*old(first_failure)),
            res,
        ),
{
    let ghost given = res;
    let (child, reason) = join_outcome(res);
    if child.is_failure() {
        let said = match reason {
            Some(r) => r,
            None => "scenario: a unit failed".to_owned(),
        };
        assert(said@ == child_reason(given));
        if any_failed_reason.is_none() {
            *any_failed_reason = Some(said.clone());
        }
        if handler.decide(&child) == ShellAction::Stop && first_failure.is_none() {
            *first_failure = Some(said);
        }
    }
}

/// The outcome that two latches and a stopped walk amount to: failed when a
/// child failed, interrupted when dispatch was cut short; the reason is that of
/// the stop, else that of the failure.
pub fn fold_aggregate(
    first_failure: Option<String>,
    any_failed_reason: Option<String>,
    should_stop: bool,
) -> (r: Outcome)
    ensures
        r.disposition == (if first_failure is Some || should_stop {
            Disposition::Interrupted
        } else {
            Disposition::Completed
        }),
        r.validity == (if first_failure is Some || any_failed_reason is Some {
            Validity::Failed
        } else {
            Validity::Succeeded
        }),
        phase_outcome::text_of(r.reason) == (if first_failure is Some {
            phase_outcome::text_of(first_failure)
        } else {
            phase_outcome::text_of(any_failed_reason)
        }),
        r.payload is None,
{
    let cut_short = first_failure.is_some() || should_stop;
    let disposition = if cut_short {
        Disposition::Interrupted
    } else {
        Disposition::Completed
    };
    let validity = if first_failure.is_some() || any_failed_reason.is_some() {
        Validity::Failed
    } else {
        Validity::Succeeded
    };
    let outcome = Outcome::new(disposition, validity);
    match first_failure {
        Some(reason) => outcome.with_reason(reason.as_str()),
        None => match any_failed_reason {
            Some(reason) => outcome.with_reason(reason.as_str()),
            None => outcome,
        },
    }
}

/// The latch after a run of children.
pub open spec fn latch_after(children: Seq<ChildResult>) -> Option<Seq<char>>
    decreases children.len(),
{
    if children.len() == 0 {
        None
    } else {
        latched(latch_after(children.drop_last()), children.last())
    }
}

/// No failure is lost and none is invented: the latch is set exactly when some
/// child failed.
pub proof fn law_failure_is_latched(children: Seq<ChildResult>)
    ensures
        latch_after(children) is Some <==> exists|i: int|
            0 <= i < children.len() && #[trigger] child_failed(children[i]),
    decreases children.len(),
{
    if children.len() > 0 {
        let less = children.drop_last();
        law_failure_is_latched(less);
        if latch_after(less) is Some {
            let i = choose|i: int| 0 <= i < less.len() && #[trigger] child_failed(less[i]);
            assert(child_failed(children[i]));
        } else if child_failed(children.last()) {
            assert(child_failed(children[children.len() - 1]));
        } else {
            assert forall|i: int| 0 <= i < children.len() implies !#[trigger] child_failed(
                children[i],
            ) by {
                if i < children.len() - 1 {
                    assert(!child_failed(less[i]));
                }
            }
        }
    }
}

/// The latch holds the reason of the first child that failed.
pub proof fn law_first_failure_is_kept(children: Seq<ChildResult>, i: int)
    requires
        0 <= i < children.len(),
        child_failed(children[i]),
        forall|k: int| 0 <= k < i ==> !#[trigger] child_failed(children[k]),
    ensures
        latch_after(children) == Some(child_reason(children[i])),
    decreases children.len(),
{
    let less = children.drop_last();
    if i < children.len() - 1 {
        assert forall|k: int| 0 <= k < i implies !#[trigger] child_failed(less[k]) by {
            assert(!child_failed(children[k]));
        }
        law_first_failure_is_kept(less, i);
    } else {
        law_failure_is_latched(less);
        assert forall|k: int| 0 <= k < less.len() implies !#[trigger] child_failed(less[k]) by {
            assert(!child_failed(children[k]));
        }
    }
}

/// The result of a whole scenario tree: an error with the reason when it
/// failed.
pub fn tree_result(o: &Outcome) -> (r: Result<(), String>)
    ensures
        r is Err <==> o.failing(),
        r matches Err(e) ==> e@ == (match o.reason {
            Some(s) => s@,
            None => unnamed_failure(),
        }),
{
    if o.is_failure() {
        match &o.reason {
            Some(s) => Err(s.clone()),
            None => Err("scenario: a unit failed".to_owned()),
        }
    } else {
        Ok(())
    }
}

/// The shell of a single operation.
pub struct OpShell;

impl OpShell {
    /// A skip is skipped, a result is completed with its body as payload, and
    /// an error ran to its end with an unusable result.
    pub fn project(res: Result<OpResult, ExecutionError>) -> (r: Outcome)
        ensures
            match res {
                Ok(o) => if o.skipped {
                    r.bare(Disposition::Skipped, Validity::Succeeded)
                } else {
                    &&& r.disposition == Disposition::Completed
                    &&& r.validity == Validity::Succeeded
                    &&& r.reason is None
                    &&& r.payload == o.body
                },
                Err(e) => {
                    &&& r.disposition == Disposition::Completed
                    &&& r.validity == Validity::Failed
                    &&& phase_outcome::text_of(r.reason) == Some(adapter::execution_error_text(e))
                    &&& r.payload is None
                },
            },
    {
        match res {
            Ok(o) => {
                if o.skipped {
                    Outcome::skipped()
                } else {
                    Outcome {
                        disposition: Disposition::Completed,
                        validity: Validity::Succeeded,
                        reason: None,
                        payload: o.body,
                    }
                }
            },
            Err(e) => Outcome::completed_failed().with_reason(e.text().as_str()),
        }
    }
}

/// The levels from the innermost outward, and where a condition that acts at each of them
/// lands: at the phase for all that is not wider than a phase.
pub proof fn law_levels_go_outward(l: ScopeLevel, m: ScopeLevel)
    ensures
        level_rank(ScopeLevel::SelfScope) < level_rank(ScopeLevel::Op) < level_rank(
            ScopeLevel::Phase,
        ) < level_rank(ScopeLevel::Scenario) < level_rank(ScopeLevel::Workload),
        scope_of(l) == StopScope::Workload <==> l == ScopeLevel::Workload,
        scope_of(l) == StopScope::Scenario <==> l == ScopeLevel::Scenario,
        is_innermost(seq![l, m], l) <==> level_rank(l) <= level_rank(m),
{
    let each = seq![l, m];
    assert(each[0] == l && each[1] == m);
    assert(each.contains(l));
}

/// A child that did not come back, or came back failed, is what a shell remembers it by:
/// its own reason, else that a unit failed, else the panic.
pub proof fn law_child_is_remembered(res: ChildResult)
    ensures
        child_failed(res) <==> (match res {
            Ok(o) => o.validity == Validity::Failed,
            Err(_) => true,
        }),
        match res {
            Ok(o) => child_reason(res) == (if o.reason is Some {
                o.reason->0@
            } else {
                "scenario: a unit failed"@
            }),
            Err(e) => child_reason(res) == "concurrent task panicked: "@ + e@,
        },
{
}

} // verus!
