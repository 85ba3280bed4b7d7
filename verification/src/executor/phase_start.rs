//! The gates that a phase passes before its activity starts. They are asked in
//! a fixed order, and the first one that does not let the phase through decides
//! how it ends.

use vstd::prelude::*;

use crate::phase_outcome;
use crate::phase_outcome::{Disposition, Outcome, Validity};

verus! {

/// A gate that a phase passes on its way to being run.
#[derive(Debug, Clone, Copy, PartialEq, Eq, Structural)]
pub enum StartGate {
    /// The workload declares the phase.
    Lookup,
    /// A resume plan does not skip it.
    Resume,
    /// Not all of its op gates are false.
    Prune,
    /// It has ops.
    Ops,
    /// Its scope compiles, keeps the binding contracts, and takes the overrides
    /// and cursors.
    Scope,
    /// Its stanza is not empty.
    Stanza,
    /// Its concurrency is a number.
    Concurrency,
    /// A refining run does not find it unchanged.
    Refine,
    /// Its time limit can be read.
    Timeout,
    /// Its rate can be read.
    Rate,
    /// Its adapters can be had.
    Adapters,
    /// The run goes deeper than attaching phases.
    Depth,
    /// The bounds of its polling loop can be read.
    Poll,
}

pub open spec fn gate_rank(g: StartGate) -> int {
    match g {
        StartGate::Lookup => 0,
        StartGate::Resume => 1,
        StartGate::Prune => 2,
        StartGate::Ops => 3,
        StartGate::Scope => 4,
        StartGate::Stanza => 5,
        StartGate::Concurrency => 6,
        StartGate::Refine => 7,
        StartGate::Timeout => 8,
        StartGate::Rate => 9,
        StartGate::Adapters => 10,
        StartGate::Depth => 11,
        StartGate::Poll => 12,
    }
}

/// What is asked after `g`, if it is not the last one.
pub open spec fn following(g: StartGate) -> Option<StartGate> {
    match g {
        StartGate::Lookup => Some(StartGate::Resume),
        StartGate::Resume => Some(StartGate::Prune),
        StartGate::Prune => Some(StartGate::Ops),
        StartGate::Ops => Some(StartGate::Scope),
        StartGate::Scope => Some(StartGate::Stanza),
        StartGate::Stanza => Some(StartGate::Concurrency),
        StartGate::Concurrency => Some(StartGate::Refine),
        StartGate::Refine => Some(StartGate::Timeout),
        StartGate::Timeout => Some(StartGate::Rate),
        StartGate::Rate => Some(StartGate::Adapters),
        StartGate::Adapters => Some(StartGate::Depth),
        StartGate::Depth => Some(StartGate::Poll),
        StartGate::Poll => None,
    }
}

/// The gates at which a phase is passed over without fault.
pub open spec fn may_skip(g: StartGate) -> bool {
    g == StartGate::Resume || g == StartGate::Prune || g == StartGate::Stanza || g
        == StartGate::Refine || g == StartGate::Depth
}

/// What a gate says.
pub enum Verdict {
    Pass,
    Skip,
    Fail(String),
}

/// The verdicts that a gate gives: beside letting a phase through, it either
/// only skips or only fails.
pub open spec fn fits(g: StartGate, v: Verdict) -> bool {
    match v {
        Verdict::Pass => true,
        Verdict::Skip => may_skip(g),
        Verdict::Fail(_) => !may_skip(g),
    }
}

/// Where a phase stands on its way.
#[derive(Debug, Clone, Copy, PartialEq, Eq, Structural)]
pub enum Standing {
    /// At this gate.
    At(StartGate),
    /// Through all of them.
    Through,
    /// Turned away.
    Ended,
}

/// The next thing to do for a phase.
pub enum StartStep {
    /// Ask this gate.
    Ask(StartGate),
    /// Start the activity.
    Run,
    /// The phase ends here.
    End(Outcome),
}

/// What a step means, without the outcome's payload.
pub ghost enum StepModel {
    Ask(StartGate),
    Run,
    Skip,
    Fail(Seq<char>),
}

pub open spec fn is_step(s: StartStep, m: StepModel) -> bool {
    match (s, m) {
        (StartStep::Ask(g), StepModel::Ask(h)) => g == h,
        (StartStep::Run, StepModel::Run) => true,
        (StartStep::End(o), StepModel::Skip) => o.bare(Disposition::Skipped, Validity::Succeeded),
        (StartStep::End(o), StepModel::Fail(why)) => o.disposition == Disposition::Interrupted
            && o.validity == Validity::Failed && phase_outcome::text_of(o.reason) == Some(why)
            && o.payload is None,
        _ => false,
    }
}

/// The standing and the step after a verdict of gate `at`.
pub open spec fn after(at: StartGate, v: Verdict) -> (Standing, StepModel) {
    match v {
        Verdict::Pass => match following(at) {
            Some(next) => (Standing::At(next), StepModel::Ask(next)),
            None => (Standing::Through, StepModel::Run),
        },
        Verdict::Skip => (Standing::Ended, StepModel::Skip),
        Verdict::Fail(why) => (Standing::Ended, StepModel::Fail(why@)),
    }
}

/// A phase on its way through the gates.
pub struct PhaseStart {
    standing: Standing,
}

impl View for PhaseStart {
    type V = Standing;

    closed spec fn view(&self) -> Standing {
        self.standing
    }
}

fn next_gate(g: StartGate) -> (r: Option<StartGate>)
    ensures
        r == following(g),
{
    match g {
        StartGate::Lookup => Some(StartGate::Resume),
        StartGate::Resume => Some(StartGate::Prune),
        StartGate::Prune => Some(StartGate::Ops),
        StartGate::Ops => Some(StartGate::Scope),
        StartGate::Scope => Some(StartGate::Stanza),
        StartGate::Stanza => Some(StartGate::Concurrency),
        StartGate::Concurrency => Some(StartGate::Refine),
        StartGate::Refine => Some(StartGate::Timeout),
        StartGate::Timeout => Some(StartGate::Rate),
        StartGate::Rate => Some(StartGate::Adapters),
        StartGate::Adapters => Some(StartGate::Depth),
        StartGate::Depth => Some(StartGate::Poll),
        StartGate::Poll => None,
    }
}

impl PhaseStart {
    /// A phase before its first gate.
    pub fn new() -> (r: Self)
        ensures
            r@ == Standing::At(StartGate::Lookup),
    {
        PhaseStart { standing: Standing::At(StartGate::Lookup) }
    }

    /// What is to be asked, while there is anything.
    pub fn gate(&self) -> (r: Option<StartGate>)
        ensures
            r == (match self@ {
                Standing::At(g) => Some(g),
                _ => None,
            }),
    {
        match self.standing {
            Standing::At(g) => Some(g),
            _ => None,
        }
    }

    /// Takes a verdict on what the phase stands at.
    pub fn advance(&mut self, verdict: Verdict) -> (r: StartStep)
        requires
            old(self)@ is At,
        ensures
            final(self)@ == after(old(self)@->At_0, verdict).0,
            is_step(r, after(old(self)@->At_0, verdict).1),
    {
        let next = match self.standing {
            Standing::At(g) => next_gate(g),
            _ => None,
        };
        match verdict {
            Verdict::Pass => match next {
                Some(g) => {
                    self.standing = Standing::At(g);
                    StartStep::Ask(g)
                },
                None => {
                    self.standing = Standing::Through;
                    StartStep::Run
                },
            },
            Verdict::Skip => {
                self.standing = Standing::Ended;
                StartStep::End(Outcome::skipped())
            },
            Verdict::Fail(why) => {
                self.standing = Standing::Ended;
                StartStep::End(Outcome::failed().with_reason(why.as_str()))
            },
        }
    }
}

/// Where a phase stands after the verdicts of the gates from the first on.
pub open spec fn stands(verdicts: Seq<Verdict>) -> Standing
    decreases verdicts.len(),
{
    if verdicts.len() == 0 {
        Standing::At(StartGate::Lookup)
    } else {
        match stands(verdicts.drop_last()) {
            Standing::At(at) => after(at, verdicts.last()).0,
            ended => ended,
        }
    }
}

/// The verdicts that were given to a phase that was still on its way each time.
pub open spec fn asked(verdicts: Seq<Verdict>) -> bool {
    forall|i: int|
        0 <= i < verdicts.len() ==> (stands(#[trigger] verdicts.take(i)) matches Standing::At(at)
            && fits(at, verdicts[i]))
}

/// The activity of a phase starts exactly when each of the thirteen gates let it
/// through.
pub proof fn law_start_needs_every_gate(verdicts: Seq<Verdict>)
    requires
        asked(verdicts),
    ensures
        stands(verdicts) == Standing::Through <==> verdicts.len() == 13 && forall|i: int|
            0 <= i < verdicts.len() ==> #[trigger] verdicts[i] is Pass,
{
    lemma_stands(verdicts, verdicts.len() as int);
    assert(verdicts.take(verdicts.len() as int) =~= verdicts);
}

/// A phase that was turned away passed every gate before the one that did so,
/// and no gate is asked after it.
pub proof fn law_first_refusal_decides(verdicts: Seq<Verdict>)
    requires
        asked(verdicts),
        stands(verdicts) == Standing::Ended,
    ensures
        verdicts.len() > 0,
        !(verdicts.last() is Pass),
        forall|i: int| 0 <= i < verdicts.len() - 1 ==> #[trigger] verdicts[i] is Pass,
        stands(verdicts.drop_last()) matches Standing::At(g) && gate_rank(g) == verdicts.len() - 1 && (
        may_skip(g) <==> verdicts.last() is Skip),
{
    let n = verdicts.len() as int;
    lemma_stands(verdicts, n);
    assert(verdicts.take(n) =~= verdicts);
    lemma_stands(verdicts, n - 1);
    assert(verdicts.take(n - 1) =~= verdicts.drop_last());
}

/// After `n` verdicts the phase stands where that many were passed, or has just
/// ended or got through.
proof fn lemma_stands(verdicts: Seq<Verdict>, n: int)
    requires
        asked(verdicts),
        0 <= n <= verdicts.len(),
    ensures
        n <= 13,
        ({
            let before = forall|i: int| 0 <= i < n ==> #[trigger] verdicts[i] is Pass;
            match stands(verdicts.take(n)) {
                Standing::At(g) => gate_rank(g) == n && before,
                Standing::Through => n == 13 && before,
                Standing::Ended => n > 0 && !(verdicts[n - 1] is Pass) && forall|i: int|
                    0 <= i < n - 1 ==> #[trigger] verdicts[i] is Pass,
            }
        }),
    decreases n,
{
    if n > 0 {
        lemma_stands(verdicts, n - 1);
        assert(verdicts.take(n).drop_last() =~= verdicts.take(n - 1));
        assert(verdicts.take(n).last() == verdicts[n - 1]);
        assert(stands(verdicts.take(n - 1)) is At);
    }
}

/// The gates in the order in which a phase passes them.
pub open spec fn gate_order() -> Seq<StartGate> {
    seq![
        StartGate::Lookup,
        StartGate::Resume,
        StartGate::Prune,
        StartGate::Ops,
        StartGate::Scope,
        StartGate::Stanza,
        StartGate::Concurrency,
        StartGate::Refine,
        StartGate::Timeout,
        StartGate::Rate,
        StartGate::Adapters,
        StartGate::Depth,
        StartGate::Poll,
    ]
}

/// A phase that got through `n` gates stands at the next one in order, and after the last
/// it is through.
pub proof fn law_gates_are_asked_in_order(verdicts: Seq<Verdict>)
    requires
        asked(verdicts),
        forall|i: int| 0 <= i < verdicts.len() ==> #[trigger] verdicts[i] is Pass,
    ensures
        stands(verdicts) == (if verdicts.len() < gate_order().len() {
            Standing::At(gate_order()[verdicts.len() as int])
        } else {
            Standing::Through
        }),
{
    let n = verdicts.len() as int;
    lemma_stands(verdicts, n);
    assert(verdicts.take(n) =~= verdicts);
    match stands(verdicts) {
        Standing::At(g) => {
            assert(gate_rank(g) == n);
            assert(gate_order()[gate_rank(g)] == g);
        },
        _ => {},
    }
}

/// Whatever gate it stands at, a phase that is passed over is skipped with a usable
/// result, and one that is refused fails with the reason of the refusal.
pub proof fn law_refusal_is_the_outcome(at: StartGate, why: String, s: StartStep)
    ensures
        is_step(s, after(at, Verdict::Skip).1) <==> (s matches StartStep::End(o) && o.disposition
            == Disposition::Skipped && o.validity == Validity::Succeeded && o.reason is None
            && o.payload is None),
        is_step(s, after(at, Verdict::Fail(why)).1) <==> (s matches StartStep::End(o)
            && o.disposition == Disposition::Interrupted && o.validity == Validity::Failed
            && phase_outcome::text_of(o.reason) == Some(why@) && o.payload is None),
        after(at, Verdict::Skip).0 == Standing::Ended,
        after(at, Verdict::Fail(why)).0 == Standing::Ended,
        is_step(s, after(at, Verdict::Pass).1) <==> (match after(at, Verdict::Pass).0 {
            Standing::At(next) => s == StartStep::Ask(next),
            _ => s is Run,
        }),
{
}

} // verus!
