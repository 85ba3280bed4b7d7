//! Ending a phase: how its activity came to an end, what is recorded of it, and
//! what the walk around it is told.

use vstd::prelude::*;

use crate::executor::shell;
use crate::executor::shell::{trip_cause, StopCause};
use crate::model;
use crate::model::ExecDepth;
use crate::phase_outcome;
use crate::phase_outcome::{
    Disposition, Outcome, PhaseErrorDetail, PhaseIdentity, PhaseOutcome, Seconds, Validity,
};
use crate::text::{cat2, cat4};

verus! {

/// What is known of an activity that has returned.
pub struct Returned {
    /// It was stopped before its natural end.
    pub stopped: bool,
    /// The result of settling an objective, where one was being settled and
    /// came to a result.
    pub settled: Option<Outcome>,
    /// A search that steered the phase ran to its end.
    pub servo_completed: bool,
    /// The outcome that the stop condition declared, where one stopped it.
    pub stop_outcome: Option<Outcome>,
    /// Why it was stopped, where that was noted.
    pub stop_reason: Option<String>,
    /// How far the run goes.
    pub depth: ExecDepth,
}

/// How a phase ended.
#[derive(Debug, Clone, Copy, PartialEq, Eq, Structural)]
pub enum EndKind {
    /// No cycle was to run.
    Dry,
    /// It ran to its end, or to the end of what it was for.
    Completed,
    /// A condition stopped it and keeps its partial result.
    Graceful,
    /// It was stopped by an error.
    Failed,
}

/// A stop that keeps the partial result: the condition that stopped the phase
/// declares a usable outcome.
pub open spec fn graceful(r: Returned) -> bool {
    r.stopped && r.stop_outcome is Some && !r.stop_outcome->0.failing()
}

/// The objective settled on a usable value.
pub open spec fn settle_succeeded(r: Returned) -> bool {
    r.settled is Some && !r.settled->0.failing()
}

pub open spec fn end_kind(r: Returned) -> EndKind {
    if model::depth_rank(r.depth) < model::depth_rank(ExecDepth::Cycle) {
        EndKind::Dry
    } else if graceful(r) {
        EndKind::Graceful
    } else if r.stopped && !settle_succeeded(r) && !r.servo_completed {
        EndKind::Failed
    } else {
        EndKind::Completed
    }
}

impl Returned {
    pub fn is_graceful(&self) -> (r: bool)
        ensures
            r == graceful(*self),
    {
        self.stopped && match &self.stop_outcome {
            Some(o) => !o.is_failure(),
            None => false,
        }
    }

    /// How the phase ended.
    pub fn kind(&self) -> (r: EndKind)
        ensures
            r == end_kind(*self),
    {
        let settle_ok = match &self.settled {
            Some(o) => !o.is_failure(),
            None => false,
        };
        if !self.depth.reaches(ExecDepth::Cycle) {
            EndKind::Dry
        } else if self.is_graceful() {
            EndKind::Graceful
        } else if self.stopped && !settle_ok && !self.servo_completed {
            EndKind::Failed
        } else {
            EndKind::Completed
        }
    }

    /// Whether the declared metrics of the phase are recorded: its result must
    /// be one that can be relied on.
    pub fn records_metrics(&self, declared: usize) -> (r: bool)
        ensures
            r == ((!self.stopped || graceful(*self)) && declared > 0),
    {
        (!self.stopped || self.is_graceful()) && declared > 0
    }
}

/// Where the value of a search objective comes from.
#[derive(Debug, Clone, Copy, PartialEq, Eq, Structural)]
pub enum ObjectiveSource {
    /// It was settled on while the phase ran.
    Register,
    /// It is read now.
    Read,
    /// There is none.
    Missing,
}

/// Where the value of a search objective comes from: from what was settled on
/// while the phase ran, else, of a phase that was not stopped, from its scope.
pub fn objective_source(
    settling: bool,
    stopped: bool,
    has_objective: bool,
    has_parent: bool,
    has_kernel: bool,
) -> (r: ObjectiveSource)
    ensures
        r == (if settling {
            ObjectiveSource::Register
        } else if !stopped && has_objective && has_parent && has_kernel {
            ObjectiveSource::Read
        } else {
            ObjectiveSource::Missing
        }),
{
    if settling {
        ObjectiveSource::Register
    } else if !stopped && has_objective && has_parent && has_kernel {
        ObjectiveSource::Read
    } else {
        ObjectiveSource::Missing
    }
}

/// Why a failed phase was stopped, in words.
pub open spec fn stop_words(reason: Option<String>) -> Seq<char> {
    match reason {
        Some(s) => s@,
        None => "stopped by error handler"@,
    }
}

pub fn stop_text(reason: &Option<String>) -> (r: String)
    ensures
        r@ == stop_words(*reason),
{
    match reason {
        Some(s) => s.clone(),
        None => "stopped by error handler".to_owned(),
    }
}

/// What is reported of a failed phase.
pub fn failure_detail(reason: &Option<String>) -> (r: String)
    ensures
        r@ == "stopped by error handler: "@ + stop_words(*reason),
{
    cat2("stopped by error handler: ", stop_text(reason).as_str())
}

/// An error that no op raised.
pub open spec fn is_phase_error(
    e: PhaseErrorDetail,
    class: Seq<char>,
    message: Seq<char>,
    at_nanos: u64,
) -> bool {
    &&& e.class@ == class
    &&& e.message@ == message
    &&& e.op_name is None
    &&& e.cycle is None
    &&& e.op_template is None
    &&& e.op_resolved is None
    &&& e.at_nanos == at_nanos
    &&& !e.retryable
}

fn phase_error(class: &str, message: &str, at_nanos: u64) -> (r: PhaseErrorDetail)
    ensures
        is_phase_error(r, class@, message@, at_nanos),
{
    PhaseErrorDetail {
        class: class.to_owned(),
        message: message.to_owned(),
        op_name: None,
        cycle: None,
        op_template: None,
        op_resolved: None,
        at_nanos,
        retryable: false,
    }
}

/// What a record says of where a phase comes from.
pub struct Provenance {
    /// Hex of the hash of what the phase is made of.
    pub phase_hash: String,
    /// The parameters that it consumed.
    pub params_consumed: Option<String>,
}

/// The record of a failed phase. It has at least one error: where none was
/// recorded, the reason stands in.
pub fn failure_record(
    name: &str,
    labels: &str,
    duration_secs: Seconds,
    errors: Vec<PhaseErrorDetail>,
    reason: &Option<String>,
    provenance: Provenance,
    now_nanos: u64,
) -> (r: PhaseOutcome)
    ensures
        r.phase_id.name@ == name@,
        r.phase_id.labels@ == labels@,
        r.disposition == Disposition::Interrupted,
        r.validity == Validity::Failed,
        r.duration_secs == duration_secs,
        if errors@.len() > 0 {
            r.errors == errors
        } else {
            r.errors@.len() == 1 && is_phase_error(
                r.errors@[0],
                "phase_failed"@,
                stop_words(*reason),
                now_nanos,
            )
        },
        r.resume_cursor is None,
        r.phase_hash == Some(provenance.phase_hash),
        r.params_consumed == provenance.params_consumed,
{
    let recorded = if errors.len() > 0 {
        errors
    } else {
        let mut v: Vec<PhaseErrorDetail> = Vec::new();
        v.push(phase_error("phase_failed", stop_text(reason).as_str(), now_nanos));
        v
    };
    PhaseOutcome::failed(PhaseIdentity::new(name, labels), duration_secs, recorded).with_phase_hash(
        provenance.phase_hash,
    ).with_params_consumed(provenance.params_consumed)
}

/// The record of a phase whose result stands. Errors that did not stop it ride
/// along.
pub fn success_record(
    name: &str,
    labels: &str,
    duration_secs: Seconds,
    errors: Vec<PhaseErrorDetail>,
    stopped_gracefully: bool,
    provenance: Provenance,
) -> (r: PhaseOutcome)
    ensures
        r.phase_id.name@ == name@,
        r.phase_id.labels@ == labels@,
        r.disposition == (if stopped_gracefully {
            Disposition::Interrupted
        } else {
            Disposition::Completed
        }),
        r.validity == Validity::Succeeded,
        r.duration_secs == duration_secs,
        r.errors == errors,
        r.resume_cursor is None,
        r.phase_hash == Some(provenance.phase_hash),
        r.params_consumed == provenance.params_consumed,
{
    PhaseOutcome {
        phase_id: PhaseIdentity::new(name, labels),
        disposition: if stopped_gracefully {
            Disposition::Interrupted
        } else {
            Disposition::Completed
        },
        validity: Validity::Succeeded,
        duration_secs,
        errors,
        resume_cursor: None,
        phase_hash: Some(provenance.phase_hash),
        params_consumed: provenance.params_consumed,
    }
}

/// Whether a failed phase still has to be recorded: one that failed before its
/// activity ran left no record.
pub fn needs_early_record(outcome: &Outcome, recorded: bool) -> (r: bool)
    ensures
        r == (outcome.failing() && !recorded),
{
    outcome.is_failure() && !recorded
}

/// Why a phase failed before its activity ran.
pub open spec fn early_words(reason: Option<String>) -> Seq<char> {
    match reason {
        Some(s) => s@,
        None => "phase configuration failed"@,
    }
}

/// The record of a phase that failed before its activity ran: its coordinates
/// are not known yet and it took no time.
pub fn record_early_phase_failure(name: &str, outcome: &Outcome, now_nanos: u64) -> (r: PhaseOutcome)
    ensures
        r.phase_id.name@ == name@,
        r.phase_id.labels@ == Seq::<char>::empty(),
        r.disposition == Disposition::Interrupted,
        r.validity == Validity::Failed,
        r.duration_secs == (Seconds { bits: 0 }),
        r.errors@.len() == 1,
        is_phase_error(r.errors@[0], "config"@, early_words(outcome.reason), now_nanos),
        r.resume_cursor is None,
        r.phase_hash is None,
        r.params_consumed is None,
{
    proof {
        reveal_strlit("");
        assert(""@ =~= Seq::<char>::empty());
    }
    let reason = match &outcome.reason {
        Some(s) => s.clone(),
        None => "phase configuration failed".to_owned(),
    };
    let mut errors: Vec<PhaseErrorDetail> = Vec::new();
    errors.push(phase_error("config", reason.as_str(), now_nanos));
    PhaseOutcome::failed(PhaseIdentity::new(name, ""), Seconds { bits: 0 }, errors)
}

/// A stop condition of the workload that tripped when a phase was counted: the
/// outcome it declares, its words, and the totals that crossed it.
pub struct Trip {
    pub outcome: Outcome,
    pub reason: String,
    pub actual: String,
}

/// What the walk is asked to do.
#[derive(Debug, Clone, Copy, PartialEq, Eq, Structural)]
pub enum WalkSignal {
    GoOn,
    /// Stop, for this cause.
    Stop(StopCause),
    /// Stop early and leave the rest on purpose.
    Graceful,
}

/// What the walk is asked after a failed phase was counted.
pub fn signal_after_failure(trip: &Option<Trip>) -> (r: WalkSignal)
    ensures
        r == (match *trip {
            Some(t) => WalkSignal::Stop(
                if t.outcome.failing() {
                    StopCause::Fault
                } else {
                    StopCause::Interrupt
                },
            ),
            None => WalkSignal::GoOn,
        }),
{
    match trip {
        Some(t) => WalkSignal::Stop(trip_cause(&t.outcome)),
        None => WalkSignal::GoOn,
    }
}

/// What the walk is asked after a phase whose result stands was counted.
pub fn signal_after_success(trip: &Option<Trip>) -> (r: WalkSignal)
    ensures
        r == (match *trip {
            Some(t) => if t.outcome.failing() {
                WalkSignal::GoOn
            } else {
                WalkSignal::Graceful
            },
            None => WalkSignal::GoOn,
        }),
{
    match trip {
        Some(t) => if t.outcome.is_failure() {
            WalkSignal::GoOn
        } else {
            WalkSignal::Graceful
        },
        None => WalkSignal::GoOn,
    }
}

/// The outcome of a phase for the walk around it.
pub open spec fn is_phase_result(
    o: Outcome,
    name: Seq<char>,
    kind: EndKind,
    reason: Option<String>,
    trip: Option<Trip>,
) -> bool {
    &&& o.payload is None
    &&& match kind {
        EndKind::Dry => o.bare(Disposition::Skipped, Validity::Succeeded),
        EndKind::Failed => {
            &&& o.disposition == Disposition::Interrupted
            &&& o.validity == Validity::Failed
            &&& phase_outcome::text_of(o.reason) == Some(
                "phase '"@ + name + "' "@ + ("stopped by error handler: "@ + stop_words(reason)),
            )
        },
        _ => if trip is Some && trip->0.outcome.failing() {
            &&& o.disposition == Disposition::Interrupted
            &&& o.validity == Validity::Failed
            &&& phase_outcome::text_of(o.reason) == Some(
                "workload stop condition tripped: "@ + trip->0.reason@ + " — actual: "@
                    + trip->0.actual@,
            )
        } else if kind == EndKind::Graceful {
            &&& o.disposition == Disposition::Interrupted
            &&& o.validity == Validity::Succeeded
            &&& phase_outcome::text_of(o.reason) == phase_outcome::text_of(reason)
        } else {
            o.bare(Disposition::Completed, Validity::Succeeded)
        },
    }
}

/// The outcome of a phase for the walk around it. A workload condition that
/// fails the run turns even a phase whose result stands into a failure.
pub fn phase_result(
    name: &str,
    kind: EndKind,
    reason: &Option<String>,
    trip: &Option<Trip>,
) -> (r: Outcome)
    ensures
        is_phase_result(r, name@, kind, *reason, *trip),
{
    match kind {
        EndKind::Dry => {
            return Outcome::skipped();
        },
        EndKind::Failed => {
            let said = cat4("phase '", name, "' ", failure_detail(reason).as_str());
            return Outcome::failed().with_reason(said.as_str());
        },
        _ => {},
    }
    if let Some(t) = trip {
        if t.outcome.is_failure() {
            let said = cat4(
                "workload stop condition tripped: ",
                t.reason.as_str(),
                " — actual: ",
                t.actual.as_str(),
            );
            return Outcome::failed().with_reason(said.as_str());
        }
    }
    match kind {
        EndKind::Graceful => match reason {
            Some(s) => Outcome::interrupted().with_reason(s.as_str()),
            None => Outcome::interrupted(),
        },
        _ => Outcome::completed(),
    }
}

/// A phase fails the walk exactly when it failed itself or when a failing
/// workload condition tripped on it; a dry phase never does.
pub proof fn law_phase_fails_iff(
    o: Outcome,
    name: Seq<char>,
    r: Returned,
    trip: Option<Trip>,
)
    requires
        is_phase_result(o, name, end_kind(r), r.stop_reason, trip),
    ensures
        o.failing() <==> end_kind(r) == EndKind::Failed || (end_kind(r) != EndKind::Dry && trip
            is Some && trip->0.outcome.failing()),
{
}

/// A phase that was never stopped does not fail by itself, and neither does one
/// that a condition stopped with a usable outcome.
pub proof fn law_failure_needs_stop(r: Returned)
    ensures
        end_kind(r) == EndKind::Failed ==> r.stopped && !graceful(r),
        !r.stopped ==> end_kind(r) == EndKind::Completed || end_kind(r) == EndKind::Dry,
{
}

/// The metrics of a phase are never recorded where its record says that it
/// failed.
pub proof fn law_failed_phase_records_no_metrics(r: Returned)
    ensures
        end_kind(r) == EndKind::Failed ==> !(!r.stopped || graceful(r)),
{
}

/// How a phase ended follows from whether cycles ran, whether it was stopped, and whether
/// what stopped it or what it was for came to a usable result.
pub proof fn law_end_follows_the_stop(r: Returned)
    ensures
        ({
            let ran = r.depth == ExecDepth::Cycle || r.depth == ExecDepth::Full;
            let kept = r.stop_outcome matches Some(o) && o.validity != Validity::Failed;
            let settled = r.settled matches Some(o) && o.validity != Validity::Failed;
            &&& end_kind(r) == EndKind::Dry <==> !ran
            &&& end_kind(r) == EndKind::Graceful <==> ran && r.stopped && kept
            &&& end_kind(r) == EndKind::Failed <==> ran && r.stopped && !kept && !settled
                && !r.servo_completed
        }),
{
}

/// A phase is recorded as what it was: skipped where no cycle ran, failed with the reason
/// of its stop or of the workload condition that tripped, interrupted with a usable result
/// and the reason where a condition stopped it, and completed otherwise.
pub proof fn law_phase_result_says_how_it_ended(
    o: Outcome,
    name: Seq<char>,
    kind: EndKind,
    reason: Option<String>,
    trip: Option<Trip>,
)
    requires
        is_phase_result(o, name, kind, reason, trip),
    ensures
        ({
            let tripped = trip matches Some(t) && t.outcome.validity == Validity::Failed;
            let why = phase_outcome::text_of(o.reason);
            &&& kind == EndKind::Dry ==> o.disposition == Disposition::Skipped && why is None
            &&& kind == EndKind::Failed ==> o.disposition == Disposition::Interrupted && why == Some(
                "phase '"@ + name + "' "@ + ("stopped by error handler: "@ + (match reason {
                    Some(s) => s@,
                    None => "stopped by error handler"@,
                })),
            )
            &&& (kind == EndKind::Completed || kind == EndKind::Graceful) && tripped ==> {
                &&& o.disposition == Disposition::Interrupted
                &&& why == Some(
                    "workload stop condition tripped: "@ + trip->0.reason@ + " — actual: "@
                        + trip->0.actual@,
                )
            }
            &&& kind == EndKind::Completed && !tripped ==> o.disposition == Disposition::Completed
                && why is None
            &&& kind == EndKind::Graceful && !tripped ==> o.disposition == Disposition::Interrupted
                && why == phase_outcome::text_of(reason)
            &&& o.validity == Validity::Failed <==> kind == EndKind::Failed || (kind != EndKind::Dry
                && tripped)
            &&& o.payload is None
        }),
{
}

/// An error that stands for the phase itself names no op and no cycle and is not retried.
pub proof fn law_phase_error_names_no_op(
    e: PhaseErrorDetail,
    class: Seq<char>,
    message: Seq<char>,
    at_nanos: u64,
)
    requires
        is_phase_error(e, class, message, at_nanos),
    ensures
        e.class@ == class,
        e.message@ == message,
        e.at_nanos == at_nanos,
        !e.retryable,
        e.op_name is None && e.cycle is None && e.op_template is None && e.op_resolved is None,
{
}

/// A failure that gives no reason is put into words by when it came.
pub proof fn law_unexplained_failure_has_words(reason: Option<String>)
    ensures
        reason is None ==> early_words(reason) == "phase configuration failed"@ && stop_words(reason)
            == "stopped by error handler"@,
        reason matches Some(s) ==> early_words(reason) == s@ && stop_words(reason) == s@,
{
}

} // verus!
