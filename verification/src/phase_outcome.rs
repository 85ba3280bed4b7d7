//! How execution units end: the two-axis outcome and the record of a phase.

use std::sync::Arc;

use vstd::prelude::*;

use crate::text::{starts_with, str_eq};

verus! {

/// How much of a unit's work ran. Independent of [`Validity`].
#[derive(Debug, Clone, Copy, PartialEq, Eq, Structural)]
pub enum Disposition {
    /// In flight.
    Running,
    /// Ran to its natural end.
    Completed,
    /// Stopped before its natural end.
    Interrupted,
    /// Never started.
    Skipped,
}

/// Whether the produced result is usable. Independent of [`Disposition`].
#[derive(Debug, Clone, Copy, PartialEq, Eq, Structural)]
pub enum Validity {
    /// The result can be relied on.
    Succeeded,
    /// The result cannot be relied on.
    Failed,
}

/// What a unit may carry upward beside its outcome. The runtime never looks
/// inside.
pub trait Payload: Send + Sync {

}

/// The two-axis result of an execution unit, with an optional reason and an
/// optional payload.
#[derive(Clone)]
pub struct Outcome {
    pub disposition: Disposition,
    pub validity: Validity,
    /// Why the outcome is what it is, in words.
    pub reason: Option<String>,
    pub payload: Option<Arc<dyn Payload>>,
}

/// The characters of an optional text.
pub open spec fn text_of(t: Option<String>) -> Option<Seq<char>> {
    match t {
        Some(s) => Some(s@),
        None => None,
    }
}

fn present<T>(t: T) -> (r: Option<T>)
    ensures
        r == Some(t),
{
    Some(t)
}

/// The mark that stands for an axis pair.
pub open spec fn glyph_of(d: Disposition, v: Validity) -> char {
    match (d, v) {
        (Disposition::Running, _) => '⋯',
        (Disposition::Skipped, _) => '~',
        (_, Validity::Failed) => '✗',
        (Disposition::Completed, _) => '✓',
        (Disposition::Interrupted, _) => '…',
    }
}

/// The stable lower-case name of an axis pair.
pub open spec fn label_of(d: Disposition, v: Validity) -> Seq<char> {
    match (d, v) {
        (Disposition::Running, _) => "running"@,
        (Disposition::Skipped, _) => "skipped"@,
        (Disposition::Completed, Validity::Succeeded) => "completed"@,
        (Disposition::Completed, Validity::Failed) => "completed_failed"@,
        (Disposition::Interrupted, Validity::Succeeded) => "interrupted"@,
        (Disposition::Interrupted, Validity::Failed) => "failed"@,
    }
}

impl Outcome {
    /// The outcome with the given axes and neither reason nor payload.
    pub open spec fn bare(self, d: Disposition, v: Validity) -> bool {
        self.disposition == d && self.validity == v && self.reason is None && self.payload is None
    }

    pub fn new(disposition: Disposition, validity: Validity) -> (r: Self)
        ensures
            r.bare(disposition, validity),
    {
        Outcome { disposition, validity, reason: None, payload: None }
    }

    /// Ran fully, result usable.
    pub fn completed() -> (r: Self)
        ensures
            r.bare(Disposition::Completed, Validity::Succeeded),
    {
        Self::new(Disposition::Completed, Validity::Succeeded)
    }

    /// Stopped early, result unusable.
    pub fn failed() -> (r: Self)
        ensures
            r.bare(Disposition::Interrupted, Validity::Failed),
    {
        Self::new(Disposition::Interrupted, Validity::Failed)
    }

    /// Ran fully, result unusable.
    pub fn completed_failed() -> (r: Self)
        ensures
            r.bare(Disposition::Completed, Validity::Failed),
    {
        Self::new(Disposition::Completed, Validity::Failed)
    }

    /// Stopped early, partial result usable.
    pub fn interrupted() -> (r: Self)
        ensures
            r.bare(Disposition::Interrupted, Validity::Succeeded),
    {
        Self::new(Disposition::Interrupted, Validity::Succeeded)
    }

    /// Never started.
    pub fn skipped() -> (r: Self)
        ensures
            r.bare(Disposition::Skipped, Validity::Succeeded),
    {
        Self::new(Disposition::Skipped, Validity::Succeeded)
    }

    /// The same outcome with `reason` attached.
    pub fn with_reason(self, reason: &str) -> (r: Self)
        ensures
            r.disposition == self.disposition,
            r.validity == self.validity,
            text_of(r.reason) == Some(reason@),
            r.payload == self.payload,
    {
        Outcome {
            disposition: self.disposition,
            validity: self.validity,
            reason: Some(reason.to_owned()),
            payload: self.payload,
        }
    }

    /// The same outcome with `payload` attached.
    pub fn with_payload(self, payload: Arc<dyn Payload>) -> (r: Self)
        ensures
            r.disposition == self.disposition,
            r.validity == self.validity,
            r.reason == self.reason,
            r.payload == Some(payload),
    {
        let carried = present(payload);
        Outcome {
            disposition: self.disposition,
            validity: self.validity,
            reason: self.reason,
            payload: carried,
        }
    }

    pub open spec fn failing(self) -> bool {
        self.validity == Validity::Failed
    }

    /// Whether the result is unusable, however much of the work ran.
    pub fn is_failure(&self) -> (r: bool)
        ensures
            r == self.failing(),
    {
        self.validity == Validity::Failed
    }

    pub fn glyph(&self) -> (r: char)
        ensures
            r == glyph_of(self.disposition, self.validity),
    {
        match (self.disposition, self.validity) {
            (Disposition::Running, _) => '⋯',
            (Disposition::Skipped, _) => '~',
            (_, Validity::Failed) => '✗',
            (Disposition::Completed, Validity::Succeeded) => '✓',
            (Disposition::Interrupted, Validity::Succeeded) => '…',
        }
    }

    pub fn label(&self) -> (r: &'static str)
        ensures
            r@ == label_of(self.disposition, self.validity),
    {
        match (self.disposition, self.validity) {
            (Disposition::Running, _) => "running",
            (Disposition::Skipped, _) => "skipped",
            (Disposition::Completed, Validity::Succeeded) => "completed",
            (Disposition::Completed, Validity::Failed) => "completed_failed",
            (Disposition::Interrupted, Validity::Succeeded) => "interrupted",
            (Disposition::Interrupted, Validity::Failed) => "failed",
        }
    }
}

fn same_text(a: &Option<String>, b: &Option<String>) -> (r: bool)
    ensures
        r == (text_of(*a) == text_of(*b)),
{
    match (a, b) {
        (Some(x), Some(y)) => str_eq(x.as_str(), y.as_str()),
        (None, None) => true,
        _ => false,
    }
}

/// Outcomes are equal when their axes and reasons are. The payload is data and
/// plays no part.
impl PartialEq for Outcome {
    fn eq(&self, other: &Self) -> (r: bool) {
        self.disposition == other.disposition && self.validity == other.validity && same_text(
            &self.reason,
            &other.reason,
        )
    }
}

impl vstd::std_specs::cmp::PartialEqSpecImpl for Outcome {
    open spec fn obeys_eq_spec() -> bool {
        true
    }

    open spec fn eq_spec(&self, other: &Self) -> bool {
        self.disposition == other.disposition && self.validity == other.validity && text_of(
            self.reason,
        ) == text_of(other.reason)
    }
}

/// The labels of the outcomes that ended are told apart by both axes: a
/// completed or interrupted unit can be read back from its label.
pub proof fn law_label_determines_axes(
    d1: Disposition,
    v1: Validity,
    d2: Disposition,
    v2: Validity,
)
    requires
        label_of(d1, v1) == label_of(d2, v2),
    ensures
        d1 == d2,
        d1 == Disposition::Completed || d1 == Disposition::Interrupted ==> v1 == v2,
{
    reveal_strlit("running");
    reveal_strlit("skipped");
    reveal_strlit("completed");
    reveal_strlit("completed_failed");
    reveal_strlit("interrupted");
    reveal_strlit("failed");
    assert("running"@.len() == 7 && "skipped"@.len() == 7 && "completed"@.len() == 9
        && "completed_failed"@.len() == 16 && "interrupted"@.len() == 11 && "failed"@.len() == 6);
    assert("running"@[0] == 'r' && "skipped"@[0] == 's');
}

/// Whether a whole session passed.
#[derive(Debug, Clone, Copy, PartialEq, Eq, Structural)]
pub enum SessionDisposition {
    /// No phase ended with an unusable result.
    Success,
    /// Some phase ended with an unusable result.
    Failure,
}

impl SessionDisposition {
    /// The process exit code.
    pub fn exit_code(&self) -> (r: i32)
        ensures
            r == (if *self == SessionDisposition::Success {
                0i32
            } else {
                1i32
            }),
    {
        match self {
            SessionDisposition::Success => 0,
            SessionDisposition::Failure => 1,
        }
    }

    pub fn label(&self) -> (r: &'static str)
        ensures
            r@ == (if *self == SessionDisposition::Success {
                "SUCCESS"@
            } else {
                "FAILURE"@
            }),
    {
        match self {
            SessionDisposition::Success => "SUCCESS",
            SessionDisposition::Failure => "FAILURE",
        }
    }
}

/// Names one execution of a phase: its name and its scope coordinates.
#[derive(Debug, Clone, PartialEq, Eq, Hash)]
pub struct PhaseIdentity {
    pub name: String,
    /// The coordinate path, outermost stratum last; empty outside iterations.
    pub labels: String,
}

impl PhaseIdentity {
    pub fn new(name: &str, labels: &str) -> (r: Self)
        ensures
            r.name@ == name@,
            r.labels@ == labels@,
    {
        PhaseIdentity { name: name.to_owned(), labels: labels.to_owned() }
    }
}

/// One error recorded against a phase. The op fields are `None` when no op
/// raised it.
#[derive(Debug, Clone, PartialEq)]
pub struct PhaseErrorDetail {
    pub class: String,
    pub message: String,
    pub op_name: Option<String>,
    pub cycle: Option<u64>,
    /// The op's text as written.
    pub op_template: Option<String>,
    /// The op's text as sent.
    pub op_resolved: Option<String>,
    /// When it was recorded, in nanoseconds since the epoch.
    pub at_nanos: u64,
    pub retryable: bool,
}

/// State from which a suspended phase can go on.
#[derive(Debug, Clone, PartialEq)]
pub struct ResumeCursor {
    pub opaque: Vec<u8>,
}

impl Default for ResumeCursor {
    fn default() -> (r: Self)
        ensures
            r.opaque@ == Seq::<u8>::empty(),
    {
        ResumeCursor { opaque: Vec::new() }
    }
}

/// The closed vocabulary of reasons for which a phase fails.
#[derive(Debug, Clone, Copy, PartialEq, Eq, Structural)]
pub enum ReasonClass {
    /// A time limit expired.
    Timeout,
    /// A declared stop condition with a failing effect tripped.
    StopCondition,
    /// Errors of ops or of dispatch.
    Error,
    /// A caught panic.
    Panic,
    /// An operator cut the phase short.
    Operator,
}

/// The reason class of an error-class string.
pub open spec fn class_of(class: Seq<char>) -> ReasonClass {
    if class == "timeout"@ || class == "poll_timeout"@ {
        ReasonClass::Timeout
    } else if class == "panic"@ {
        ReasonClass::Panic
    } else if class == "operator"@ {
        ReasonClass::Operator
    } else if class == "error_rate_exceeded"@ || "stop_condition"@.is_prefix_of(class) {
        ReasonClass::StopCondition
    } else {
        ReasonClass::Error
    }
}

pub open spec fn class_text(c: ReasonClass) -> Seq<char> {
    match c {
        ReasonClass::Timeout => "timeout"@,
        ReasonClass::StopCondition => "stop_condition"@,
        ReasonClass::Error => "error"@,
        ReasonClass::Panic => "panic"@,
        ReasonClass::Operator => "operator"@,
    }
}

impl ReasonClass {
    /// The stable token of the class.
    pub fn as_str(&self) -> (r: &'static str)
        ensures
            r@ == class_text(*self),
    {
        match self {
            ReasonClass::Timeout => "timeout",
            ReasonClass::StopCondition => "stop_condition",
            ReasonClass::Error => "error",
            ReasonClass::Panic => "panic",
            ReasonClass::Operator => "operator",
        }
    }

    /// Classifies an error-class string.
    pub fn from_error_class(class: &str) -> (r: Self)
        ensures
            r == class_of(class@),
    {
        if str_eq(class, "timeout") || str_eq(class, "poll_timeout") {
            ReasonClass::Timeout
        } else if str_eq(class, "panic") {
            ReasonClass::Panic
        } else if str_eq(class, "operator") {
            ReasonClass::Operator
        } else if str_eq(class, "error_rate_exceeded") || starts_with(class, "stop_condition") {
            ReasonClass::StopCondition
        } else {
            ReasonClass::Error
        }
    }
}

/// The token of a reason class is itself an error class of that reason.
pub proof fn law_reason_class_round_trip(c: ReasonClass)
    ensures
        class_of(class_text(c)) == c,
{
    reveal_strlit("timeout");
    reveal_strlit("poll_timeout");
    reveal_strlit("stop_condition");
    reveal_strlit("error");
    reveal_strlit("error_rate_exceeded");
    reveal_strlit("panic");
    reveal_strlit("operator");
    assert("timeout"@.len() == 7 && "poll_timeout"@.len() == 12 && "stop_condition"@.len() == 14
        && "error"@.len() == 5 && "error_rate_exceeded"@.len() == 19 && "panic"@.len() == 5
        && "operator"@.len() == 8);
    assert("error"@[0] == 'e' && "panic"@[0] == 'p');
    assert("stop_condition"@.subrange(0, "stop_condition"@.len() as int) =~= "stop_condition"@);
}

/// A length of time in seconds, as the bits of an IEEE 754 double. The runtime
/// carries it and never computes with it; all bits zero is zero seconds.
#[derive(Debug, Clone, Copy, PartialEq, Eq, Structural)]
pub struct Seconds {
    pub bits: u64,
}

/// The full record of how one phase ended.
#[derive(Debug, Clone, PartialEq)]
pub struct PhaseOutcome {
    pub phase_id: PhaseIdentity,
    pub disposition: Disposition,
    pub validity: Validity,
    pub duration_secs: Seconds,
    /// In order of time.
    pub errors: Vec<PhaseErrorDetail>,
    pub resume_cursor: Option<ResumeCursor>,
    /// Hex of the provenance hash.
    pub phase_hash: Option<String>,
    /// The consumed parameters as canonical JSON.
    pub params_consumed: Option<String>,
}

/// The single status that older records carry in place of the two axes.
#[derive(Debug, Clone, Copy, PartialEq, Eq, Structural)]
pub enum LegacyPhaseStatus {
    Completed,
    Failed,
    Skipped,
    CursorSuspended,
}

/// A stored phase record: with both axes, or with a legacy status, or with
/// neither.
#[derive(Debug, Clone)]
pub struct PhaseOutcomeWire {
    pub phase_id: PhaseIdentity,
    pub disposition: Option<Disposition>,
    pub validity: Option<Validity>,
    pub status: Option<LegacyPhaseStatus>,
    pub duration_secs: Seconds,
    pub errors: Vec<PhaseErrorDetail>,
    pub resume_cursor: Option<ResumeCursor>,
    pub phase_hash: Option<String>,
    pub params_consumed: Option<String>,
}

/// The axes that a stored record means. Both axes win together; else the
/// legacy status speaks; a record with neither counts as completed.
pub open spec fn stored_axes(
    d: Option<Disposition>,
    v: Option<Validity>,
    status: Option<LegacyPhaseStatus>,
) -> (Disposition, Validity) {
    if d is Some && v is Some {
        (d->0, v->0)
    } else {
        match status {
            Some(LegacyPhaseStatus::Completed) => (Disposition::Completed, Validity::Succeeded),
            Some(LegacyPhaseStatus::Failed) => (Disposition::Interrupted, Validity::Failed),
            Some(LegacyPhaseStatus::Skipped) => (Disposition::Skipped, Validity::Succeeded),
            Some(LegacyPhaseStatus::CursorSuspended) => (
                Disposition::Interrupted,
                Validity::Succeeded,
            ),
            None => (Disposition::Completed, Validity::Succeeded),
        }
    }
}

impl From<PhaseOutcomeWire> for PhaseOutcome {
    fn from(w: PhaseOutcomeWire) -> (r: Self) {
        let (disposition, validity) = match (w.disposition, w.validity, w.status) {
            (Some(d), Some(v), _) => (d, v),
            (_, _, Some(LegacyPhaseStatus::Completed)) => (
                Disposition::Completed,
                Validity::Succeeded,
            ),
            (_, _, Some(LegacyPhaseStatus::Failed)) => (Disposition::Interrupted, Validity::Failed),
            (_, _, Some(LegacyPhaseStatus::Skipped)) => (Disposition::Skipped, Validity::Succeeded),
            (_, _, Some(LegacyPhaseStatus::CursorSuspended)) => (
                Disposition::Interrupted,
                Validity::Succeeded,
            ),
            _ => (Disposition::Completed, Validity::Succeeded),
        };
        PhaseOutcome {
            phase_id: w.phase_id,
            disposition,
            validity,
            duration_secs: w.duration_secs,
            errors: w.errors,
            resume_cursor: w.resume_cursor,
            phase_hash: w.phase_hash,
            params_consumed: w.params_consumed,
        }
    }
}

impl vstd::std_specs::convert::FromSpecImpl<PhaseOutcomeWire> for PhaseOutcome {
    open spec fn obeys_from_spec() -> bool {
        true
    }

    open spec fn from_spec(w: PhaseOutcomeWire) -> PhaseOutcome {
        let axes = stored_axes(w.disposition, w.validity, w.status);
        PhaseOutcome {
            phase_id: w.phase_id,
            disposition: axes.0,
            validity: axes.1,
            duration_secs: w.duration_secs,
            errors: w.errors,
            resume_cursor: w.resume_cursor,
            phase_hash: w.phase_hash,
            params_consumed: w.params_consumed,
        }
    }
}

/// One error of a phase as a storage row.
#[derive(Debug, Clone, PartialEq)]
pub struct PhaseErrorRow {
    pub class: String,
    pub message: String,
    pub op_name: Option<String>,
    pub cycle: Option<u64>,
    pub op_template: Option<String>,
    pub op_resolved: Option<String>,
    pub at_nanos: i64,
    pub retryable: bool,
}

/// A phase record as a storage row.
#[derive(Debug, Clone, PartialEq)]
pub struct PhaseOutcomeRow {
    pub session: String,
    pub exec_id: u64,
    pub phase_name: String,
    pub phase_labels: String,
    pub status: String,
    pub duration_secs: Seconds,
    pub started_at_nanos: i64,
    pub ended_at_nanos: i64,
    pub reason_class: Option<String>,
    pub phase_hash: Option<String>,
    pub params_consumed: Option<String>,
    pub errors: Vec<PhaseErrorRow>,
}

/// Whether `row` holds exactly what `e` holds, the time as a signed number.
pub open spec fn is_row_of(row: PhaseErrorRow, e: PhaseErrorDetail) -> bool {
    &&& row.class@ == e.class@
    &&& row.message@ == e.message@
    &&& text_of(row.op_name) == text_of(e.op_name)
    &&& row.cycle == e.cycle
    &&& text_of(row.op_template) == text_of(e.op_template)
    &&& text_of(row.op_resolved) == text_of(e.op_resolved)
    &&& row.at_nanos == e.at_nanos as i64
    &&& row.retryable == e.retryable
}

fn copy_text(t: &Option<String>) -> (r: Option<String>)
    ensures
        text_of(r) == text_of(*t),
{
    match t {
        Some(s) => Some(s.clone()),
        None => None,
    }
}

impl PhaseOutcome {
    /// The record with the given axes and errors and nothing else.
    pub open spec fn is_plain(
        self,
        phase_id: PhaseIdentity,
        d: Disposition,
        v: Validity,
        duration_secs: Seconds,
    ) -> bool {
        &&& self.phase_id == phase_id
        &&& self.disposition == d
        &&& self.validity == v
        &&& self.duration_secs == duration_secs
        &&& self.phase_hash is None
        &&& self.params_consumed is None
    }

    /// The reason class of a record: none for a usable result, else the class
    /// of the first error, `error` standing in where none was recorded.
    pub open spec fn reason(self) -> Option<ReasonClass> {
        if self.validity == Validity::Succeeded {
            None
        } else if self.errors@.len() > 0 {
            Some(class_of(self.errors@[0].class@))
        } else {
            Some(class_of("error"@))
        }
    }

    pub fn reason_class(&self) -> (r: Option<ReasonClass>)
        ensures
            r == self.reason(),
    {
        match self.validity {
            Validity::Succeeded => None,
            Validity::Failed => {
                if self.errors.len() > 0 {
                    Some(ReasonClass::from_error_class(self.errors[0].class.as_str()))
                } else {
                    Some(ReasonClass::from_error_class("error"))
                }
            },
        }
    }

    pub open spec fn protocol(self) -> Seq<char> {
        if self.disposition == Disposition::Skipped {
            "SKIPPED"@
        } else if self.reason() is None {
            "COMPLETED"@
        } else if self.reason() == Some(ReasonClass::Timeout) {
            "OUT-OF-RANGE"@
        } else {
            "FAILED"@
        }
    }

    /// The disposition under the testing protocol.
    pub fn protocol_class(&self) -> (r: &'static str)
        ensures
            r@ == self.protocol(),
    {
        if self.disposition == Disposition::Skipped {
            return "SKIPPED";
        }
        match self.reason_class() {
            None => "COMPLETED",
            Some(ReasonClass::Timeout) => "OUT-OF-RANGE",
            Some(_) => "FAILED",
        }
    }

    pub fn completed(phase_id: PhaseIdentity, duration_secs: Seconds) -> (r: Self)
        ensures
            r.is_plain(phase_id, Disposition::Completed, Validity::Succeeded, duration_secs),
            r.errors@.len() == 0,
            r.resume_cursor is None,
    {
        PhaseOutcome {
            phase_id,
            disposition: Disposition::Completed,
            validity: Validity::Succeeded,
            duration_secs,
            errors: Vec::new(),
            resume_cursor: None,
            phase_hash: None,
            params_consumed: None,
        }
    }

    /// A failed phase has at least one error.
    pub fn failed(
        phase_id: PhaseIdentity,
        duration_secs: Seconds,
        errors: Vec<PhaseErrorDetail>,
    ) -> (r: Self)
        requires
            errors@.len() > 0,
        ensures
            r.is_plain(phase_id, Disposition::Interrupted, Validity::Failed, duration_secs),
            r.errors == errors,
            r.resume_cursor is None,
    {
        PhaseOutcome {
            phase_id,
            disposition: Disposition::Interrupted,
            validity: Validity::Failed,
            duration_secs,
            errors,
            resume_cursor: None,
            phase_hash: None,
            params_consumed: None,
        }
    }

    pub fn skipped(phase_id: PhaseIdentity) -> (r: Self)
        ensures
            r.is_plain(phase_id, Disposition::Skipped, Validity::Succeeded, Seconds { bits: 0 }),
            r.errors@.len() == 0,
            r.resume_cursor is None,
    {
        PhaseOutcome {
            phase_id,
            disposition: Disposition::Skipped,
            validity: Validity::Succeeded,
            duration_secs: Seconds { bits: 0 },
            errors: Vec::new(),
            resume_cursor: None,
            phase_hash: None,
            params_consumed: None,
        }
    }

    pub fn interrupted(
        phase_id: PhaseIdentity,
        duration_secs: Seconds,
        resume_cursor: Option<ResumeCursor>,
    ) -> (r: Self)
        ensures
            r.is_plain(phase_id, Disposition::Interrupted, Validity::Succeeded, duration_secs),
            r.errors@.len() == 0,
            r.resume_cursor == resume_cursor,
    {
        PhaseOutcome {
            phase_id,
            disposition: Disposition::Interrupted,
            validity: Validity::Succeeded,
            duration_secs,
            errors: Vec::new(),
            resume_cursor,
            phase_hash: None,
            params_consumed: None,
        }
    }

    pub fn with_phase_hash(self, hex_hash: String) -> (r: Self)
        ensures
            r == (PhaseOutcome { phase_hash: Some(hex_hash), ..self }),
    {
        PhaseOutcome { phase_hash: Some(hex_hash), ..self }
    }

    pub fn with_params_consumed(self, json: Option<String>) -> (r: Self)
        ensures
            r == (PhaseOutcome { params_consumed: json, ..self }),
    {
        PhaseOutcome { params_consumed: json, ..self }
    }

    /// The message of the first error.
    pub fn first_error_message(&self) -> (r: Option<&str>)
        ensures
            r is Some <==> self.errors@.len() > 0,
            r matches Some(m) ==> m@ == self.errors@[0].message@,
    {
        if self.errors.len() > 0 {
            Some(self.errors[0].message.as_str())
        } else {
            None
        }
    }

    /// The two axes as an outcome.
    pub fn outcome(&self) -> (r: Outcome)
        ensures
            r.bare(self.disposition, self.validity),
    {
        Outcome::new(self.disposition, self.validity)
    }

    pub fn is_failure(&self) -> (r: bool)
        ensures
            r == (self.validity == Validity::Failed),
    {
        self.outcome().is_failure()
    }

    pub fn glyph(&self) -> (r: char)
        ensures
            r == glyph_of(self.disposition, self.validity),
    {
        self.outcome().glyph()
    }

    pub fn label(&self) -> (r: &'static str)
        ensures
            r@ == label_of(self.disposition, self.validity),
    {
        self.outcome().label()
    }

    /// The record as a storage row. `ended_at_nanos` is the wall clock when
    /// the record was sealed; without one the start time stands in.
    pub fn to_sqlite_row(
        &self,
        session: &str,
        exec_id: u64,
        started_at_nanos: i64,
        ended_at_nanos: Option<i64>,
    ) -> (r: PhaseOutcomeRow)
        ensures
            r.session@ == session@,
            r.exec_id == exec_id,
            r.phase_name@ == self.phase_id.name@,
            r.phase_labels@ == self.phase_id.labels@,
            r.status@ == label_of(self.disposition, self.validity),
            r.duration_secs == self.duration_secs,
            r.started_at_nanos == started_at_nanos,
            r.ended_at_nanos == (match ended_at_nanos {
                Some(n) => n,
                None => started_at_nanos,
            }),
            text_of(r.reason_class) == (match self.reason() {
                Some(c) => Some(class_text(c)),
                None => None,
            }),
            text_of(r.phase_hash) == text_of(self.phase_hash),
            text_of(r.params_consumed) == text_of(self.params_consumed),
            r.errors@.len() == self.errors@.len(),
            forall|i: int|
                0 <= i < r.errors@.len() ==> is_row_of(#[trigger] r.errors@[i], self.errors@[i]),
    {
        let mut errors: Vec<PhaseErrorRow> = Vec::new();
        let mut i: usize = 0;
        while i < self.errors.len()
            invariant
                i <= self.errors@.len(),
                errors@.len() == i,
                forall|k: int| 0 <= k < i ==> is_row_of(#[trigger] errors@[k], self.errors@[k]),
            decreases self.errors@.len() - i,
        {
            let e = &self.errors[i];
            errors.push(
                PhaseErrorRow {
                    class: e.class.clone(),
                    message: e.message.clone(),
                    op_name: copy_text(&e.op_name),
                    cycle: e.cycle,
                    op_template: copy_text(&e.op_template),
                    op_resolved: copy_text(&e.op_resolved),
                    at_nanos: e.at_nanos as i64,
                    retryable: e.retryable,
                },
            );
            i += 1;
        }
        PhaseOutcomeRow {
            session: session.to_owned(),
            exec_id,
            phase_name: self.phase_id.name.clone(),
            phase_labels: self.phase_id.labels.clone(),
            status: self.label().to_owned(),
            duration_secs: self.duration_secs,
            started_at_nanos,
            ended_at_nanos: ended_at_nanos.unwrap_or(started_at_nanos),
            reason_class: match self.reason_class() {
                Some(c) => Some(c.as_str().to_owned()),
                None => None,
            },
            phase_hash: copy_text(&self.phase_hash),
            params_consumed: copy_text(&self.params_consumed),
            errors,
        }
    }
}

/// A record has a reason class exactly when its result is unusable, and the
/// protocol calls a phase completed exactly when it ran and its result stands.
pub proof fn law_reason_iff_failed(o: PhaseOutcome)
    ensures
        o.reason() is Some <==> o.validity == Validity::Failed,
        o.protocol() == "COMPLETED"@ <==> (o.disposition != Disposition::Skipped && o.validity
            == Validity::Succeeded),
{
    reveal_strlit("SKIPPED");
    reveal_strlit("COMPLETED");
    reveal_strlit("OUT-OF-RANGE");
    reveal_strlit("FAILED");
    assert("SKIPPED"@[0] == 'S' && "COMPLETED"@[0] == 'C' && "OUT-OF-RANGE"@[0] == 'O'
        && "FAILED"@[0] == 'F');
}

/// Every record that carries both axes reads back with those axes.
pub proof fn law_stored_axes_read_back(
    d: Disposition,
    v: Validity,
    status: Option<LegacyPhaseStatus>,
)
    ensures
        stored_axes(Some(d), Some(v), status) == (d, v),
{
}

/// An error tells why a phase failed by its class: a time limit, of the phase or of its
/// polling, a panic, an operator, a stop condition, of which the error rate is one, or
/// else an error.
pub proof fn law_class_tells_the_reason(class: Seq<char>)
    ensures
        class_of(class) == ReasonClass::Timeout <==> class == "timeout"@ || class
            == "poll_timeout"@,
        class_of(class) == ReasonClass::Panic <==> class == "panic"@,
        class_of(class) == ReasonClass::Operator <==> class == "operator"@,
        class_of(class) == ReasonClass::StopCondition <==> class == "error_rate_exceeded"@
            || "stop_condition"@.is_prefix_of(class),
{
    reveal_strlit("timeout");
    reveal_strlit("poll_timeout");
    reveal_strlit("panic");
    reveal_strlit("operator");
    reveal_strlit("error_rate_exceeded");
    reveal_strlit("stop_condition");
    assert("timeout"@[0] == 't' && "poll_timeout"@[0] == 'p' && "panic"@[0] == 'p');
    assert("panic"@[1] == 'a' && "poll_timeout"@[1] == 'o');
    assert("operator"@[0] == 'o' && "error_rate_exceeded"@[0] == 'e' && "stop_condition"@[0] == 's');
    if "stop_condition"@.is_prefix_of(class) {
        assert(class[0] == "stop_condition"@[0]);
    }
}

/// The first error of a failed phase tells its reason; without one it is an error.
pub proof fn law_first_error_is_the_reason(o: PhaseOutcome)
    requires
        o.validity == Validity::Failed,
    ensures
        o.errors@.len() > 0 ==> o.reason() == Some(class_of(o.errors@[0].class@)),
        o.errors@.len() == 0 ==> o.reason() == Some(ReasonClass::Error),
{
    law_class_tells_the_reason("error"@);
    reveal_strlit("error");
    reveal_strlit("timeout");
    reveal_strlit("poll_timeout");
    reveal_strlit("panic");
    reveal_strlit("operator");
    reveal_strlit("error_rate_exceeded");
    reveal_strlit("stop_condition");
    assert("error"@[0] == 'e' && "panic"@[0] == 'p');
    assert("error"@.len() == 5 && "stop_condition"@.len() == 14);
}

/// In the protocol a skipped phase is skipped whatever else is known of it, one that
/// failed by a time limit is out of range, and one that failed otherwise is failed.
pub proof fn law_protocol_word(o: PhaseOutcome)
    ensures
        o.disposition == Disposition::Skipped ==> o.protocol() == "SKIPPED"@,
        o.disposition != Disposition::Skipped && o.validity == Validity::Failed && o.reason()
            == Some(ReasonClass::Timeout) ==> o.protocol() == "OUT-OF-RANGE"@,
        o.disposition != Disposition::Skipped && o.validity == Validity::Failed && o.reason()
            != Some(ReasonClass::Timeout) ==> o.protocol() == "FAILED"@,
{
}

/// A record from before the two axes were kept is read by its status: completed and skipped
/// as such, failed as cut short with an unusable result, and suspended as cut short with a
/// usable one. One axis alone does not count.
pub proof fn law_old_status_is_read(
    d: Option<Disposition>,
    v: Option<Validity>,
    status: Option<LegacyPhaseStatus>,
)
    requires
        d is None || v is None,
    ensures
        ({
            let axes = stored_axes(d, v, status);
            &&& axes.1 == Validity::Failed <==> status == Some(LegacyPhaseStatus::Failed)
            &&& axes.0 == Disposition::Skipped <==> status == Some(LegacyPhaseStatus::Skipped)
            &&& axes.0 == Disposition::Interrupted <==> status == Some(LegacyPhaseStatus::Failed)
                || status == Some(LegacyPhaseStatus::CursorSuspended)
            &&& axes.0 == Disposition::Completed <==> status == Some(LegacyPhaseStatus::Completed)
                || status is None
        }),
{
}

/// The mark of an outcome tells running, skipped, failed, completed and cut short apart; a
/// failure shows whether it ran to its end or not.
pub proof fn law_glyph_tells(d: Disposition, v: Validity)
    ensures
        glyph_of(d, v) == '⋯' <==> d == Disposition::Running,
        glyph_of(d, v) == '~' <==> d == Disposition::Skipped,
        glyph_of(d, v) == '✗' <==> v == Validity::Failed && (d == Disposition::Completed || d
            == Disposition::Interrupted),
        glyph_of(d, v) == '✓' <==> d == Disposition::Completed && v == Validity::Succeeded,
        glyph_of(d, v) == '…' <==> d == Disposition::Interrupted && v == Validity::Succeeded,
{
}

/// A row of an error holds all that the error does.
pub proof fn law_error_row_holds_the_error(row: PhaseErrorRow, e: PhaseErrorDetail)
    requires
        is_row_of(row, e),
    ensures
        row.class@ == e.class@,
        row.message@ == e.message@,
        row.op_name is Some <==> e.op_name is Some,
        row.op_name matches Some(s) ==> (e.op_name matches Some(t) && s@ == t@),
        row.cycle == e.cycle,
        row.op_template matches Some(s) ==> (e.op_template matches Some(t) && s@ == t@),
        row.op_resolved matches Some(s) ==> (e.op_resolved matches Some(t) && s@ == t@),
        e.at_nanos <= i64::MAX ==> row.at_nanos == e.at_nanos,
        row.retryable == e.retryable,
{
}

/// Two outcomes are the same where they agree on both axes and on the reason; what they
/// carry does not count.
pub proof fn law_same_outcome(a: Outcome, b: Outcome)
    ensures
        vstd::std_specs::cmp::PartialEqSpec::eq_spec(&a, &b) <==> a.disposition == b.disposition && a.validity == b.validity && (match (
            a.reason,
            b.reason,
        ) {
            (Some(x), Some(y)) => x@ == y@,
            (None, None) => true,
            _ => false,
        }),
{
}

/// A stored record keeps all that it holds beside the two axes.
pub proof fn law_stored_record_is_kept(w: PhaseOutcomeWire)
    ensures
        ({
            let r: PhaseOutcome = vstd::std_specs::convert::FromSpec::from_spec(w);
            &&& r.phase_id == w.phase_id
            &&& r.duration_secs == w.duration_secs
            &&& r.errors == w.errors
            &&& r.resume_cursor == w.resume_cursor
            &&& r.phase_hash == w.phase_hash
            &&& r.params_consumed == w.params_consumed
            &&& w.disposition is Some && w.validity is Some ==> r.disposition == w.disposition->0
                && r.validity == w.validity->0
        }),
{
}

/// The word of an outcome is that of its axes.
pub proof fn law_label_is_of_the_axes(v: Validity)
    ensures
        label_of(Disposition::Running, v) == "running"@,
        label_of(Disposition::Skipped, v) == "skipped"@,
        label_of(Disposition::Completed, v) == (if v == Validity::Failed {
            "completed_failed"@
        } else {
            "completed"@
        }),
        label_of(Disposition::Interrupted, v) == (if v == Validity::Failed {
            "failed"@
        } else {
            "interrupted"@
        }),
{
}

/// A bare outcome has its axes and nothing else, and a plain record its phase, its axes and
/// its time.
pub proof fn law_bare_and_plain(
    o: Outcome,
    r: PhaseOutcome,
    id: PhaseIdentity,
    d: Disposition,
    v: Validity,
    secs: Seconds,
)
    ensures
        o.bare(d, v) ==> o.disposition == d && o.validity == v && o.reason is None && o.payload
            is None,
        r.is_plain(id, d, v, secs) ==> r.phase_id == id && r.disposition == d && r.validity == v
            && r.duration_secs == secs && r.phase_hash is None && r.params_consumed is None,
{
}

} // verus!
